//! One picture element: three colour channels of eight bits each.

use vstd::prelude::*;

verus! {

/// A colour as it is stored in an image: red, green and blue, each `0..=255`.
#[derive(Clone, Copy, Debug, PartialEq, Eq, Structural)]
pub struct Pixel {
    pub r: u8,
    pub g: u8,
    pub b: u8,
}

impl Pixel {
    /// The pixel with the given channels.
    pub fn new(r: u8, g: u8, b: u8) -> (p: Pixel)
        ensures
            p == (Pixel { r, g, b }),
    {
        Pixel { r, g, b }
    }

    /// The pixel that carries no light.
    pub open spec fn spec_black() -> Pixel {
        Pixel { r: 0, g: 0, b: 0 }
    }

    /// Pure black, the colour of exhausted or absorbed light.
    #[verifier::when_used_as_spec(spec_black)]
    pub fn black() -> (p: Pixel)
        ensures
            p == Pixel::spec_black(),
    {
        Pixel { r: 0, g: 0, b: 0 }
    }
}

} // verus!
