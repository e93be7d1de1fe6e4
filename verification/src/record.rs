//! The record of a ray meeting a surface.

use vstd::prelude::*;

verus! {

/// One meeting of a ray with a surface, over the caller's types of vectors
/// (`V`), of numbers (`T`) and of what stands for a material (`M`).
#[derive(Debug, PartialEq)]
pub struct HitRecord<V, T, M> {
    /// Where the ray meets the surface.
    pub point: V,
    /// The surface's normal there, of length one and turned against the ray.
    pub normal: V,
    /// The ray's parameter at the meeting.
    pub t: T,
    /// Whether the ray came from outside the surface.
    pub front_face: bool,
    /// The material of the surface.
    pub material: M,
}

impl<V, T: Copy, M: Copy> HitRecord<V, T, M> {
    /// The ray's parameter at the meeting.
    pub fn t_value(&self) -> (t: T)
        ensures
            t == self.t,
    {
        self.t
    }

    /// The material of the surface that was met.
    pub fn material(&self) -> (material: M)
        ensures
            material == self.material,
    {
        self.material
    }
}

} // verus!
