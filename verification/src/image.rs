//! The raster image and its export as a plain-text pixel map.

use vstd::prelude::*;
use crate::decimal::{append_decimal, decimal};
use crate::pixel::Pixel;
use crate::ppm::{lemma_ppm_tells_image, ppm_body, ppm_header, ppm_line, ppm_text};

verus! {

/// The mathematical content of an image: its size and its pixels, row by row
/// from row 0, each row from column 0.
pub struct Raster {
    pub width: nat,
    pub height: nat,
    pub pixels: Seq<Pixel>,
}

impl Raster {
    /// There is exactly one pixel for every column of every row.
    pub open spec fn wf(self) -> bool {
        self.pixels.len() == self.width * self.height
    }

    /// Column `x` and row `y` lie inside the raster.
    pub open spec fn holds(self, x: int, y: int) -> bool {
        0 <= x < self.width && 0 <= y < self.height
    }

    /// The raster of the given size in which every pixel is black.
    pub open spec fn blank(width: nat, height: nat) -> Raster {
        Raster { width, height, pixels: Seq::new(width * height, |i: int| Pixel::black()) }
    }

    /// The pixel in column `x` of row `y`.
    pub open spec fn at(self, x: int, y: int) -> Pixel
        recommends
            self.holds(x, y),
    {
        self.pixels[y * self.width + x]
    }

    /// The raster with the pixel in column `x` of row `y` replaced by `p`.
    pub open spec fn put(self, x: int, y: int, p: Pixel) -> Raster
        recommends
            self.holds(x, y),
    {
        Raster { pixels: self.pixels.update(y * self.width + x, p), ..self }
    }

    /// The raster as a plain-text pixel map: the header with its size, and
    /// then the pixels in the order in which the raster holds them.
    pub open spec fn ppm(self) -> Seq<char> {
        ppm_text(self.width, self.height, self.pixels)
    }
}

/// Distinct places of a raster are distinct places of its pixel sequence, and
/// every place inside the raster is inside the sequence.
proof fn lemma_place(width: nat, height: nat, x: int, y: int, i: int, j: int)
    requires
        0 <= x < width,
        0 <= y < height,
        0 <= i < width,
        0 <= j < height,
    ensures
        0 <= y * width + x < width * height,
        (y * width + x == j * width + i) ==> (x == i && y == j),
{
    assert(y * width + x < width * height) by (nonlinear_arith)
        requires
            0 <= x < width,
            0 <= y < height,
    ;
    assert(0 <= y * width) by (nonlinear_arith)
        requires
            0 <= y,
            0 <= width,
    ;
    if y * width + x == j * width + i {
        assert(y == j) by (nonlinear_arith)
            requires
                y * width + x == j * width + i,
                0 <= x < width,
                0 <= i < width,
        ;
    }
}

/// What `put` does, place by place: the place written holds the new pixel,
/// every other place keeps its own, and the size stays.
pub proof fn lemma_put(raster: Raster, x: int, y: int, p: Pixel)
    requires
        raster.wf(),
        raster.holds(x, y),
    ensures
        raster.put(x, y, p).wf(),
        raster.put(x, y, p).width == raster.width,
        raster.put(x, y, p).height == raster.height,
        raster.put(x, y, p).at(x, y) == p,
        forall|i: int, j: int|
            raster.holds(i, j) && !(i == x && j == y) ==> #[trigger] raster.put(x, y, p).at(i, j)
                == raster.at(i, j),
{
    lemma_place(raster.width, raster.height, x, y, x, y);
    assert forall|i: int, j: int| raster.holds(i, j) && !(i == x && j == y) implies #[trigger]
        raster.put(x, y, p).at(i, j) == raster.at(i, j) by {
        lemma_place(raster.width, raster.height, x, y, i, j);
        lemma_place(raster.width, raster.height, i, j, x, y);
    }
}

/// Nothing is lost in the writing: well-formed rasters that are written as the
/// same pixel map are the same raster.
pub proof fn lemma_ppm_tells_raster(raster: Raster, other: Raster)
    requires
        raster.wf(),
        other.wf(),
        raster.ppm() == other.ppm(),
    ensures
        raster == other,
{
    lemma_ppm_tells_image(
        raster.width,
        raster.height,
        raster.pixels,
        other.width,
        other.height,
        other.pixels,
    );
}

/// Every pixel of a blank raster is black.
pub proof fn lemma_blank(width: nat, height: nat, x: int, y: int)
    requires
        0 <= x < width,
        0 <= y < height,
    ensures
        Raster::blank(width, height).wf(),
        Raster::blank(width, height).at(x, y) == Pixel::black(),
{
    lemma_place(width, height, x, y, x, y);
}

/// A raster image of fixed size, written pixel by pixel.
pub struct Image {
    width: usize,
    height: usize,
    pixels: Vec<Pixel>,
}

impl View for Image {
    type V = Raster;

    /// The raster that the image holds. The sequence is built to the length
    /// that the size asks for, so that the raster is well formed by its
    /// shape; the image's invariant sees to it that no place is made up.
    closed spec fn view(&self) -> Raster {
        Raster {
            width: self.width as nat,
            height: self.height as nat,
            pixels: Seq::new(
                (self.width * self.height) as nat,
                |i: int| if i < self.pixels@.len() { self.pixels@[i] } else { Pixel::black() },
            ),
        }
    }
}

impl Image {
    #[verifier::type_invariant]
    spec fn inv(self) -> bool {
        &&& self.width * self.height <= usize::MAX
        &&& self.pixels@.len() == self.width * self.height
    }

    /// The content of every image is well formed, and its size fits the
    /// machine's.
    pub proof fn lemma_view(&self)
        ensures
            self@.wf(),
            self@.width <= usize::MAX,
            self@.height <= usize::MAX,
    {
    }

    /// A black image of `height` rows and `width` columns.
    pub fn new(height: usize, width: usize) -> (image: Image)
        requires
            width * height <= usize::MAX,
        ensures
            image@ == Raster::blank(width as nat, height as nat),
    {
        let count = width * height;
        let mut pixels: Vec<Pixel> = Vec::new();
        let mut i: usize = 0;
        while i < count
            invariant
                i <= count,
                pixels@.len() == i,
                forall|k: int| 0 <= k < i ==> pixels@[k] == Pixel::black(),
            decreases count - i,
        {
            pixels.push(Pixel::black());
            i = i + 1;
        }
        let image = Image { width, height, pixels };
        assert(image@.pixels =~= Raster::blank(width as nat, height as nat).pixels);
        image
    }

    /// The number of columns.
    pub fn width(&self) -> (w: usize)
        ensures
            w == self@.width,
    {
        self.width
    }

    /// The number of rows.
    pub fn height(&self) -> (h: usize)
        ensures
            h == self@.height,
    {
        self.height
    }

    /// The pixel in column `x` of row `y`.
    pub fn pixel_at(&self, x: usize, y: usize) -> (p: Pixel)
        requires
            self@.holds(x as int, y as int),
        ensures
            p == self@.at(x as int, y as int),
    {
        proof {
            use_type_invariant(self);
            lemma_place(self.width as nat, self.height as nat, x as int, y as int, x as int, y as int);
        }
        self.pixels[y * self.width + x]
    }

    /// Writes `pixel` into column `x` of row `y`.
    pub fn insert_pixel_at(&mut self, x: usize, y: usize, pixel: &Pixel)
        requires
            old(self)@.holds(x as int, y as int),
        ensures
            final(self)@ == old(self)@.put(x as int, y as int, *pixel),
    {
        proof {
            use_type_invariant(&*self);
            lemma_place(self.width as nat, self.height as nat, x as int, y as int, x as int, y as int);
        }
        let place = y * self.width + x;
        self.pixels[place] = *pixel;
        assert(self@.pixels =~= old(self)@.put(x as int, y as int, *pixel).pixels);
    }

    /// The image as a plain-text pixel map, row 0 first.
    pub fn to_ppm(&self) -> (text: String)
        ensures
            text@ == self@.ppm(),
    {
        proof {
            use_type_invariant(self);
            reveal_strlit("P3\n");
            reveal_strlit(" ");
            reveal_strlit("\n255\n");
            reveal_strlit("\n");
        }
        let mut text = String::new();
        text.append("P3\n");
        append_decimal(&mut text, self.width);
        text.append(" ");
        append_decimal(&mut text, self.height);
        text.append("\n255\n");
        assert(text@ =~= ppm_header(self@.width, self@.height));
        let mut i: usize = 0;
        while i < self.pixels.len()
            invariant
                i <= self.pixels@.len(),
                text@ == ppm_header(self@.width, self@.height) + ppm_body(self.pixels@.take(i as int)),
            decreases self.pixels@.len() - i,
        {
            let p = self.pixels[i];
            let ghost before = text@;
            append_decimal(&mut text, p.r as usize);
            text.append(" ");
            append_decimal(&mut text, p.g as usize);
            text.append(" ");
            append_decimal(&mut text, p.b as usize);
            text.append("\n");
            proof {
                reveal_strlit(" ");
                reveal_strlit("\n");
                let upto = self.pixels@.take(i + 1);
                assert(upto.drop_last() =~= self.pixels@.take(i as int));
                assert(upto.last() == p);
                assert(text@ =~= before + ppm_line(p));
                assert(text@ =~= ppm_header(self@.width, self@.height) + ppm_body(upto));
            }
            i = i + 1;
        }
        assert(self.pixels@.take(i as int) =~= self@.pixels);
        text
    }
}

} // verus!
