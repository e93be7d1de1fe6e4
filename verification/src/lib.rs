//! A recursive Monte Carlo ray tracer, without its arithmetic on real numbers.
//!
//! The crate holds the parts of the renderer that decide rather than measure:
//!
//! - [`sphere`]: which root of a ray against a sphere counts as their meeting;
//! - [`material`]: whether a material scatters or absorbs, and by what it
//!   attenuates;
//! - [`scan`]: the search of a scene for the nearest surface that a ray meets;
//! - [`tracer`]: the bounded recursion that follows a ray from bounce to
//!   bounce and brings back its colour;
//! - [`render`]: the driver, which samples every pixel of an image;
//! - [`exposure`]: the mean of a pixel's samples and its gamma correction;
//! - [`image`], [`pixel`]: the raster image;
//! - [`ppm`], [`decimal`]: its export as a plain-text pixel map.
//!
//! What has to be measured (roots, normals, directions, the colour of the
//! sky) is handed in as functions over the caller's own types of vectors and
//! numbers, so the crate itself never touches a real number: every number it
//! computes with is whole, and every result it gives is exact.

pub mod decimal;
pub mod exposure;
pub mod image;
pub mod material;
pub mod pixel;
pub mod ppm;
pub mod record;
pub mod render;
pub mod scan;
pub mod sphere;
pub mod tracer;

pub use image::{Image, Raster};
pub use material::{Lobes, Material};
pub use pixel::Pixel;
pub use record::HitRecord;
pub use render::{expose_pixel, render, Settings};
pub use scan::closest_hit;
pub use sphere::{Geometry, Sphere};
pub use tracer::{trace_ray, Model, Optics};
