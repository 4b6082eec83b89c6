//! A small ray-tracing engine over exact fixed-point arithmetic.
//!
//! Every geometric quantity (point, direction, color channel, ray parameter)
//! is a binary fixed-point number with 16 fractional bits, so all arithmetic
//! here has exact, machine-checked semantics: each operation's contract states
//! precisely which integer the operation produces, including its rounding.

use vstd::prelude::*;

pub mod bitmap;
pub mod camera;
pub mod color;
pub mod fixed;
pub mod formats;
pub mod hittable;
pub mod hittable_list;
pub mod image;
pub mod interval;
pub mod material;
pub mod pixmap;
pub mod ray;
pub mod renderer;
pub mod rng;
pub mod sphere;
pub mod vec3;

verus! {

/// Width of the rendered raster, in pixels.
pub const IMAGE_WIDTH: usize = 400;

/// Height of the rendered raster, in pixels: the width divided by the 16:9
/// aspect ratio.
pub const IMAGE_HEIGHT: usize = 225;

/// Number of jittered samples averaged per pixel.
pub const SAMPLES_PER_PIXEL: usize = 10;

/// Recursion budget for bounced rays.
pub const MAX_DEPTH: u32 = 10;

} // verus!
