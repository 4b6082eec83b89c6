//! The camera: an eye position with a fixed focal length and viewport.

use vstd::prelude::*;
use crate::fixed::{Fixed, SCALE};
use crate::vec3::Vec3;
use crate::{IMAGE_HEIGHT, IMAGE_WIDTH};

verus! {

/// A view into the scene: the eye position, the focal length, and the
/// dimensions of the viewport rectangle the rays are shot through.
#[derive(Clone, Copy, Debug, PartialEq, Eq, Structural)]
pub struct Camera {
    pub position: Vec3,
    pub focal_length: Fixed,
    pub viewport_width: Fixed,
    pub viewport_height: Fixed,
}

impl Camera {
    /// A camera at the given position, with a focal length of one unit, a
    /// viewport two units wide, and the viewport height matching the
    /// raster's aspect ratio (16:9, so nine eighths of a unit).
    pub fn new(position: Vec3) -> (r: Camera)
        ensures
            r.position == position,
            r.focal_length@ == SCALE,
            r.viewport_width@ == 2 * SCALE,
            r.viewport_height@ == 9 * SCALE / 8,
    {
        let viewport_width: Fixed = Fixed { raw: 2 * SCALE };
        proof {
            assert(450 * 65536 == 29491200) by (nonlinear_arith);
            assert(29491200int / 400int == 73728int);
            assert(9 * 65536 == 589824) by (nonlinear_arith);
        }
        let viewport_height: Fixed = Fixed::from_ratio(
            2 * IMAGE_HEIGHT as i64,
            IMAGE_WIDTH as i64,
        );
        Camera {
            position,
            focal_length: Fixed { raw: SCALE },
            viewport_width,
            viewport_height,
        }
    }
}

} // verus!
