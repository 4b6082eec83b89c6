//! Rays: an origin plus a direction, traversed by a fixed-point parameter.

use vstd::prelude::*;
use crate::fixed::{fits_i64, fx_mul, Fixed};
use crate::vec3::Vec3;

verus! {

/// A ray: the half-line `origin + direction * t`.
#[derive(Clone, Copy, Debug, PartialEq, Eq, Structural)]
pub struct Ray {
    pub origin: Vec3,
    pub direction: Vec3,
}

/// The exact raw components of the ray's position at parameter `t`.
pub open spec fn ray_at(r: Ray, t: int) -> (int, int, int) {
    (
        r.origin.x@ + fx_mul(r.direction.x@, t),
        r.origin.y@ + fx_mul(r.direction.y@, t),
        r.origin.z@ + fx_mul(r.direction.z@, t),
    )
}

impl Ray {
    /// The trivial ray: zero origin and zero direction.
    pub fn zero() -> (r: Ray)
        ensures
            r.origin.x@ == 0 && r.origin.y@ == 0 && r.origin.z@ == 0,
            r.direction.x@ == 0 && r.direction.y@ == 0 && r.direction.z@ == 0,
    {
        Ray { origin: Vec3::zero(), direction: Vec3::zero() }
    }

    /// A ray with the given origin and direction.
    pub fn new(origin: Vec3, direction: Vec3) -> (r: Ray)
        ensures
            r.origin == origin,
            r.direction == direction,
    {
        Ray { origin, direction }
    }

    /// The ray's position at parameter `t`: `origin + direction * t`.
    pub fn at(&self, t: Fixed) -> (p: Vec3)
        requires
            fits_i64(fx_mul(self.direction.x@, t@)),
            fits_i64(fx_mul(self.direction.y@, t@)),
            fits_i64(fx_mul(self.direction.z@, t@)),
            fits_i64(self.origin.x@ + fx_mul(self.direction.x@, t@)),
            fits_i64(self.origin.y@ + fx_mul(self.direction.y@, t@)),
            fits_i64(self.origin.z@ + fx_mul(self.direction.z@, t@)),
        ensures
            p.x@ == ray_at(*self, t@).0,
            p.y@ == ray_at(*self, t@).1,
            p.z@ == ray_at(*self, t@).2,
    {
        self.origin.add(self.direction.mul(t))
    }
}

/// A ray's position at parameter zero is its origin, and at any `t` it is
/// the origin displaced by the direction scaled by `t`.
pub proof fn lemma_position_at(r: Ray, t: int)
    ensures
        ray_at(r, 0).0 == r.origin.x@,
        ray_at(r, 0).1 == r.origin.y@,
        ray_at(r, 0).2 == r.origin.z@,
        ray_at(r, t).0 == r.origin.x@ + fx_mul(r.direction.x@, t),
        ray_at(r, t).1 == r.origin.y@ + fx_mul(r.direction.y@, t),
        ray_at(r, t).2 == r.origin.z@ + fx_mul(r.direction.z@, t),
{
    assert(r.direction.x@ * 0 == 0) by (nonlinear_arith);
    assert(r.direction.y@ * 0 == 0) by (nonlinear_arith);
    assert(r.direction.z@ * 0 == 0) by (nonlinear_arith);
}

} // verus!
