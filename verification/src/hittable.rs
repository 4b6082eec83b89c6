//! Intersection records.
//!
//! A [`HitRecord`] describes where a ray met a surface: the hit point, the
//! unit-ish surface normal oriented against the incoming ray, the ray
//! parameter of the hit, which side of the surface was struck, and the
//! surface's material.

use vstd::prelude::*;
use crate::fixed::{iabs, Fixed, SCALE};
use crate::material::Material;
use crate::ray::Ray;
use crate::vec3::{comps_bounded, dot_num, dot_raw, Vec3};

verus! {

/// This trait represents an object which can be ray traced: shooting a
/// ray at it inside a parameter interval reports the closest intersection
/// strictly inside the interval, or nothing. Each implementation pins the
/// answer down exactly through its `hit_spec` interpretation.
pub trait Hittable {
    /// What the object asks of a query: its own well-formedness and the
    /// machine bounds on the ray and the interval.
    spec fn hit_req(&self, ray: Ray, interval: crate::interval::Interval) -> bool;

    /// The exact answer of an intersection query.
    spec fn hit_spec(&self, ray: Ray, interval: crate::interval::Interval) -> Option<HitRecord>;

    /// Shoot a ray at the object, searching the given parameter interval.
    fn hit(&self, ray: Ray, interval: crate::interval::Interval) -> (r: Option<HitRecord>)
        requires
            self.hit_req(ray, interval),
        ensures
            r == self.hit_spec(ray, interval),
    ;
}

/// The result of a ray/surface intersection.
#[derive(Clone, Copy, Debug, PartialEq, Eq, Structural)]
pub struct HitRecord {
    /// The point at which the intersection occurred.
    pub point: Vec3,
    /// The surface normal at the hit point, always oriented against the
    /// incoming ray.
    pub normal: Vec3,
    /// The ray parameter at which the intersection occurred.
    pub t: Fixed,
    /// `true` when the ray struck the outside of the surface.
    pub front_face: bool,
    /// The material of the surface that was struck.
    pub material: Material,
}

impl HitRecord {
    /// Orient the stored normal against the incoming ray: when the ray's
    /// direction and the outward normal point toward each other the ray hit
    /// the front face and the outward normal is kept; otherwise the ray is
    /// inside the surface and the normal is negated.
    pub fn set_face_normal(&mut self, ray: Ray, outward_normal: Vec3)
        requires
            comps_bounded(ray.direction, 0x4000_0000_0000_0000),
            comps_bounded(outward_normal, 0x4000_0000_0000_0000),
            iabs(dot_num(ray.direction, outward_normal)) <= 0x3000_0000_0000_0000 * (
            SCALE as int),
        ensures
            final(self).front_face == (dot_raw(ray.direction, outward_normal) < 0),
            final(self).front_face ==> final(self).normal == outward_normal,
            !final(self).front_face ==> final(self).normal.x@ == -outward_normal.x@
                && final(self).normal.y@ == -outward_normal.y@ && final(self).normal.z@
                == -outward_normal.z@,
            final(self).point == old(self).point,
            final(self).t == old(self).t,
            final(self).material == old(self).material,
    {
        let d: Fixed = ray.direction.dot(outward_normal);
        self.front_face = d.raw < 0;
        self.normal = if self.front_face {
            outward_normal
        } else {
            outward_normal.neg()
        };
    }
}

} // verus!
