//! Spheres, and the quadratic ray/sphere intersection algorithm.
//!
//! The contract of [`Sphere::hit`] gives the returned record exactly, as a
//! spec-level mirror of the quadratic-formula computation over fixed-point
//! arithmetic; helper spec functions name each intermediate quantity of the
//! algorithm, so that the scene can reason about which root was chosen.

use vstd::prelude::*;
use crate::fixed::{
    fits_i64, fx_div, fx_mul, fx_sqrt, iabs, lemma_fx_div_bounded, lemma_fx_mul_bounded,
    lemma_isqrt_bounds, lemma_tdiv_bound, tdiv, Fixed, SCALE,
};
use crate::hittable::HitRecord;
use crate::interval::{surrounds_spec, Interval};
use crate::material::Material;
use crate::ray::Ray;
use crate::vec3::{comps_bounded, dot_num, lemma_dot_num_bound, len_sq_raw, Vec3};

verus! {

/// Largest raw coordinate magnitude the engine's geometry works with:
/// 2^25 raw units, or 512 whole units in every direction.
pub const WORLD_LIMIT: i64 = 0x200_0000;

/// The vector's components lie within the world's coordinate bound.
pub open spec fn vec_wf(v: Vec3) -> bool {
    comps_bounded(v, WORLD_LIMIT as int)
}

/// Both the origin and the direction of the ray lie within the world's
/// coordinate bound.
pub open spec fn ray_wf(r: Ray) -> bool {
    vec_wf(r.origin) && vec_wf(r.direction)
}

/// The interval's endpoints lie within the world's coordinate bound.
pub open spec fn interval_wf(itv: Interval) -> bool {
    iabs(itv.min@) <= WORLD_LIMIT as int && iabs(itv.max@) <= WORLD_LIMIT as int
}

/// A ray traceable sphere: center, radius and surface material.
#[derive(Clone, Copy, Debug, PartialEq, Eq, Structural)]
pub struct Sphere {
    pub center: Vec3,
    pub radius: Fixed,
    pub material: Material,
}

/// The sphere's center and radius lie within the world's coordinate bound,
/// and the radius is not negative (the constructor guarantees this).
pub open spec fn sphere_wf(s: Sphere) -> bool {
    vec_wf(s.center) && 0 <= s.radius@ <= WORLD_LIMIT as int
}

/// Quadratic coefficient `a = |direction|^2` of the intersection equation.
pub open spec fn hit_a(ray: Ray) -> int {
    len_sq_raw(ray.direction)
}

/// Half-coefficient `h = direction . (center - origin)`.
pub open spec fn hit_h(s: Sphere, ray: Ray) -> int {
    tdiv(
        ray.direction.x@ * (s.center.x@ - ray.origin.x@) + ray.direction.y@ * (s.center.y@
            - ray.origin.y@) + ray.direction.z@ * (s.center.z@ - ray.origin.z@),
        SCALE as int,
    )
}

/// Constant coefficient `c = |center - origin|^2 - radius^2`.
pub open spec fn hit_c(s: Sphere, ray: Ray) -> int {
    tdiv(
        (s.center.x@ - ray.origin.x@) * (s.center.x@ - ray.origin.x@) + (s.center.y@
            - ray.origin.y@) * (s.center.y@ - ray.origin.y@) + (s.center.z@ - ray.origin.z@) * (
        s.center.z@ - ray.origin.z@),
        SCALE as int,
    ) - fx_mul(s.radius@, s.radius@)
}

/// Discriminant `h^2 - a * c` of the intersection equation.
pub open spec fn hit_disc(s: Sphere, ray: Ray) -> int {
    fx_mul(hit_h(s, ray), hit_h(s, ray)) - fx_mul(hit_a(ray), hit_c(s, ray))
}

/// The square root of the discriminant, rounded down.
pub open spec fn hit_sqrtd(s: Sphere, ray: Ray) -> int {
    fx_sqrt(hit_disc(s, ray))
}

/// The nearer root `(h - sqrt(disc)) / a` of the intersection equation.
pub open spec fn hit_root1(s: Sphere, ray: Ray) -> int {
    fx_div(hit_h(s, ray) - hit_sqrtd(s, ray), hit_a(ray))
}

/// The farther root `(h + sqrt(disc)) / a` of the intersection equation.
pub open spec fn hit_root2(s: Sphere, ray: Ray) -> int {
    fx_div(hit_h(s, ray) + hit_sqrtd(s, ray), hit_a(ray))
}

/// The ray parameter at which `ray` first meets `s` strictly inside `itv`,
/// if it does: a degenerate sphere or direction never hits; a negative
/// discriminant means no intersection; otherwise the nearer root is
/// preferred and the farther root is the fallback.
pub open spec fn sphere_hit_t(s: Sphere, ray: Ray, itv: Interval) -> Option<int> {
    if s.radius@ <= 0 || hit_a(ray) == 0 {
        None
    } else if hit_disc(s, ray) < 0 {
        None
    } else if surrounds_spec(itv, hit_root1(s, ray)) {
        Some(hit_root1(s, ray))
    } else if surrounds_spec(itv, hit_root2(s, ray)) {
        Some(hit_root2(s, ray))
    } else {
        None
    }
}

/// The record a hit of `s` at parameter `t` produces: the hit point, the
/// outward normal `(point - center) / radius` oriented against the ray,
/// and the sphere's material.
pub open spec fn sphere_hit_record(s: Sphere, ray: Ray, t: int) -> HitRecord {
    let px = ray.origin.x@ + fx_mul(ray.direction.x@, t);
    let py = ray.origin.y@ + fx_mul(ray.direction.y@, t);
    let pz = ray.origin.z@ + fx_mul(ray.direction.z@, t);
    let owx = fx_div(px - s.center.x@, s.radius@);
    let owy = fx_div(py - s.center.y@, s.radius@);
    let owz = fx_div(pz - s.center.z@, s.radius@);
    let ff = tdiv(
        ray.direction.x@ * owx + ray.direction.y@ * owy + ray.direction.z@ * owz,
        SCALE as int,
    ) < 0;
    let nx = if ff {
        owx
    } else {
        -owx
    };
    let ny = if ff {
        owy
    } else {
        -owy
    };
    let nz = if ff {
        owz
    } else {
        -owz
    };
    HitRecord {
        point: Vec3 {
            x: Fixed { raw: px as i64 },
            y: Fixed { raw: py as i64 },
            z: Fixed { raw: pz as i64 },
        },
        normal: Vec3 {
            x: Fixed { raw: nx as i64 },
            y: Fixed { raw: ny as i64 },
            z: Fixed { raw: nz as i64 },
        },
        t: Fixed { raw: t as i64 },
        front_face: ff,
        material: s.material,
    }
}

/// What `Sphere::hit` returns: the record of the chosen root, or nothing.
pub open spec fn sphere_hit_spec(s: Sphere, ray: Ray, itv: Interval) -> Option<HitRecord> {
    match sphere_hit_t(s, ray, itv) {
        Some(t) => Some(sphere_hit_record(s, ray, t)),
        None => None,
    }
}

impl Sphere {
    /// A sphere with the given center, radius and material. A radius that
    /// is not positive is normalized to zero; a zero-radius sphere never
    /// intersects any ray.
    pub fn new(center: Vec3, radius: Fixed, material: Material) -> (r: Sphere)
        ensures
            r.center == center,
            r.material == material,
            r.radius@ == if radius@ > 0 {
                radius@
            } else {
                0
            },
    {
        let clamped: Fixed = if radius.raw > 0 {
            radius
        } else {
            Fixed { raw: 0 }
        };
        Sphere { center, radius: clamped, material }
    }

    /// Intersect `ray` with the sphere: the closest intersection whose
    /// parameter lies strictly inside `interval`, or nothing.
    ///
    /// In exact real arithmetic the record's oriented normal has unit
    /// length, since the outward normal is the hit offset divided by the
    /// radius. Truncated division only supports the componentwise machine
    /// bound stated below; the renderer therefore re-checks the normal
    /// against its tighter scattering bound at run time.
    pub fn hit(&self, ray: Ray, interval: Interval) -> (r: Option<HitRecord>)
        requires
            sphere_wf(*self),
            ray_wf(ray),
            interval_wf(interval),
        ensures
            r == sphere_hit_spec(*self, ray, interval),
            r matches Some(h) ==> surrounds_spec(interval, h.t@) && h.material == self.material
                && sphere_hit_t(*self, ray, interval) == Some(h.t@),
            r matches Some(h) ==> comps_bounded(h.point, 0x4_0200_0000) && comps_bounded(
                h.normal,
                0x4_0400_0000_0000,
            ),
    {
        if self.radius.raw <= 0 {
            return None;
        }
        let oc: Vec3 = self.center.sub(ray.origin);
        let a: Fixed = ray.direction.length_squared();
        if a.raw == 0 {
            return None;
        }
        proof {
            lemma_dot_num_bound(ray.direction, ray.direction, WORLD_LIMIT as int,
                WORLD_LIMIT as int);
            assert(3 * 0x200_0000 * 0x200_0000 == 0xC_0000_0000 * 65536) by (nonlinear_arith);
            lemma_tdiv_bound(dot_num(ray.direction, ray.direction), SCALE as int, 0xC_0000_0000);
            lemma_dot_num_bound(ray.direction, oc, WORLD_LIMIT as int, 2 * WORLD_LIMIT);
            assert(3 * 0x200_0000 * 0x400_0000 == 0x18_0000_0000 * 65536) by (nonlinear_arith);
            assert(3 * 0x200_0000 * (2 * 0x200_0000) == 3 * 0x200_0000 * 0x400_0000)
                by (nonlinear_arith);
            lemma_tdiv_bound(dot_num(ray.direction, oc), SCALE as int, 0x18_0000_0000);
            lemma_dot_num_bound(oc, oc, 2 * WORLD_LIMIT, 2 * WORLD_LIMIT);
            assert(3 * 0x400_0000 * 0x400_0000 == 0x30_0000_0000 * 65536) by (nonlinear_arith);
            assert(3 * (2 * 0x200_0000) * (2 * 0x200_0000) == 3 * 0x400_0000 * 0x400_0000)
                by (nonlinear_arith);
            lemma_tdiv_bound(dot_num(oc, oc), SCALE as int, 0x30_0000_0000);
            assert(0x200_0000 * 0x200_0000 == 0x4_0000_0000 * 65536) by (nonlinear_arith);
            lemma_fx_mul_bounded(self.radius@, self.radius@, WORLD_LIMIT as int,
                WORLD_LIMIT as int, 0x4_0000_0000);
        }
        let h: Fixed = ray.direction.dot(oc);
        let oc_len_sq: Fixed = oc.length_squared();
        let r_sq: Fixed = self.radius.mul(self.radius);
        let c: Fixed = oc_len_sq.sub(r_sq);
        proof {
            assert(0x18_0000_0000 * 0x18_0000_0000 == 0x240_0000_0000_0000 * 65536)
                by (nonlinear_arith);
            lemma_fx_mul_bounded(h@, h@, 0x18_0000_0000, 0x18_0000_0000, 0x240_0000_0000_0000);
            assert(0xC_0000_0000 * 0x34_0000_0000 == 0x270_0000_0000_0000 * 65536)
                by (nonlinear_arith);
            lemma_fx_mul_bounded(a@, c@, 0xC_0000_0000, 0x34_0000_0000, 0x270_0000_0000_0000);
        }
        let h_sq: Fixed = h.mul(h);
        let a_c: Fixed = a.mul(c);
        let discriminant: Fixed = h_sq.sub(a_c);
        if discriminant.raw < 0 {
            return None;
        }
        let sqrtd: Fixed = discriminant.sqrt();
        proof {
            lemma_isqrt_bounds((discriminant@ * SCALE) as nat);
            if sqrtd@ > 0x40_0000_0000 {
                assert(false) by (nonlinear_arith)
                    requires
                        sqrtd@ * sqrtd@ <= discriminant@ * 65536,
                        discriminant@ <= 0x4B0_0000_0000_0000,
                        sqrtd@ > 0x40_0000_0000,
                ;
            }
            lemma_root_fits(h@ - sqrtd@, a@);
            lemma_root_fits(h@ + sqrtd@, a@);
        }
        let mut root: Fixed = h.sub(sqrtd).div(a);
        if !interval.surrounds(root) {
            root = h.add(sqrtd).div(a);
            if !interval.surrounds(root) {
                return None;
            }
        }
        proof {
            lemma_point_fits(ray, root@);
        }
        let hit_point: Vec3 = ray.at(root);
        let offset: Vec3 = hit_point.sub(self.center);
        proof {
            lemma_fx_div_bounded(offset.x@, self.radius@, 0x4_0400_0000);
            lemma_fx_div_bounded(offset.y@, self.radius@, 0x4_0400_0000);
            lemma_fx_div_bounded(offset.z@, self.radius@, 0x4_0400_0000);
            assert(0x4_0400_0000 * 65536 == 0x4_0400_0000_0000) by (nonlinear_arith);
        }
        let outward: Vec3 = offset.div(self.radius);
        proof {
            lemma_dot_num_bound(ray.direction, outward, WORLD_LIMIT as int, 0x4_0400_0000_0000);
            assert(3 * 0x200_0000 * 0x4_0400_0000_0000 <= 0x3000_0000_0000_0000 * 65536)
                by (nonlinear_arith);
        }
        let mut record: HitRecord = HitRecord {
            point: hit_point,
            normal: outward,
            t: root,
            front_face: false,
            material: self.material,
        };
        record.set_face_normal(ray, outward);
        Some(record)
    }
}

/// A chosen root lies strictly between two representable interval bounds,
/// so it is itself representable and survives the record's cast unchanged.
pub proof fn lemma_hit_t_bounded(s: Sphere, ray: Ray, itv: Interval)
    ensures
        sphere_hit_t(s, ray, itv) matches Some(t) ==> fits_i64(t) && sphere_hit_record(
            s,
            ray,
            t,
        ).t@ == t,
{
}

impl crate::hittable::Hittable for Sphere {
    open spec fn hit_req(&self, ray: Ray, interval: Interval) -> bool {
        sphere_wf(*self) && ray_wf(ray) && interval_wf(interval)
    }

    open spec fn hit_spec(&self, ray: Ray, interval: Interval) -> Option<HitRecord> {
        sphere_hit_spec(*self, ray, interval)
    }

    fn hit(&self, ray: Ray, interval: Interval) -> (r: Option<HitRecord>) {
        Sphere::hit(self, ray, interval)
    }
}

/// The sqrt-shifted numerator divided by a positive `a` stays within `i64`.
proof fn lemma_root_fits(num: int, a: int)
    requires
        a >= 1,
        iabs(num) <= 0x58_0000_0000,
    ensures
        fits_i64(fx_div(num, a)),
{
    lemma_fx_div_bounded(num, a, 0x58_0000_0000);
    assert(0x58_0000_0000 * 65536 == 0x58_0000_0000_0000) by (nonlinear_arith);
}

/// For a bounded ray and a root inside a bounded interval, the hit point
/// computation stays within `i64`.
proof fn lemma_point_fits(ray: Ray, t: int)
    requires
        ray_wf(ray),
        iabs(t) <= WORLD_LIMIT as int,
    ensures
        fits_i64(fx_mul(ray.direction.x@, t)),
        fits_i64(fx_mul(ray.direction.y@, t)),
        fits_i64(fx_mul(ray.direction.z@, t)),
        iabs(fx_mul(ray.direction.x@, t)) <= 0x4_0000_0000,
        iabs(fx_mul(ray.direction.y@, t)) <= 0x4_0000_0000,
        iabs(fx_mul(ray.direction.z@, t)) <= 0x4_0000_0000,
        fits_i64(ray.origin.x@ + fx_mul(ray.direction.x@, t)),
        fits_i64(ray.origin.y@ + fx_mul(ray.direction.y@, t)),
        fits_i64(ray.origin.z@ + fx_mul(ray.direction.z@, t)),
{
    assert(0x200_0000 * 0x200_0000 == 0x4_0000_0000 * 65536) by (nonlinear_arith);
    lemma_fx_mul_bounded(ray.direction.x@, t, WORLD_LIMIT as int, WORLD_LIMIT as int,
        0x4_0000_0000);
    lemma_fx_mul_bounded(ray.direction.y@, t, WORLD_LIMIT as int, WORLD_LIMIT as int,
        0x4_0000_0000);
    lemma_fx_mul_bounded(ray.direction.z@, t, WORLD_LIMIT as int, WORLD_LIMIT as int,
        0x4_0000_0000);
}

} // verus!
