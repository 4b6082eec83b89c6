//! Surface materials and their scattering behaviour.
//!
//! A material decides, at a hit point, whether the light path continues
//! and with what attenuation. The diffuse material perturbs the surface
//! normal with a random unit direction; the metal material reflects the
//! incoming ray deterministically.

use vstd::prelude::*;
use crate::fixed::{fx_mul, iabs, SCALE};
use crate::hittable::HitRecord;
use crate::ray::Ray;
use crate::vec3::{comps_bounded, dot_raw, reflect, Vec3, NEAR_ZERO, REFLECT_LIMIT};

verus! {

/// A scattered ray together with the per-channel attenuation of the light
/// it carries.
#[derive(Clone, Copy, Debug, PartialEq, Eq, Structural)]
pub struct Reflection {
    pub ray: Ray,
    pub attenuation: Vec3,
}

/// A diffuse (matte) material with a fixed albedo.
#[derive(Clone, Copy, Debug, PartialEq, Eq, Structural)]
pub struct Lambertian {
    pub albedo: Vec3,
}

/// A specularly reflecting material with a fixed albedo.
#[derive(Clone, Copy, Debug, PartialEq, Eq, Structural)]
pub struct Metal {
    pub albedo: Vec3,
}

/// The materials a surface can be made of.
#[derive(Clone, Copy, Debug, PartialEq, Eq, Structural)]
pub enum Material {
    Lambertian(Lambertian),
    Metal(Metal),
}

/// `d` is the diffuse scatter direction for normal `n` and unit sample `u`:
/// the sum `n + u`, except that a near-zero sum (a degenerate cancellation)
/// falls back to the normal itself.
pub open spec fn scatter_direction_matches(n: Vec3, u: Vec3, d: Vec3) -> bool {
    let sx = n.x@ + u.x@;
    let sy = n.y@ + u.y@;
    let sz = n.z@ + u.z@;
    if iabs(sx) < NEAR_ZERO && iabs(sy) < NEAR_ZERO && iabs(sz) < NEAR_ZERO {
        d == n
    } else {
        d.x@ == sx && d.y@ == sy && d.z@ == sz
    }
}

/// The raw x component of the specular reflection of `v` about `n`.
pub open spec fn reflect_x(v: Vec3, n: Vec3) -> int {
    v.x@ - fx_mul(fx_mul(n.x@, 2 * SCALE), dot_raw(v, n))
}

/// The raw y component of the specular reflection of `v` about `n`.
pub open spec fn reflect_y(v: Vec3, n: Vec3) -> int {
    v.y@ - fx_mul(fx_mul(n.y@, 2 * SCALE), dot_raw(v, n))
}

/// The raw z component of the specular reflection of `v` about `n`.
pub open spec fn reflect_z(v: Vec3, n: Vec3) -> int {
    v.z@ - fx_mul(fx_mul(n.z@, 2 * SCALE), dot_raw(v, n))
}

/// Diffuse scattering stays on the normal's side of the surface: whenever
/// the sampled direction is no longer than the surface normal, the
/// scattered direction's dot product with the normal is not negative —
/// and the degenerate fallback (the normal itself) trivially is not
/// either.
pub proof fn lemma_diffuse_scatter_same_side(n: Vec3, u: Vec3, d: Vec3)
    requires
        scatter_direction_matches(n, u, d),
        crate::vec3::sum_sq(u) <= crate::vec3::sum_sq(n),
    ensures
        dot_raw(d, n) >= 0,
{
    let nn = crate::vec3::sum_sq(n);
    let uu = crate::vec3::sum_sq(u);
    let un = crate::vec3::dot_num(u, n);
    crate::vec3::lemma_sum_sq_nonneg(n);
    crate::vec3::lemma_sum_sq_nonneg(u);
    if iabs(n.x@ + u.x@) < NEAR_ZERO && iabs(n.y@ + u.y@) < NEAR_ZERO && iabs(n.z@ + u.z@)
        < NEAR_ZERO {
        crate::fixed::lemma_tdiv_ordered(0, nn, SCALE as int);
    } else {
        assert(crate::vec3::dot_num(d, n) == nn + un) by (nonlinear_arith)
            requires
                d.x@ == n.x@ + u.x@,
                d.y@ == n.y@ + u.y@,
                d.z@ == n.z@ + u.z@,
                crate::vec3::dot_num(d, n) == d.x@ * n.x@ + d.y@ * n.y@ + d.z@ * n.z@,
                nn == n.x@ * n.x@ + n.y@ * n.y@ + n.z@ * n.z@,
                un == u.x@ * n.x@ + u.y@ * n.y@ + u.z@ * n.z@,
        ;
        let c1 = u.y@ * n.z@ - u.z@ * n.y@;
        let c2 = u.z@ * n.x@ - u.x@ * n.z@;
        let c3 = u.x@ * n.y@ - u.y@ * n.x@;
        lemma_lagrange_identity(u.x@, u.y@, u.z@, n.x@, n.y@, n.z@);
        crate::fixed::lemma_square_nonneg(c1);
        crate::fixed::lemma_square_nonneg(c2);
        crate::fixed::lemma_square_nonneg(c3);
        assert(un >= -nn) by (nonlinear_arith)
            requires
                un * un <= uu * nn,
                0 <= uu <= nn,
        ;
        crate::fixed::lemma_tdiv_ordered(0, nn + un, SCALE as int);
    }
}

/// Lagrange's identity for three components: the product of two
/// squared-component sums is the squared dot product plus the squared
/// cross-product components.
proof fn lemma_lagrange_identity(ux: int, uy: int, uz: int, nx: int, ny: int, nz: int)
    ensures
        (ux * ux + uy * uy + uz * uz) * (nx * nx + ny * ny + nz * nz) - (ux * nx + uy * ny + uz
            * nz) * (ux * nx + uy * ny + uz * nz) == (uy * nz - uz * ny) * (uy * nz - uz * ny)
            + (uz * nx - ux * nz) * (uz * nx - ux * nz) + (ux * ny - uy * nx) * (ux * ny - uy
            * nx),
{
    let p1 = ux * ux;
    let p2 = uy * uy;
    let p3 = uz * uz;
    let s1 = nx * nx;
    let s2 = ny * ny;
    let s3 = nz * nz;
    let a = ux * nx;
    let b = uy * ny;
    let c = uz * nz;
    assert((p1 + p2 + p3) * (s1 + s2 + s3) == p1 * s1 + p1 * s2 + p1 * s3 + p2 * s1 + p2 * s2
        + p2 * s3 + p3 * s1 + p3 * s2 + p3 * s3) by (nonlinear_arith);
    assert((a + b + c) * (a + b + c) == a * a + b * b + c * c + 2 * (a * b) + 2 * (a * c) + 2 * (
    b * c)) by (nonlinear_arith);
    assert(a * a == p1 * s1) by (nonlinear_arith)
        requires
            a == ux * nx,
            p1 == ux * ux,
            s1 == nx * nx,
    ;
    assert(b * b == p2 * s2) by (nonlinear_arith)
        requires
            b == uy * ny,
            p2 == uy * uy,
            s2 == ny * ny,
    ;
    assert(c * c == p3 * s3) by (nonlinear_arith)
        requires
            c == uz * nz,
            p3 == uz * uz,
            s3 == nz * nz,
    ;
    lemma_cross_term(uy, uz, ny, nz, p2, p3, s2, s3, b, c);
    lemma_cross_term(uz, ux, nz, nx, p3, p1, s3, s1, c, a);
    lemma_cross_term(ux, uy, nx, ny, p1, p2, s1, s2, a, b);
}

/// One cross-product component squared, expanded over named products:
/// `(g*t - h*s)^2 == g^2 t^2 + h^2 s^2 - 2 (g s)(h t)`.
proof fn lemma_cross_term(
    g: int,
    h: int,
    s: int,
    t: int,
    pg: int,
    ph: int,
    ss: int,
    tt: int,
    gs: int,
    ht: int,
)
    requires
        pg == g * g,
        ph == h * h,
        ss == s * s,
        tt == t * t,
        gs == g * s,
        ht == h * t,
    ensures
        (g * t - h * s) * (g * t - h * s) == pg * tt + ph * ss - 2 * (gs * ht),
{
    let gt = g * t;
    let hs = h * s;
    assert((gt - hs) * (gt - hs) == gt * gt + hs * hs - 2 * (gt * hs)) by (nonlinear_arith);
    assert(gt * gt == (g * g) * (t * t)) by (nonlinear_arith)
        requires
            gt == g * t,
    ;
    assert(hs * hs == (h * h) * (s * s)) by (nonlinear_arith)
        requires
            hs == h * s,
    ;
    assert((g * t) * (h * s) == (g * s) * (h * t)) by (nonlinear_arith);
}

impl Lambertian {
    /// The deterministic part of diffuse scattering, for a given unit
    /// sample: the scattered ray starts at the hit point and points along
    /// `hit.normal + unit`, falling back to the normal when that sum is
    /// near zero.
    pub fn scatter_with_unit(&self, hit: HitRecord, unit: Vec3) -> (r: Reflection)
        requires
            comps_bounded(hit.normal, REFLECT_LIMIT as int),
            comps_bounded(unit, 0x100_0000),
        ensures
            r.attenuation == self.albedo,
            r.ray.origin == hit.point,
            scatter_direction_matches(hit.normal, unit, r.ray.direction),
    {
        let mut direction: Vec3 = hit.normal.add(unit);
        if direction.is_near_zero() {
            direction = hit.normal;
        }
        Reflection { ray: Ray::new(hit.point, direction), attenuation: self.albedo }
    }

    /// Diffuse scattering: always succeeds, attenuating by the albedo; the
    /// scattered direction is the normal plus a random unit sample, with
    /// the near-zero fallback.
    pub fn scatter(&self, ray: Ray, hit: HitRecord) -> (r: Option<Reflection>)
        requires
            comps_bounded(hit.normal, REFLECT_LIMIT as int),
        ensures
            r matches Some(refl) && refl.attenuation == self.albedo && refl.ray.origin
                == hit.point && exists|u: Vec3|
                #![auto]
                comps_bounded(u, 0x100_0000) && scatter_direction_matches(
                    hit.normal,
                    u,
                    refl.ray.direction,
                ),
    {
        let unit: Vec3 = Vec3::random_unit_vector();
        let refl: Reflection = self.scatter_with_unit(hit, unit);
        proof {
            assert(comps_bounded(unit, 0x100_0000) && scatter_direction_matches(
                hit.normal,
                unit,
                refl.ray.direction,
            ));
        }
        Some(refl)
    }
}

impl Metal {
    /// Specular scattering: always succeeds, deterministically, with the
    /// scattered direction `incoming - 2 * (incoming . normal) * normal`
    /// and the albedo as attenuation.
    pub fn scatter(&self, ray: Ray, hit: HitRecord) -> (r: Option<Reflection>)
        requires
            comps_bounded(ray.direction, REFLECT_LIMIT as int),
            comps_bounded(hit.normal, REFLECT_LIMIT as int),
        ensures
            r matches Some(refl) && refl.attenuation == self.albedo && refl.ray.origin
                == hit.point && refl.ray.direction.x@ == reflect_x(ray.direction, hit.normal)
                && refl.ray.direction.y@ == reflect_y(ray.direction, hit.normal)
                && refl.ray.direction.z@ == reflect_z(ray.direction, hit.normal),
    {
        let reflected: Vec3 = reflect(ray.direction, hit.normal);
        Some(Reflection { ray: Ray::new(hit.point, reflected), attenuation: self.albedo })
    }
}

impl Material {
    /// The material's intrinsic reflectance color.
    pub open spec fn albedo_spec(self) -> Vec3 {
        match self {
            Material::Lambertian(l) => l.albedo,
            Material::Metal(m) => m.albedo,
        }
    }

    /// Scatter the incoming ray at the given hit. Every current material
    /// scatters; the optional result leaves room for fully absorbing
    /// materials.
    pub fn scatter(&self, ray: Ray, hit: HitRecord) -> (r: Option<Reflection>)
        requires
            comps_bounded(ray.direction, REFLECT_LIMIT as int),
            comps_bounded(hit.normal, REFLECT_LIMIT as int),
        ensures
            r matches Some(refl) && refl.attenuation == self.albedo_spec() && refl.ray.origin
                == hit.point,
            self matches Material::Metal(m) ==> (r matches Some(refl) && refl.ray.direction.x@
                == reflect_x(ray.direction, hit.normal) && refl.ray.direction.y@ == reflect_y(
                ray.direction,
                hit.normal,
            ) && refl.ray.direction.z@ == reflect_z(ray.direction, hit.normal)),
            self matches Material::Lambertian(l) ==> (r matches Some(refl) && exists|u: Vec3|
                #![auto]
                comps_bounded(u, 0x100_0000) && scatter_direction_matches(
                    hit.normal,
                    u,
                    refl.ray.direction,
                )),
    {
        match self {
            Material::Lambertian(l) => l.scatter(ray, hit),
            Material::Metal(m) => m.scatter(ray, hit),
        }
    }
}

} // verus!
