//! 3D vectors over fixed-point scalars.
//!
//! A [`Vec3`] is used interchangeably as a point, a direction and an RGB
//! color. Every operation's contract gives the exact raw value of each
//! component of the result, including the rounding of products, quotients
//! and square roots.

use vstd::prelude::*;
use crate::fixed::{
    fits_i64, fx_div, fx_mul, fx_sqrt, iabs, isqrt_spec, lemma_isqrt_bounds, lemma_mul_bound,
    lemma_square_lower, lemma_square_nonneg, lemma_tdiv_bound, lemma_tdiv_exact,
    lemma_tdiv_mul_le, lemma_tdiv_ordered, tdiv, tdiv_i128, wide_mul, Fixed, SCALE,
};
use crate::rng::{random_real, random_real_range};

verus! {

/// Components whose magnitude is below this raw threshold count as
/// "near zero" (the degenerate-scatter guard). The threshold is 2^-8 of a
/// unit: the closest this representation comes to an infinitesimal guard,
/// and chosen so that any vector that clears it has a squared-component
/// sum of at least one raw unit of squared length.
pub const NEAR_ZERO: i64 = 256;

/// Largest component magnitude accepted by the dot product and the
/// operations built on it: 2^38 raw units.
pub const DOT_LIMIT: i64 = 0x40_0000_0000;

/// Largest component magnitude accepted by `reflect`: 2^30 raw units.
pub const REFLECT_LIMIT: i64 = 0x4000_0000;

/// A 3D vector with three fixed-point components.
#[derive(Clone, Copy, Debug, PartialEq, Eq, Structural)]
pub struct Vec3 {
    pub x: Fixed,
    pub y: Fixed,
    pub z: Fixed,
}

/// Every component's magnitude is at most `m`.
pub open spec fn comps_bounded(v: Vec3, m: int) -> bool {
    iabs(v.x@) <= m && iabs(v.y@) <= m && iabs(v.z@) <= m
}

/// The un-divided numerator of the dot product of `a` and `b`.
pub open spec fn dot_num(a: Vec3, b: Vec3) -> int {
    a.x@ * b.x@ + a.y@ * b.y@ + a.z@ * b.z@
}

/// Raw value of the dot product of `a` and `b` (one truncation at the end).
pub open spec fn dot_raw(a: Vec3, b: Vec3) -> int {
    tdiv(dot_num(a, b), SCALE as int)
}

/// The exact sum of the squared raw components of `v`.
pub open spec fn sum_sq(v: Vec3) -> int {
    dot_num(v, v)
}

/// Raw value of the squared length of `v`.
pub open spec fn len_sq_raw(v: Vec3) -> int {
    dot_raw(v, v)
}

/// Raw value of the length of `v`.
pub open spec fn len_raw(v: Vec3) -> int {
    fx_sqrt(len_sq_raw(v))
}

/// All components within the near-zero threshold.
pub open spec fn near_zero(v: Vec3) -> bool {
    iabs(v.x@) < NEAR_ZERO && iabs(v.y@) < NEAR_ZERO && iabs(v.z@) < NEAR_ZERO
}

/// The vector's length is one, up to the normalization error the sampler
/// admits: its squared-component sum strays from one raw unit of squared
/// scale by at most a two-percent margin below the representation.
pub open spec fn near_unit(v: Vec3) -> bool {
    (SCALE as int) * SCALE - 6 * SCALE <= sum_sq(v) <= (SCALE as int) * SCALE + 1300 * SCALE
}

/// Bounded components give a bounded dot-product numerator.
pub proof fn lemma_dot_num_bound(a: Vec3, b: Vec3, m: int, n: int)
    requires
        m >= 0,
        n >= 0,
        comps_bounded(a, m),
        comps_bounded(b, n),
    ensures
        iabs(dot_num(a, b)) <= 3 * m * n,
{
    lemma_mul_bound(a.x@, b.x@, m, n);
    lemma_mul_bound(a.y@, b.y@, m, n);
    lemma_mul_bound(a.z@, b.z@, m, n);
    assert(3 * m * n == 3 * (m * n)) by (nonlinear_arith);
}

/// A vector's squared-component sum is never negative, and is large when one
/// component clears the near-zero threshold.
pub proof fn lemma_sum_sq_nonneg(v: Vec3)
    ensures
        sum_sq(v) >= 0,
        !near_zero(v) ==> sum_sq(v) >= NEAR_ZERO * NEAR_ZERO,
{
    lemma_square_nonneg(v.x@);
    lemma_square_nonneg(v.y@);
    lemma_square_nonneg(v.z@);
    if !near_zero(v) {
        if iabs(v.x@) >= NEAR_ZERO {
            lemma_square_lower(v.x@, NEAR_ZERO as int);
        } else if iabs(v.y@) >= NEAR_ZERO {
            lemma_square_lower(v.y@, NEAR_ZERO as int);
        } else {
            lemma_square_lower(v.z@, NEAR_ZERO as int);
        }
    }
}

impl Vec3 {
    /// The zero vector.
    pub fn zero() -> (r: Vec3)
        ensures
            r.x@ == 0 && r.y@ == 0 && r.z@ == 0,
    {
        Vec3 { x: Fixed::zero(), y: Fixed::zero(), z: Fixed::zero() }
    }

    /// A vector with the given components.
    pub fn new(x: Fixed, y: Fixed, z: Fixed) -> (r: Vec3)
        ensures
            r.x == x && r.y == y && r.z == z,
    {
        Vec3 { x, y, z }
    }

    /// The x component.
    pub fn x(&self) -> (r: Fixed)
        ensures
            r == self.x,
    {
        self.x
    }

    /// The y component.
    pub fn y(&self) -> (r: Fixed)
        ensures
            r == self.y,
    {
        self.y
    }

    /// The z component.
    pub fn z(&self) -> (r: Fixed)
        ensures
            r == self.z,
    {
        self.z
    }

    /// Exact component-wise sum.
    pub fn add(self, rhs: Vec3) -> (r: Vec3)
        requires
            fits_i64(self.x@ + rhs.x@),
            fits_i64(self.y@ + rhs.y@),
            fits_i64(self.z@ + rhs.z@),
        ensures
            r.x@ == self.x@ + rhs.x@,
            r.y@ == self.y@ + rhs.y@,
            r.z@ == self.z@ + rhs.z@,
    {
        Vec3 { x: self.x.add(rhs.x), y: self.y.add(rhs.y), z: self.z.add(rhs.z) }
    }

    /// Exact component-wise difference.
    pub fn sub(self, rhs: Vec3) -> (r: Vec3)
        requires
            fits_i64(self.x@ - rhs.x@),
            fits_i64(self.y@ - rhs.y@),
            fits_i64(self.z@ - rhs.z@),
        ensures
            r.x@ == self.x@ - rhs.x@,
            r.y@ == self.y@ - rhs.y@,
            r.z@ == self.z@ - rhs.z@,
    {
        Vec3 { x: self.x.sub(rhs.x), y: self.y.sub(rhs.y), z: self.z.sub(rhs.z) }
    }

    /// Exact component-wise negation.
    pub fn neg(self) -> (r: Vec3)
        requires
            self.x@ != i64::MIN,
            self.y@ != i64::MIN,
            self.z@ != i64::MIN,
        ensures
            r.x@ == -self.x@,
            r.y@ == -self.y@,
            r.z@ == -self.z@,
    {
        Vec3 { x: self.x.neg(), y: self.y.neg(), z: self.z.neg() }
    }

    /// Scale by a fixed-point factor, each component rounded toward zero.
    pub fn mul(self, rhs: Fixed) -> (r: Vec3)
        requires
            fits_i64(fx_mul(self.x@, rhs@)),
            fits_i64(fx_mul(self.y@, rhs@)),
            fits_i64(fx_mul(self.z@, rhs@)),
        ensures
            r.x@ == fx_mul(self.x@, rhs@),
            r.y@ == fx_mul(self.y@, rhs@),
            r.z@ == fx_mul(self.z@, rhs@),
    {
        Vec3 { x: self.x.mul(rhs), y: self.y.mul(rhs), z: self.z.mul(rhs) }
    }

    /// Divide by a fixed-point factor, each component rounded toward zero.
    pub fn div(self, rhs: Fixed) -> (r: Vec3)
        requires
            rhs@ != 0,
            fits_i64(fx_div(self.x@, rhs@)),
            fits_i64(fx_div(self.y@, rhs@)),
            fits_i64(fx_div(self.z@, rhs@)),
        ensures
            r.x@ == fx_div(self.x@, rhs@),
            r.y@ == fx_div(self.y@, rhs@),
            r.z@ == fx_div(self.z@, rhs@),
    {
        Vec3 { x: self.x.div(rhs), y: self.y.div(rhs), z: self.z.div(rhs) }
    }

    /// Dot product: the three exact component products are summed, then the
    /// sum is rescaled with a single truncation.
    pub fn dot(self, rhs: Vec3) -> (r: Fixed)
        requires
            comps_bounded(self, 0x4000_0000_0000_0000),
            comps_bounded(rhs, 0x4000_0000_0000_0000),
            iabs(dot_num(self, rhs)) <= 0x3000_0000_0000_0000 * (SCALE as int),
        ensures
            r@ == dot_raw(self, rhs),
    {
        proof {
            lemma_tdiv_bound(dot_num(self, rhs), SCALE as int, 0x3000_0000_0000_0000);
        }
        let px: i128 = wide_mul(self.x.raw, rhs.x.raw);
        let py: i128 = wide_mul(self.y.raw, rhs.y.raw);
        let pz: i128 = wide_mul(self.z.raw, rhs.z.raw);
        proof {
            lemma_mul_bound(self.x@, rhs.x@, 0x4000_0000_0000_0000, 0x4000_0000_0000_0000);
            lemma_mul_bound(self.y@, rhs.y@, 0x4000_0000_0000_0000, 0x4000_0000_0000_0000);
            lemma_mul_bound(self.z@, rhs.z@, 0x4000_0000_0000_0000, 0x4000_0000_0000_0000);
            assert(0x4000_0000_0000_0000 * 0x4000_0000_0000_0000
                == 0x1000_0000_0000_0000_0000_0000_0000_0000) by (nonlinear_arith);
        }
        let total: i128 = px + py + pz;
        let q: i128 = tdiv_i128(total, SCALE as i128);
        Fixed { raw: q as i64 }
    }

    /// Squared length: the dot product of the vector with itself.
    pub fn length_squared(self) -> (r: Fixed)
        requires
            comps_bounded(self, DOT_LIMIT as int),
        ensures
            r@ == len_sq_raw(self),
            r@ >= 0,
    {
        proof {
            lemma_sum_sq_nonneg(self);
            lemma_tdiv_ordered(0, sum_sq(self), SCALE as int);
            lemma_dot_num_bound(self, self, DOT_LIMIT as int, DOT_LIMIT as int);
            assert(3 * 0x40_0000_0000 * 0x40_0000_0000 == 0x3000_0000_0000_0000 * 65536)
                by (nonlinear_arith);
        }
        self.dot(self)
    }

    /// Length: square root of the squared length, rounded down.
    pub fn length(self) -> (r: Fixed)
        requires
            comps_bounded(self, DOT_LIMIT as int),
        ensures
            r@ == len_raw(self),
            r@ >= 0,
    {
        self.length_squared().sqrt()
    }

    /// Normalize: divide each component by the vector's length.
    pub fn unit_vector(self) -> (r: Vec3)
        requires
            comps_bounded(self, DOT_LIMIT as int),
            sum_sq(self) >= SCALE,
        ensures
            r.x@ == fx_div(self.x@, len_raw(self)),
            r.y@ == fx_div(self.y@, len_raw(self)),
            r.z@ == fx_div(self.z@, len_raw(self)),
            len_raw(self) >= NEAR_ZERO,
    {
        let len: Fixed = self.length();
        proof {
            lemma_len_raw_lower(self);
            lemma_unit_div_fits(self.x@, len_raw(self));
            lemma_unit_div_fits(self.y@, len_raw(self));
            lemma_unit_div_fits(self.z@, len_raw(self));
        }
        self.div(len)
    }

    /// `true` when every component's magnitude is at most `limit`.
    pub fn within(&self, limit: i64) -> (r: bool)
        requires
            limit >= 0,
        ensures
            r == comps_bounded(*self, limit as int),
    {
        self.x.raw >= -limit && self.x.raw <= limit && self.y.raw >= -limit && self.y.raw
            <= limit && self.z.raw >= -limit && self.z.raw <= limit
    }

    /// `true` when every component is within the near-zero threshold.
    pub fn is_near_zero(&self) -> (r: bool)
        requires
            self.x@ != i64::MIN,
            self.y@ != i64::MIN,
            self.z@ != i64::MIN,
        ensures
            r == near_zero(*self),
    {
        let ax: i64 = if self.x.raw < 0 {
            -self.x.raw
        } else {
            self.x.raw
        };
        let ay: i64 = if self.y.raw < 0 {
            -self.y.raw
        } else {
            self.y.raw
        };
        let az: i64 = if self.z.raw < 0 {
            -self.z.raw
        } else {
            self.z.raw
        };
        ax < NEAR_ZERO && ay < NEAR_ZERO && az < NEAR_ZERO
    }

    /// A vector whose components are independent uniform draws in `[0, 1)`.
    pub fn random() -> (r: Vec3)
        ensures
            0 <= r.x@ < SCALE,
            0 <= r.y@ < SCALE,
            0 <= r.z@ < SCALE,
    {
        Vec3 { x: random_real(), y: random_real(), z: random_real() }
    }

    /// A vector whose components are independent uniform draws in
    /// `[min, max)`.
    pub fn random_range(min: Fixed, max: Fixed) -> (r: Vec3)
        requires
            min@ < max@,
            fits_i64(max@ - min@),
        ensures
            min@ <= r.x@ < max@,
            min@ <= r.y@ < max@,
            min@ <= r.z@ < max@,
    {
        Vec3 {
            x: random_real_range(min, max),
            y: random_real_range(min, max),
            z: random_real_range(min, max),
        }
    }

    /// A random direction of roughly unit length: rejection-sample a point
    /// of the unit ball away from the origin, then normalize it. After a
    /// bounded number of rejected draws the positive x axis is returned, so
    /// the function always terminates.
    pub fn random_unit_vector() -> (r: Vec3)
        ensures
            comps_bounded(r, 0x100_0000),
            near_unit(r),
            (r.x@ == SCALE && r.y@ == 0 && r.z@ == 0) || (exists|p: Vec3|
                #![auto]
                comps_bounded(p, SCALE as int) && 64 <= len_sq_raw(p) && len_sq_raw(p) <= SCALE
                    && r.x@ == fx_div(p.x@, len_raw(p)) && r.y@ == fx_div(p.y@, len_raw(p))
                    && r.z@ == fx_div(p.z@, len_raw(p))),
    {
        let mut attempts: u32 = 0;
        while attempts < 64
            invariant
                attempts <= 64,
            decreases 64 - attempts,
        {
            let neg_one: Fixed = Fixed { raw: -SCALE };
            let one: Fixed = Fixed { raw: SCALE };
            let p: Vec3 = Vec3::random_range(neg_one, one);
            let lensq: Fixed = p.length_squared();
            if 64 <= lensq.raw && lensq.raw <= SCALE {
                proof {
                    lemma_sum_sq_nonneg(p);
                    lemma_tdiv_mul_le(sum_sq(p), SCALE as int);
                }
                let u: Vec3 = p.unit_vector();
                proof {
                    lemma_unit_comp_small(p.x@, len_raw(p));
                    lemma_unit_comp_small(p.y@, len_raw(p));
                    lemma_unit_comp_small(p.z@, len_raw(p));
                    lemma_unit_vector_near_unit(p);
                    assert(sum_sq(u) == unit_sum_sq(p));
                    assert(comps_bounded(p, SCALE as int) && 64 <= len_sq_raw(p) && len_sq_raw(
                        p) <= SCALE && u.x@ == fx_div(p.x@, len_raw(p)) && u.y@ == fx_div(
                        p.y@,
                        len_raw(p),
                    ) && u.z@ == fx_div(p.z@, len_raw(p)));
                }
                return u;
            }
            attempts = attempts + 1;
        }
        Vec3 { x: Fixed { raw: SCALE }, y: Fixed { raw: 0 }, z: Fixed { raw: 0 } }
    }

    /// A random roughly-unit direction on the hemisphere around `normal`:
    /// a drawn unit sample or its negation, whichever does not point away
    /// from `normal`, so its dot product with `normal` is never negative.
    pub fn random_on_hemisphere(normal: Vec3) -> (r: Vec3)
        requires
            comps_bounded(normal, DOT_LIMIT as int),
        ensures
            comps_bounded(r, 0x100_0000),
            near_unit(r),
            dot_raw(r, normal) >= 0,
            exists|u: Vec3|
                #![auto]
                comps_bounded(u, 0x100_0000) && near_unit(u) && (r == u || (r.x@ == -u.x@
                    && r.y@ == -u.y@ && r.z@ == -u.z@)),
    {
        let u: Vec3 = Vec3::random_unit_vector();
        proof {
            lemma_dot_num_bound(u, normal, 0x100_0000, DOT_LIMIT as int);
            assert(3 * 0x100_0000 * 0x40_0000_0000 <= 0x3000_0000_0000_0000 * 65536)
                by (nonlinear_arith);
        }
        let d: Fixed = u.dot(normal);
        if d.raw > 0 {
            proof {
                assert(comps_bounded(u, 0x100_0000) && near_unit(u) && u == u);
            }
            u
        } else {
            let flipped: Vec3 = u.neg();
            proof {
                lemma_dot_raw_neg(u, flipped, normal);
                assert(flipped.x@ * flipped.x@ == u.x@ * u.x@) by (nonlinear_arith)
                    requires
                        flipped.x@ == -u.x@,
                ;
                assert(flipped.y@ * flipped.y@ == u.y@ * u.y@) by (nonlinear_arith)
                    requires
                        flipped.y@ == -u.y@,
                ;
                assert(flipped.z@ * flipped.z@ == u.z@ * u.z@) by (nonlinear_arith)
                    requires
                        flipped.z@ == -u.z@,
                ;
                assert(comps_bounded(u, 0x100_0000) && near_unit(u) && flipped.x@ == -u.x@
                    && flipped.y@ == -u.y@ && flipped.z@ == -u.z@);
            }
            flipped
        }
    }

    /// Cross product, each component product rounded toward zero.
    pub fn cross(self, rhs: Vec3) -> (r: Vec3)
        requires
            fits_i64(fx_mul(self.y@, rhs.z@)),
            fits_i64(fx_mul(self.z@, rhs.y@)),
            fits_i64(fx_mul(self.z@, rhs.x@)),
            fits_i64(fx_mul(self.x@, rhs.z@)),
            fits_i64(fx_mul(self.x@, rhs.y@)),
            fits_i64(fx_mul(self.y@, rhs.x@)),
            fits_i64(fx_mul(self.y@, rhs.z@) - fx_mul(self.z@, rhs.y@)),
            fits_i64(fx_mul(self.z@, rhs.x@) - fx_mul(self.x@, rhs.z@)),
            fits_i64(fx_mul(self.x@, rhs.y@) - fx_mul(self.y@, rhs.x@)),
        ensures
            r.x@ == fx_mul(self.y@, rhs.z@) - fx_mul(self.z@, rhs.y@),
            r.y@ == fx_mul(self.z@, rhs.x@) - fx_mul(self.x@, rhs.z@),
            r.z@ == fx_mul(self.x@, rhs.y@) - fx_mul(self.y@, rhs.x@),
    {
        Vec3 {
            x: self.y.mul(rhs.z).sub(self.z.mul(rhs.y)),
            y: self.z.mul(rhs.x).sub(self.x.mul(rhs.z)),
            z: self.x.mul(rhs.y).sub(self.y.mul(rhs.x)),
        }
    }
}

/// A vector whose squared-component sum reaches one raw unit of squared
/// length has a length of at least the near-zero threshold.
pub proof fn lemma_len_raw_lower(v: Vec3)
    requires
        sum_sq(v) >= SCALE,
        comps_bounded(v, DOT_LIMIT as int),
    ensures
        len_raw(v) >= NEAR_ZERO,
{
    lemma_tdiv_ordered(SCALE as int, sum_sq(v), SCALE as int);
    assert((SCALE as int) / (SCALE as int) == 1) by (nonlinear_arith)
        requires
            SCALE == 65536,
    ;
    let m = len_sq_raw(v);
    assert(m >= 1);
    let n = (m * SCALE) as nat;
    lemma_isqrt_bounds(n);
    if isqrt_spec(n) < NEAR_ZERO {
        assert(false) by (nonlinear_arith)
            requires
                n >= SCALE,
                SCALE == 65536,
                NEAR_ZERO == 256,
                n < (isqrt_spec(n) + 1) * (isqrt_spec(n) + 1),
                isqrt_spec(n) < NEAR_ZERO,
        ;
    }
}

/// The squared-component sum of the normalized image of `v`.
pub open spec fn unit_sum_sq(v: Vec3) -> int {
    let l = len_raw(v);
    let qx = fx_div(v.x@, l);
    let qy = fx_div(v.y@, l);
    let qz = fx_div(v.z@, l);
    qx * qx + qy * qy + qz * qz
}

/// Normalizing any vector of length at least one produces a vector of
/// length one, up to the truncation of the square root and the three
/// component divisions: the squared length lands within a few thousandths
/// of one (`SCALE * SCALE` in raw-squared units).
pub proof fn lemma_unit_vector_near_unit(v: Vec3)
    requires
        comps_bounded(v, DOT_LIMIT as int),
        sum_sq(v) >= 64 * SCALE,
    ensures
        (SCALE as int) * SCALE - 6 * SCALE <= unit_sum_sq(v),
        unit_sum_sq(v) <= (SCALE as int) * SCALE + 1300 * SCALE,
        sum_sq(v) >= SCALE * SCALE ==> unit_sum_sq(v) <= (SCALE as int) * SCALE + 8 * SCALE,
{
    let vv = sum_sq(v);
    let ls = len_sq_raw(v);
    let l = len_raw(v);
    let m = isqrt_spec(vv as nat) as int;
    let qx = fx_div(v.x@, l);
    let qy = fx_div(v.y@, l);
    let qz = fx_div(v.z@, l);
    let uu = unit_sum_sq(v);
    let ax = iabs(v.x@);
    let ay = iabs(v.y@);
    let az = iabs(v.z@);
    lemma_sum_sq_nonneg(v);
    lemma_tdiv_mul_le(vv, SCALE as int);
    lemma_tdiv_ordered(0, vv, SCALE as int);
    lemma_isqrt_bounds((ls * SCALE) as nat);
    lemma_isqrt_bounds(vv as nat);
    // The root of the squared length lies between 1 and the root of the
    // exact component-square sum.
    assert(l * l <= ls * SCALE) by (nonlinear_arith)
        requires
            l == isqrt_spec((ls * SCALE) as nat),
            l * l <= (ls * SCALE) as nat,
            ls >= 0,
    ;
    assert(ls * SCALE <= vv) by {
        assert(tdiv(vv, SCALE as int) * SCALE == SCALE * tdiv(vv, SCALE as int))
            by (nonlinear_arith);
    };
    assert(l <= m && l >= 2031) by (nonlinear_arith)
        requires
            l >= 0,
            m >= 0,
            l * l <= vv,
            vv < (m + 1) * (m + 1),
            vv >= 64 * 65536,
            (l + 1) * (l + 1) > ls * SCALE,
            ls * SCALE > vv - 65536,
    ;
    // Each component is bounded by the root of the exact sum.
    lemma_square_nonneg(v.x@);
    lemma_square_nonneg(v.y@);
    lemma_square_nonneg(v.z@);
    assert(ax <= m && ay <= m && az <= m) by (nonlinear_arith)
        requires
            ax >= 0 && ay >= 0 && az >= 0,
            m >= 0,
            (ax == v.x@ || ax == -v.x@) && (ay == v.y@ || ay == -v.y@) && (az == v.z@ || az
                == -v.z@),
            v.x@ * v.x@ <= vv && v.y@ * v.y@ <= vv && v.z@ * v.z@ <= vv,
            vv < (m + 1) * (m + 1),
    ;
    // Per-component truncation bounds for the three divisions.
    lemma_trunc_div_sq_bounds(v.x@, l);
    lemma_trunc_div_sq_bounds(v.y@, l);
    lemma_trunc_div_sq_bounds(v.z@, l);
    // Assemble the summed bounds over named squares.
    assert((qx * l) * (qx * l) == (qx * qx) * (l * l)) by (nonlinear_arith);
    assert((qy * l) * (qy * l) == (qy * qy) * (l * l)) by (nonlinear_arith);
    assert((qz * l) * (qz * l) == (qz * qz) * (l * l)) by (nonlinear_arith);
    assert(uu * (l * l) == (qx * qx) * (l * l) + (qy * qy) * (l * l) + (qz * qz) * (l * l))
        by (nonlinear_arith)
        requires
            uu == qx * qx + qy * qy + qz * qz,
    ;
    assert((v.x@ * SCALE) * (v.x@ * SCALE) == (v.x@ * v.x@) * (65536 * 65536))
        by (nonlinear_arith);
    assert((v.y@ * SCALE) * (v.y@ * SCALE) == (v.y@ * v.y@) * (65536 * 65536))
        by (nonlinear_arith);
    assert((v.z@ * SCALE) * (v.z@ * SCALE) == (v.z@ * v.z@) * (65536 * 65536))
        by (nonlinear_arith);
    assert(iabs(v.x@ * SCALE) == ax * SCALE && iabs(v.y@ * SCALE) == ay * SCALE && iabs(
        v.z@ * SCALE) == az * SCALE);
    assert(vv * (65536 * 65536) == (v.x@ * v.x@) * (65536 * 65536) + (v.y@ * v.y@) * (65536
        * 65536) + (v.z@ * v.z@) * (65536 * 65536)) by (nonlinear_arith)
        requires
            vv == v.x@ * v.x@ + v.y@ * v.y@ + v.z@ * v.z@,
    ;
    let t = ax + ay + az;
    assert(uu * (l * l) <= vv * (65536 * 65536));
    assert(uu * (l * l) >= vv * (65536 * 65536) - 2 * (ax * SCALE) * l - 2 * (ay * SCALE) * l
        - 2 * (az * SCALE) * l);
    assert(2 * (ax * SCALE) * l + 2 * (ay * SCALE) * l + 2 * (az * SCALE) * l == 2 * 65536 * l
        * t) by (nonlinear_arith)
        requires
            t == ax + ay + az,
    ;
    // Lower bound: the total truncation deficit is at most six units of
    // scale.
    assert(2 * 65536 * l * t <= 6 * 65536 * (m * m)) by (nonlinear_arith)
        requires
            t <= 3 * m,
            0 <= l <= m,
            t >= 0,
            m >= 0,
    ;
    assert(vv * (65536 * 65536) - 6 * 65536 * vv == vv * (65536 * 65536 - 6 * 65536))
        by (nonlinear_arith);
    assert(uu * (l * l) >= (l * l) * (65536 * 65536 - 6 * 65536)) by {
        assert(m * m <= vv);
        assert(6 * 65536 * (m * m) <= 6 * 65536 * vv);
        assert(vv * (65536 * 65536 - 6 * 65536) >= (l * l) * (65536 * 65536 - 6 * 65536));
    };
    assert(l * l >= 1) by (nonlinear_arith)
        requires
            l >= 1,
    ;
    assert(uu >= 65536 * 65536 - 6 * 65536) by (nonlinear_arith)
        requires
            uu * (l * l) >= (l * l) * (65536 * 65536 - 6 * 65536),
            l * l >= 1,
    ;
    // General upper bound: the root's truncation inflates the quotient,
    // but never past thirteen hundred units of scale, as long as the input
    // clears the sampler's acceptance floor.
    assert(vv < (l + 1) * (l + 1) + 65536);
    if uu > 65536 * 65536 + 1300 * 65536 {
        assert(4380164097 * (l * l) <= uu * (l * l)) by (nonlinear_arith)
            requires
                uu >= 4380164097,
                l * l >= 0,
        ;
        assert(vv * 4294967296 < ((l + 1) * (l + 1) + 65536) * 4294967296);
        assert((l + 1) * (l + 1) == l * l + 2 * l + 1) by (nonlinear_arith);
        assert(85196801 * (l * l) < (2 * l + 1 + 65536) * 4294967296);
        assert(false) by (nonlinear_arith)
            requires
                85196801 * (l * l) < (2 * l + 1 + 65536) * 4294967296,
                l >= 2031,
        ;
    }
    // Tight upper bound, for inputs of at least one whole unit of length:
    // within eight units of scale.
    if vv >= 65536 * 65536 {
        assert(m >= SCALE) by (nonlinear_arith)
            requires
                vv < (m + 1) * (m + 1),
                vv >= 65536 * 65536,
                m >= 0,
        ;
        assert(l * l > vv - 4 * m) by (nonlinear_arith)
            requires
                (l + 1) * (l + 1) > vv - 65536,
                l <= m,
                m >= 65536,
                l >= 1,
        ;
        if uu > 65536 * 65536 + 8 * 65536 {
            assert(4295491585 * (l * l) <= uu * (l * l)) by (nonlinear_arith)
                requires
                    uu >= 4295491585,
                    l * l >= 0,
            ;
            assert(4295491585 * (l * l) >= 4295491585 * (vv - 4 * m + 1));
            assert(524289 * vv <= 17181966340 * m - 4295491585);
            assert(524289 * (m * m) <= 524289 * vv);
            assert(524289 * m <= 17181966340) by (nonlinear_arith)
                requires
                    524289 * (m * m) <= 17181966340 * m,
                    m >= 1,
            ;
            assert(false);
        }
    }
}

/// Bounds on the square of a truncated quotient, multiplied back by the
/// divisor: it undershoots the exact square by at most twice the dividend
/// times the divisor.
proof fn lemma_trunc_div_sq_bounds(x: int, l: int)
    requires
        l >= 1,
    ensures
        (fx_div(x, l) * l) * (fx_div(x, l) * l) <= (x * SCALE) * (x * SCALE),
        (fx_div(x, l) * l) * (fx_div(x, l) * l) >= (x * SCALE) * (x * SCALE) - 2 * iabs(
            x * SCALE,
        ) * l,
{
    let a = x * SCALE;
    let ma = iabs(a);
    let q = tdiv(a, l);
    let qm = ma / l;
    lemma_tdiv_mul_le(ma, l);
    vstd::arithmetic::div_mod::lemma_div_pos_is_pos(ma, l);
    assert(tdiv(ma, l) == qm);
    assert((q * l) * (q * l) == (qm * l) * (qm * l)) by (nonlinear_arith)
        requires
            q == qm || q == -qm,
    ;
    assert(qm * l >= 0) by (nonlinear_arith)
        requires
            qm >= 0,
            l >= 1,
    ;
    assert((qm * l) * (qm * l) <= ma * ma) by (nonlinear_arith)
        requires
            0 <= qm * l <= ma,
    ;
    assert((qm * l) * (qm * l) >= ma * ma - 2 * ma * l) by (nonlinear_arith)
        requires
            ma - l < qm * l,
            qm * l >= 0,
            ma >= 0,
            l >= 1,
    ;
    assert(ma * ma == a * a) by (nonlinear_arith)
        requires
            ma == a || ma == -a,
    ;
}

/// A component of at most one unit, divided by a length of at least the
/// near-zero threshold, is small.
proof fn lemma_unit_comp_small(x: int, len: int)
    requires
        iabs(x) <= SCALE,
        len >= NEAR_ZERO,
    ensures
        iabs(fx_div(x, len)) <= 0x100_0000,
{
    lemma_mul_bound(x, SCALE as int, SCALE as int, SCALE as int);
    assert(65536 * 65536 == 0x100_0000 * 256) by (nonlinear_arith);
    assert(0x100_0000 * 256 <= 0x100_0000 * len) by (nonlinear_arith)
        requires
            len >= 256,
    ;
    lemma_tdiv_bound(x * SCALE, len, 0x100_0000);
}

/// Negating one argument of the dot product negates its value.
proof fn lemma_dot_raw_neg(u: Vec3, flipped: Vec3, normal: Vec3)
    requires
        flipped.x@ == -u.x@,
        flipped.y@ == -u.y@,
        flipped.z@ == -u.z@,
    ensures
        dot_raw(flipped, normal) == -dot_raw(u, normal),
{
    assert((-u.x@) * normal.x@ == -(u.x@ * normal.x@)) by (nonlinear_arith);
    assert((-u.y@) * normal.y@ == -(u.y@ * normal.y@)) by (nonlinear_arith);
    assert((-u.z@) * normal.z@ == -(u.z@ * normal.z@)) by (nonlinear_arith);
}

/// Dividing a bounded component by a positive length keeps the quotient
/// within `i64`.
proof fn lemma_unit_div_fits(x: int, len: int)
    requires
        iabs(x) <= DOT_LIMIT as int,
        len >= 1,
    ensures
        fits_i64(fx_div(x, len)),
{
    lemma_mul_bound(x, SCALE as int, DOT_LIMIT as int, SCALE as int);
    let c = (DOT_LIMIT as int) * (SCALE as int);
    assert(0x40_0000_0000 * 65536 == 0x40_0000_0000_0000) by (nonlinear_arith);
    assert(c <= c * len) by (nonlinear_arith)
        requires
            c >= 0,
            len >= 1,
    ;
    lemma_tdiv_bound(x * SCALE, len, c);
}

/// Specular reflection of `vector` about `normal`:
/// `vector - normal * 2 * (vector . normal)`.
pub fn reflect(vector: Vec3, normal: Vec3) -> (r: Vec3)
    requires
        comps_bounded(vector, REFLECT_LIMIT as int),
        comps_bounded(normal, REFLECT_LIMIT as int),
    ensures
        r.x@ == vector.x@ - fx_mul(fx_mul(normal.x@, 2 * SCALE), dot_raw(vector, normal)),
        r.y@ == vector.y@ - fx_mul(fx_mul(normal.y@, 2 * SCALE), dot_raw(vector, normal)),
        r.z@ == vector.z@ - fx_mul(fx_mul(normal.z@, 2 * SCALE), dot_raw(vector, normal)),
{
    proof {
        lemma_reflect_fits(vector, normal);
    }
    let two: Fixed = Fixed { raw: 2 * SCALE };
    let d: Fixed = vector.dot(normal);
    vector.sub(normal.mul(two).mul(d))
}

/// All intermediate values of `reflect` stay within `i64`.
proof fn lemma_reflect_fits(vector: Vec3, normal: Vec3)
    requires
        comps_bounded(vector, REFLECT_LIMIT as int),
        comps_bounded(normal, REFLECT_LIMIT as int),
    ensures
        comps_bounded(vector, DOT_LIMIT as int),
        comps_bounded(normal, DOT_LIMIT as int),
        iabs(dot_raw(vector, normal)) <= 0x3000_0000_0000,
        fits_i64(fx_mul(normal.x@, 2 * SCALE)),
        fits_i64(fx_mul(normal.y@, 2 * SCALE)),
        fits_i64(fx_mul(normal.z@, 2 * SCALE)),
        fx_mul(normal.x@, 2 * SCALE) == 2 * normal.x@,
        fx_mul(normal.y@, 2 * SCALE) == 2 * normal.y@,
        fx_mul(normal.z@, 2 * SCALE) == 2 * normal.z@,
        fits_i64(fx_mul(2 * normal.x@, dot_raw(vector, normal))),
        fits_i64(fx_mul(2 * normal.y@, dot_raw(vector, normal))),
        fits_i64(fx_mul(2 * normal.z@, dot_raw(vector, normal))),
        fits_i64(vector.x@ - fx_mul(2 * normal.x@, dot_raw(vector, normal))),
        fits_i64(vector.y@ - fx_mul(2 * normal.y@, dot_raw(vector, normal))),
        fits_i64(vector.z@ - fx_mul(2 * normal.z@, dot_raw(vector, normal))),
{
    lemma_dot_num_bound(vector, normal, REFLECT_LIMIT as int, REFLECT_LIMIT as int);
    assert(3 * 0x4000_0000 * 0x4000_0000 == 0x3000_0000_0000 * 65536) by (nonlinear_arith);
    lemma_tdiv_bound(dot_num(vector, normal), SCALE as int, 0x3000_0000_0000);
    let d = dot_raw(vector, normal);
    lemma_double(normal.x@);
    lemma_double(normal.y@);
    lemma_double(normal.z@);
    lemma_scaled_product_fits(normal.x@, d);
    lemma_scaled_product_fits(normal.y@, d);
    lemma_scaled_product_fits(normal.z@, d);
}

/// Multiplying by the fixed-point constant two doubles the raw value
/// exactly.
proof fn lemma_double(a: int)
    requires
        iabs(a) <= REFLECT_LIMIT as int,
    ensures
        fx_mul(a, 2 * SCALE) == 2 * a,
        fits_i64(2 * a),
{
    assert(a * (2 * SCALE) == (2 * a) * SCALE) by (nonlinear_arith);
    lemma_tdiv_exact(2 * a, SCALE as int);
}

/// The doubled-normal-times-dot product stays within `i64`.
proof fn lemma_scaled_product_fits(n: int, d: int)
    requires
        iabs(n) <= REFLECT_LIMIT as int,
        iabs(d) <= 0x3000_0000_0000,
    ensures
        fits_i64(fx_mul(2 * n, d)),
        iabs(fx_mul(2 * n, d)) <= 0x1800_0000_0000_0000,
{
    lemma_mul_bound(2 * n, d, 0x8000_0000, 0x3000_0000_0000);
    assert(0x8000_0000 * 0x3000_0000_0000 == 0x1800_0000_0000_0000 * 65536) by (nonlinear_arith);
    lemma_tdiv_bound(2 * n * d, SCALE as int, 0x1800_0000_0000_0000);
}

} // verus!
