//! Fixed-point scalar arithmetic.
//!
//! A [`Fixed`] value stores a real quantity as `raw / SCALE` with `raw: i64`
//! and 16 fractional bits. Multiplication, division and square root round
//! toward zero; the spec functions below state the result of every operation
//! exactly, so all higher layers of the engine reason about precise integers.

use vstd::prelude::*;
use vstd::arithmetic::div_mod::{
    lemma_div_is_ordered, lemma_div_nonincreasing, lemma_div_pos_is_pos,
    lemma_multiply_divide_le,
};

verus! {

/// Number of raw units per whole unit: 2^16.
pub const SCALE: i64 = 65536;

/// Magnitude of an integer.
pub open spec fn iabs(a: int) -> int {
    if a >= 0 {
        a
    } else {
        -a
    }
}

/// `true` when `x` is representable as an `i64`.
pub open spec fn fits_i64(x: int) -> bool {
    i64::MIN <= x <= i64::MAX
}

/// Quotient of `a` by `b`, rounded toward zero (the rounding used by all
/// fixed-point operations here). Meaningful only for `b != 0`.
pub open spec fn tdiv(a: int, b: int) -> int
    recommends
        b != 0,
{
    if (a >= 0) == (b >= 0) {
        iabs(a) / iabs(b)
    } else {
        -(iabs(a) / iabs(b))
    }
}

/// Raw value of the fixed-point product of raw values `a` and `b`.
pub open spec fn fx_mul(a: int, b: int) -> int {
    tdiv(a * b, SCALE as int)
}

/// Raw value of the fixed-point quotient of raw values `a` and `b`.
pub open spec fn fx_div(a: int, b: int) -> int
    recommends
        b != 0,
{
    tdiv(a * SCALE, b)
}

/// Integer square root: the greatest `r` with `r * r <= n`.
pub open spec fn isqrt_spec(n: nat) -> nat
    decreases n,
{
    if n == 0 {
        0
    } else {
        let r = isqrt_spec((n - 1) as nat);
        if (r + 1) * (r + 1) <= n {
            r + 1
        } else {
            r
        }
    }
}

/// Raw value of the fixed-point square root of the nonnegative raw value `a`.
pub open spec fn fx_sqrt(a: int) -> int
    recommends
        a >= 0,
{
    isqrt_spec((a * SCALE) as nat) as int
}

/// The integer square root lies between the two adjacent perfect squares.
pub proof fn lemma_isqrt_bounds(n: nat)
    ensures
        isqrt_spec(n) * isqrt_spec(n) <= n,
        n < (isqrt_spec(n) + 1) * (isqrt_spec(n) + 1),
    decreases n,
{
    if n == 0 {
        assert(isqrt_spec(n) == 0);
        assert((isqrt_spec(n) + 1) * (isqrt_spec(n) + 1) == 1) by (nonlinear_arith)
            requires
                isqrt_spec(n) == 0,
        ;
    } else {
        lemma_isqrt_bounds((n - 1) as nat);
        let r = isqrt_spec((n - 1) as nat);
        assert(r * r <= n - 1);
        assert(n - 1 < (r + 1) * (r + 1));
        if (r + 1) * (r + 1) <= n {
            assert(isqrt_spec(n) == r + 1);
            assert(n < (r + 2) * (r + 2)) by (nonlinear_arith)
                requires
                    n <= (r + 1) * (r + 1),
                    r >= 0,
            ;
            assert(isqrt_spec(n) * isqrt_spec(n) <= n);
            assert(n < (isqrt_spec(n) + 1) * (isqrt_spec(n) + 1));
        } else {
            assert(isqrt_spec(n) == r);
            assert(isqrt_spec(n) * isqrt_spec(n) <= n);
            assert(n < (isqrt_spec(n) + 1) * (isqrt_spec(n) + 1));
        }
    }
}

/// Any `r` squeezed between the same adjacent squares is the integer square
/// root.
pub proof fn lemma_isqrt_unique(n: nat, r: nat)
    requires
        r * r <= n,
        n < (r + 1) * (r + 1),
    ensures
        r == isqrt_spec(n),
{
    let s = isqrt_spec(n);
    lemma_isqrt_bounds(n);
    if r < s {
        assert((r + 1) * (r + 1) <= s * s) by (nonlinear_arith)
            requires
                r + 1 <= s,
                r >= 0,
        ;
    }
    if s < r {
        assert((s + 1) * (s + 1) <= r * r) by (nonlinear_arith)
            requires
                s + 1 <= r,
                s >= 0,
        ;
    }
}

/// Truncating division is monotone in the dividend, for a positive divisor.
pub proof fn lemma_tdiv_ordered(a1: int, a2: int, b: int)
    requires
        b > 0,
        a1 <= a2,
    ensures
        tdiv(a1, b) <= tdiv(a2, b),
{
    if a1 >= 0 {
        lemma_div_is_ordered(a1, a2, b);
    } else if a2 < 0 {
        lemma_div_is_ordered(-a2, -a1, b);
    } else {
        lemma_div_pos_is_pos(-a1, b);
        lemma_div_pos_is_pos(a2, b);
    }
}

/// A bound on the dividend gives the matching bound on a truncating quotient.
pub proof fn lemma_tdiv_bound(a: int, b: int, c: int)
    requires
        b > 0,
        c >= 0,
        iabs(a) <= c * b,
    ensures
        iabs(tdiv(a, b)) <= c,
        iabs(tdiv(a, b)) <= iabs(a),
{
    vstd::arithmetic::mul::lemma_mul_is_commutative(b, c);
    lemma_multiply_divide_le(iabs(a), b, c);
    lemma_div_nonincreasing(iabs(a), b);
    lemma_div_pos_is_pos(iabs(a), b);
}

/// Dividing and multiplying back never grows past the dividend.
pub proof fn lemma_tdiv_mul_le(a: int, b: int)
    requires
        b > 0,
        a >= 0,
    ensures
        tdiv(a, b) * b <= a,
        a < (tdiv(a, b) + 1) * b,
        a - b < tdiv(a, b) * b,
{
    let q = tdiv(a, b);
    vstd::arithmetic::div_mod::lemma_fundamental_div_mod(a, b);
    vstd::arithmetic::div_mod::lemma_mod_division_less_than_divisor(a, b);
    assert(q * b == b * q) by (nonlinear_arith);
    assert((q + 1) * b == q * b + b) by (nonlinear_arith);
}

/// Squares are never negative.
pub proof fn lemma_square_nonneg(x: int)
    ensures
        x * x >= 0,
{
    assert(x * x >= 0) by (nonlinear_arith);
}

/// A magnitude bound on `x` gives the matching bound on its square.
pub proof fn lemma_square_lower(x: int, b: int)
    requires
        b >= 0,
        x >= b || x <= -b,
    ensures
        x * x >= b * b,
{
    assert(x * x >= b * b) by (nonlinear_arith)
        requires
            b >= 0,
            x >= b || x <= -b,
    ;
}

/// Magnitude bounds on the factors bound the product on both sides.
pub proof fn lemma_mul_bound(x: int, y: int, m: int, n: int)
    requires
        m >= 0,
        n >= 0,
        -m <= x <= m,
        -n <= y <= n,
    ensures
        -(m * n) <= x * y <= m * n,
{
    assert(-(m * n) <= x * y <= m * n) by (nonlinear_arith)
        requires
            m >= 0,
            n >= 0,
            -m <= x <= m,
            -n <= y <= n,
    ;
}

/// Truncating division is exact on multiples of the divisor.
pub proof fn lemma_tdiv_exact(k: int, b: int)
    requires
        b > 0,
    ensures
        tdiv(k * b, b) == k,
{
    if k >= 0 {
        vstd::arithmetic::mul::lemma_mul_is_commutative(k, b);
        vstd::arithmetic::div_mod::lemma_div_multiples_vanish(k, b);
    } else {
        assert((-k) * b == -(k * b)) by (nonlinear_arith);
        assert(k * b < 0) by (nonlinear_arith)
            requires
                k < 0,
                b > 0,
        ;
        vstd::arithmetic::mul::lemma_mul_is_commutative(-k, b);
        vstd::arithmetic::div_mod::lemma_div_multiples_vanish(-k, b);
    }
}

/// Magnitude bounds on the factors bound a fixed-point product.
pub proof fn lemma_fx_mul_bounded(a: int, b: int, m: int, n: int, c: int)
    requires
        m >= 0,
        n >= 0,
        c >= 0,
        iabs(a) <= m,
        iabs(b) <= n,
        m * n <= c * (SCALE as int),
    ensures
        iabs(fx_mul(a, b)) <= c,
{
    lemma_mul_bound(a, b, m, n);
    lemma_tdiv_bound(a * b, SCALE as int, c);
}

/// A magnitude bound on the dividend bounds a fixed-point quotient by a
/// divisor of at least one raw unit.
pub proof fn lemma_fx_div_bounded(a: int, b: int, c: int)
    requires
        b >= 1,
        c >= 0,
        iabs(a) <= c,
    ensures
        iabs(fx_div(a, b)) <= c * (SCALE as int),
{
    lemma_mul_bound(a, SCALE as int, c, SCALE as int);
    assert(c * 65536 <= (c * 65536) * b) by (nonlinear_arith)
        requires
            c >= 0,
            b >= 1,
    ;
    lemma_tdiv_bound(a * SCALE, b, c * (SCALE as int));
}

/// Attenuating a nonnegative value by a factor in `[0, 1]` keeps it
/// nonnegative and never grows it.
pub proof fn lemma_fx_mul_unit(a: int, b: int)
    requires
        0 <= a <= SCALE,
        0 <= b,
    ensures
        0 <= fx_mul(a, b) <= b,
{
    assert(a * b >= 0 && a * b <= b * 65536) by (nonlinear_arith)
        requires
            0 <= a <= 65536,
            b >= 0,
    ;
    lemma_tdiv_ordered(0, a * b, SCALE as int);
    lemma_tdiv_ordered(a * b, b * SCALE, SCALE as int);
    lemma_tdiv_exact(b, SCALE as int);
}

/// A fixed-point number: the real value `raw / SCALE`.
#[derive(Clone, Copy, Debug, PartialEq, Eq, Structural)]
pub struct Fixed {
    pub raw: i64,
}

impl View for Fixed {
    type V = int;

    open spec fn view(&self) -> int {
        self.raw as int
    }
}

/// Product of two `i64` values, widened so it cannot overflow.
pub fn wide_mul(a: i64, b: i64) -> (r: i128)
    ensures
        r == (a as int) * (b as int),
        i128::MIN < r < i128::MAX,
{
    proof {
        assert(i128::MIN < (a as int) * (b as int) < i128::MAX) by (nonlinear_arith)
            requires
                i64::MIN <= a <= i64::MAX,
                i64::MIN <= b <= i64::MAX,
        ;
    }
    (a as i128) * (b as i128)
}

/// Truncating division on `i128`, computed through unsigned magnitudes.
pub fn tdiv_i128(a: i128, b: i128) -> (r: i128)
    requires
        b != 0,
        a != i128::MIN,
        b != i128::MIN,
    ensures
        r == tdiv(a as int, b as int),
{
    let negative: bool = (a < 0) != (b < 0);
    let ua: u128 = if a < 0 {
        (-a) as u128
    } else {
        a as u128
    };
    let ub: u128 = if b < 0 {
        (-b) as u128
    } else {
        b as u128
    };
    let q: u128 = ua / ub;
    proof {
        lemma_div_nonincreasing(ua as int, ub as int);
        lemma_div_pos_is_pos(ua as int, ub as int);
    }
    if negative {
        -(q as i128)
    } else {
        q as i128
    }
}

/// Integer square root of a `u128`, by binary search on the result.
pub fn isqrt_u128(n: u128) -> (r: u64)
    ensures
        r == isqrt_spec(n as nat),
        r * r <= n,
        n < (r + 1) * (r + 1),
{
    let mut lo: u128 = 0;
    let mut hi: u128 = 0x1_0000_0000_0000_0000;
    proof {
        assert((hi as int) * (hi as int) > n) by (nonlinear_arith)
            requires
                hi == 0x1_0000_0000_0000_0000,
                n <= u128::MAX,
        ;
    }
    while lo + 1 < hi
        invariant
            lo < hi,
            hi <= 0x1_0000_0000_0000_0000,
            (lo as int) * (lo as int) <= n,
            (hi as int) * (hi as int) > n,
        decreases hi - lo,
    {
        let mid: u128 = lo + (hi - lo) / 2;
        proof {
            assert((mid as int) * (mid as int) < 0x1_0000_0000_0000_0000_0000_0000_0000_0000)
                by (nonlinear_arith)
                requires
                    mid < 0x1_0000_0000_0000_0000,
            ;
        }
        if mid * mid <= n {
            lo = mid;
        } else {
            hi = mid;
        }
    }
    proof {
        lemma_isqrt_unique(n as nat, lo as nat);
    }
    lo as u64
}

impl Fixed {
    /// The value zero.
    pub fn zero() -> (r: Fixed)
        ensures
            r@ == 0,
    {
        Fixed { raw: 0 }
    }

    /// The value one.
    pub fn one() -> (r: Fixed)
        ensures
            r@ == SCALE,
    {
        Fixed { raw: SCALE }
    }

    /// Build a value directly from its raw representation.
    pub fn from_raw(raw: i64) -> (r: Fixed)
        ensures
            r@ == raw,
    {
        Fixed { raw }
    }

    /// The fixed-point image of the integer `n`.
    pub fn from_int(n: i64) -> (r: Fixed)
        requires
            fits_i64(n * SCALE),
        ensures
            r@ == n * SCALE,
    {
        let wide: i128 = (n as i128) * (SCALE as i128);
        Fixed { raw: wide as i64 }
    }

    /// The fixed-point image of the fraction `num / den`, rounded toward
    /// zero.
    pub fn from_ratio(num: i64, den: i64) -> (r: Fixed)
        requires
            den != 0,
            fits_i64(fx_div(num as int, den as int)),
        ensures
            r@ == fx_div(num as int, den as int),
    {
        let wide: i128 = (num as i128) * (SCALE as i128);
        let q: i128 = tdiv_i128(wide, den as i128);
        Fixed { raw: q as i64 }
    }

    /// Exact sum.
    pub fn add(self, rhs: Fixed) -> (r: Fixed)
        requires
            fits_i64(self@ + rhs@),
        ensures
            r@ == self@ + rhs@,
    {
        Fixed { raw: self.raw + rhs.raw }
    }

    /// Exact difference.
    pub fn sub(self, rhs: Fixed) -> (r: Fixed)
        requires
            fits_i64(self@ - rhs@),
        ensures
            r@ == self@ - rhs@,
    {
        Fixed { raw: self.raw - rhs.raw }
    }

    /// Exact negation.
    pub fn neg(self) -> (r: Fixed)
        requires
            self@ != i64::MIN,
        ensures
            r@ == -self@,
    {
        Fixed { raw: -self.raw }
    }

    /// Magnitude.
    pub fn abs(self) -> (r: Fixed)
        requires
            self@ != i64::MIN,
        ensures
            r@ == iabs(self@),
    {
        if self.raw < 0 {
            Fixed { raw: -self.raw }
        } else {
            self
        }
    }

    /// Fixed-point product, rounded toward zero.
    pub fn mul(self, rhs: Fixed) -> (r: Fixed)
        requires
            fits_i64(fx_mul(self@, rhs@)),
        ensures
            r@ == fx_mul(self@, rhs@),
    {
        let wide: i128 = wide_mul(self.raw, rhs.raw);
        let q: i128 = tdiv_i128(wide, SCALE as i128);
        Fixed { raw: q as i64 }
    }

    /// Fixed-point quotient, rounded toward zero.
    pub fn div(self, rhs: Fixed) -> (r: Fixed)
        requires
            rhs@ != 0,
            fits_i64(fx_div(self@, rhs@)),
        ensures
            r@ == fx_div(self@, rhs@),
    {
        let wide: i128 = (self.raw as i128) * (SCALE as i128);
        let q: i128 = tdiv_i128(wide, rhs.raw as i128);
        Fixed { raw: q as i64 }
    }

    /// Fixed-point square root of a nonnegative value, rounded down.
    pub fn sqrt(self) -> (r: Fixed)
        requires
            self@ >= 0,
        ensures
            r@ == fx_sqrt(self@),
            r@ >= 0,
    {
        let widened: u128 = (self.raw as u128) * (SCALE as u128);
        let root: u64 = isqrt_u128(widened);
        proof {
            assert(root * root <= widened < 0x1_0000_0000_0000_0000_0000);
            assert(root < 0x100_0000_0000) by (nonlinear_arith)
                requires
                    root * root < 0x1_0000_0000_0000_0000_0000,
            ;
        }
        Fixed { raw: root as i64 }
    }

    /// Comparison: strictly less.
    pub fn lt(self, rhs: Fixed) -> (r: bool)
        ensures
            r == (self@ < rhs@),
    {
        self.raw < rhs.raw
    }

    /// Comparison: less or equal.
    pub fn le(self, rhs: Fixed) -> (r: bool)
        ensures
            r == (self@ <= rhs@),
    {
        self.raw <= rhs.raw
    }
}

} // verus!
