//! The uniform random source, supplied by the `rand` crate.
//!
//! The engine only ever consumes randomness as fixed-point values in a
//! half-open range; everything derived from a draw is verified for every
//! value the draw could take.

use vstd::prelude::*;
use crate::fixed::{fits_i64, tdiv, Fixed, SCALE};

verus! {

/// Relies on rand::random: one uniformly distributed `u32` from the
/// thread-local generator. Nothing is promised of a random draw. The
/// generator can panic if the operating system's entropy source fails when
/// it first seeds or later reseeds itself; that failure is environmental
/// and independent of any input.
#[verifier::external_body]
fn random_u32() -> (r: u32) {
    rand::random::<u32>()
}

/// A random fixed-point value in `[0, 1)`.
pub fn random_real() -> (r: Fixed)
    ensures
        0 <= r@ < SCALE,
{
    let bits: u32 = random_u32() % 65536;
    Fixed { raw: bits as i64 }
}

/// A random fixed-point value in `[min, max)`:
/// `min + draw * (max - min)` with `draw` uniform in `[0, 1)`.
pub fn random_real_range(min: Fixed, max: Fixed) -> (r: Fixed)
    requires
        min@ < max@,
        fits_i64(max@ - min@),
    ensures
        min@ <= r@ < max@,
{
    let delta: Fixed = max.sub(min);
    let draw: Fixed = random_real();
    proof {
        lemma_range_scale(delta@, draw@);
    }
    min.add(delta.mul(draw))
}

/// Scaling a positive width by a draw in `[0, 1)` gives an offset in
/// `[0, width)`.
proof fn lemma_range_scale(delta: int, draw: int)
    requires
        delta > 0,
        0 <= draw < SCALE,
    ensures
        0 <= tdiv(delta * draw, SCALE as int) < delta,
{
    assert(delta * draw >= 0 && delta * draw < 65536 * delta) by (nonlinear_arith)
        requires
            delta > 0,
            0 <= draw < 65536,
    ;
    vstd::arithmetic::div_mod::lemma_div_pos_is_pos(delta * draw, SCALE as int);
    vstd::arithmetic::div_mod::lemma_multiply_divide_lt(delta * draw, SCALE as int, delta);
}

} // verus!
