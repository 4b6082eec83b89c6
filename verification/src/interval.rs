//! Closed fixed-point ranges, used to bound valid intersection parameters.

use vstd::prelude::*;
use crate::fixed::{fits_i64, Fixed};

verus! {

/// An interval of fixed-point numbers. `min > max` denotes an empty
/// interval, which contains no value.
#[derive(Clone, Copy, Debug, PartialEq, Eq, Structural)]
pub struct Interval {
    /// The lower bound of the interval.
    pub min: Fixed,
    /// The upper bound of the interval.
    pub max: Fixed,
}

/// `t` is an interior point of `itv` (both comparisons strict).
pub open spec fn surrounds_spec(itv: Interval, t: int) -> bool {
    itv.min@ < t && t < itv.max@
}

impl Interval {
    /// An interval with the given bounds.
    pub fn new(min: Fixed, max: Fixed) -> (r: Interval)
        ensures
            r.min == min,
            r.max == max,
    {
        Interval { min, max }
    }

    /// The empty interval: no representable value lies inside it.
    pub fn empty() -> (r: Interval)
        ensures
            r.min@ == i64::MAX,
            r.max@ == i64::MIN,
    {
        Interval { min: Fixed { raw: i64::MAX }, max: Fixed { raw: i64::MIN } }
    }

    /// The widest representable interval.
    pub fn universe() -> (r: Interval)
        ensures
            r.min@ == i64::MIN,
            r.max@ == i64::MAX,
    {
        Interval { min: Fixed { raw: i64::MIN }, max: Fixed { raw: i64::MAX } }
    }

    /// The size of the interval; negative when the interval is reversed.
    pub fn size(&self) -> (r: Fixed)
        requires
            fits_i64(self.max@ - self.min@),
        ensures
            r@ == self.max@ - self.min@,
    {
        self.max.sub(self.min)
    }

    /// `x` lies in the closed interval `[min, max]`.
    pub fn contains(&self, x: Fixed) -> (r: bool)
        ensures
            r == (self.min@ <= x@ && x@ <= self.max@),
    {
        self.min.le(x) && x.le(self.max)
    }

    /// `x` is an interior point of the interval.
    pub fn surrounds(&self, x: Fixed) -> (r: bool)
        ensures
            r == surrounds_spec(*self, x@),
    {
        self.min.lt(x) && x.lt(self.max)
    }

    /// Saturate `x` into the interval: values below `min` become `min`,
    /// values above `max` become `max`.
    pub fn clamp(&self, x: Fixed) -> (r: Fixed)
        ensures
            self.min@ > x@ ==> r == self.min,
            self.min@ <= x@ && x@ > self.max@ ==> r == self.max,
            self.min@ <= x@ && x@ <= self.max@ ==> r == x,
    {
        match (self.min.le(x), x.le(self.max)) {
            (false, _) => self.min,
            (true, false) => self.max,
            (true, true) => x,
        }
    }
}

} // verus!
