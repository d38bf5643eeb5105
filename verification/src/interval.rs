//! Closed numeric ranges bounding valid hit parameters.

use vstd::prelude::*;

verus! {

/// An inclusive range of fixed-point values; `min` above `max` is the
/// empty interval.
#[derive(Clone, Copy, Debug, PartialEq, Eq, Structural)]
pub struct Interval {
    pub min: i64,
    pub max: i64,
}

/// Containment, inclusive at both ends.
pub open spec fn spec_contains(itv: Interval, x: int) -> bool {
    itv.min <= x <= itv.max
}

/// Containment, exclusive at both ends.
pub open spec fn spec_surrounds(itv: Interval, x: int) -> bool {
    itv.min < x < itv.max
}

/// `x` forced into `[min, max]`.
pub open spec fn spec_clamp(itv: Interval, x: int) -> int {
    if x < itv.min {
        itv.min as int
    } else if x > itv.max {
        itv.max as int
    } else {
        x
    }
}

impl Interval {
    pub fn new(min: i64, max: i64) -> (r: Self)
        ensures
            r.min == min,
            r.max == max,
    {
        Interval { min, max }
    }

    /// The empty interval: no value is contained in it.
    pub fn default() -> (r: Self)
        ensures
            r.min == i64::MAX,
            r.max == i64::MIN,
    {
        Interval { min: i64::MAX, max: i64::MIN }
    }

    pub fn contains(&self, x: i64) -> (r: bool)
        ensures
            r == spec_contains(*self, x as int),
    {
        self.min <= x && x <= self.max
    }

    pub fn surrounds(&self, x: i64) -> (r: bool)
        ensures
            r == spec_surrounds(*self, x as int),
    {
        self.min < x && x < self.max
    }

    pub fn clamp(&self, x: i64) -> (r: i64)
        ensures
            r == spec_clamp(*self, x as int),
    {
        if x < self.min {
            self.min
        } else if x > self.max {
            self.max
        } else {
            x
        }
    }
}

} // verus!
