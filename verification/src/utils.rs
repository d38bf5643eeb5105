//! Small numeric conveniences.

use crate::fixed::floor_div;
use crate::fixed::lemma_abs_mul;
use crate::fixed::lemma_div_bounds;
use vstd::prelude::*;

verus! {

/// The circle constant at fixed-point scale, rounded to the nearest unit.
pub const PI_FIXED: i64 = 3_141_593;

/// Degrees to radians at fixed-point scale: the angle scaled by the
/// circle constant over one hundred and eighty.
pub fn degrees_to_radians(degrees: i64) -> (r: i64)
    requires
        -1_000_000_000_000 <= degrees <= 1_000_000_000_000,
    ensures
        r as int == degrees * PI_FIXED / 180_000_000,
{
    proof {
        lemma_abs_mul(degrees as int, PI_FIXED as int, 1_000_000_000_000, 3_141_593);
        lemma_div_bounds(degrees * PI_FIXED, 180_000_000, 17_453_294_444_444);
    }
    floor_div(degrees as i128 * PI_FIXED as i128, 180_000_000) as i64
}

} // verus!
