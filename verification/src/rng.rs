//! The crate's single source of randomness: a uniform draw from a
//! half-open range of fixed-point values.

use vstd::prelude::*;

verus! {

/// Relies on rand::random_range: a value drawn uniformly from the
/// half-open range `lo..hi`; it panics only when the range is empty,
/// which the precondition rules out.
#[verifier::external_body]
pub fn random_in_range(lo: i64, hi: i64) -> (r: i64)
    requires
        lo < hi,
    ensures
        lo <= r < hi,
{
    rand::random_range(lo..hi)
}

} // verus!
