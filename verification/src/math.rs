//! Bounded arithmetic on balances.
use vstd::prelude::*;

verus! {

/// `v` held between `lo` and `hi`.
pub open spec fn clamp_spec(v: int, lo: int, hi: int) -> int {
    if v > lo {
        if v < hi {
            v
        } else {
            hi
        }
    } else {
        lo
    }
}

/// `nalgebra::clamp` on `i64`: `val` where it lies strictly between `min`
/// and `max`, `max` where it is above `min` but not below `max`, and `min`
/// otherwise. It compares and returns; it cannot fail.
#[verifier::external_body]
pub(crate) fn clamp(val: i64, min: i64, max: i64) -> (r: i64)
    ensures
        r == clamp_spec(val as int, min as int, max as int),
{
    nalgebra::clamp(val, min, max)
}

} // verus!
