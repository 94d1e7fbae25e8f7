use vstd::prelude::*;

verus! {

/// A saturating step of the store round-trip counter.
pub open spec fn sat_inc(c: int) -> int {
    if c < u64::MAX as int {
        c + 1
    } else {
        c
    }
}

/// Count one store round trip.
pub fn bump(c: u64) -> (r: u64)
    ensures
        r as int == sat_inc(c as int),
{
    if c < u64::MAX {
        c + 1
    } else {
        c
    }
}

} // verus!
