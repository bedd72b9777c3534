//! Instants and durations: milliseconds on a clock that never runs backwards.
use vstd::prelude::*;

verus! {

/// The last instant from which the daemon schedules anything, some 290 million
/// years on: later ones leave no room for a deadline.
pub const LAST_INSTANT: u64 = 0x7FFF_FFFF_FFFF_FFFF;

/// The time from `earlier` to `now`, zero where `earlier` lies ahead.
pub open spec fn elapsed(earlier: u64, now: u64) -> u64 {
    if earlier <= now {
        (now - earlier) as u64
    } else {
        0
    }
}

/// Computes [`elapsed`].
pub fn elapsed_since(earlier: u64, now: u64) -> (r: u64)
    ensures
        r == elapsed(earlier, now),
{
    if earlier <= now {
        now - earlier
    } else {
        0
    }
}

} // verus!
