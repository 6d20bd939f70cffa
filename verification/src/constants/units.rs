//! Time units. Every timestamp of the pipeline is a signed 64-bit count of ticks.

use vstd::prelude::*;

verus! {

/// One tick is 100 nanoseconds.
pub const TICK_NANOSECONDS: i64 = 100;

/// Ticks per second.
pub const TICKS_PER_SECOND: i64 = 10_000_000;

/// Ticks per millisecond.
pub const TICKS_PER_MILLISECOND: i64 = 10_000;

/// A whole number of milliseconds in ticks.
pub fn ms_to_ticks(ms: i64) -> (ticks: i64)
    requires
        i64::MIN <= ms * TICKS_PER_MILLISECOND <= i64::MAX,
    ensures
        ticks == ms * TICKS_PER_MILLISECOND,
{
    ms * TICKS_PER_MILLISECOND
}

} // verus!
