//! The monotonicity guard on each stream's timestamps.

use vstd::prelude::*;

verus! {

/// The count of timestamp violations is logged this often while it is not zero.
pub const TS_VIOLATION_LOG_INTERVAL_SECONDS: i64 = 60;

} // verus!
