//! Measuring and correcting clock drift.

use vstd::prelude::*;

verus! {

/// The correction is recomputed this often.
pub const COMPUTE_INTERVAL_SECONDS: i64 = 10;

/// The window over which drift is measured.
pub const WINDOW_SECONDS: i64 = 30;

/// The time in which the correction is expected to converge.
pub const CONVERGENCE_SECONDS: i64 = 60;

} // verus!
