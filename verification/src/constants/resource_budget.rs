//! Resource limits of the running program.

use vstd::prelude::*;

verus! {

/// Memory beyond the ring.
pub const RAM_OVERHEAD_BUDGET_MB: u64 = 75;

/// Size of the binary.
pub const BINARY_SIZE_BUDGET_BYTES: u64 = 10 * 1024 * 1024;

/// Time from the hotkey to a playable file.
pub const SAVE_LATENCY_BUDGET_MS: i64 = 1000;

} // verus!
