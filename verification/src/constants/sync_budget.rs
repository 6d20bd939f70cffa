//! Acceptance limits on audio-video sync.

use vstd::prelude::*;

verus! {

/// The longest audio gap after a device change.
pub const AV4_MAX_RECOVERY_GAP_MS: i64 = 750;

} // verus!
