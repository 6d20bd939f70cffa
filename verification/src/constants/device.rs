//! Timing of device changes.

use vstd::prelude::*;

verus! {

/// Device notifications are debounced by this long.
pub const IMM_DEBOUNCE_MS: i64 = 250;

/// Time to rebuild an audio stream.
pub const AUDIO_REBUILD_BUDGET_MS: i64 = 500;

/// The longest audio hole over a change of the default device.
pub const AUDIO_WORST_CASE_HOLE_MS: i64 = 750;

/// Time to restart the video pipeline after its device is lost.
pub const VIDEO_EPOCH_RESTART_BUDGET_MS: i64 = 2000;

} // verus!
