//! Watchdog thresholds.

use vstd::prelude::*;

verus! {

/// Frames queued at the encoder beyond which frames are dropped.
pub const ENCODER_QUEUE_DEPTH_MAX: usize = 6;

/// Frames by which a stage may lag the one before it.
pub const FRAMES_DIVERGENCE_MAX: i64 = 120;

/// Time without a captured frame before the capture is restarted.
pub const NO_WGC_FRAME_RESTART_MS: i64 = 1000;

/// Time without an audio event before a stream is rebuilt.
pub const NO_AUDIO_EVENT_REBUILD_MS: i64 = 500;

/// Save duration beyond which a warning is logged.
pub const SAVE_DURATION_WARN_MS: i64 = 1000;

} // verus!
