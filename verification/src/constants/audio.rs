//! Audio capture.

use vstd::prelude::*;

pub mod aac;
pub mod drift;

verus! {

/// The internal sample rate: everything is resampled to it.
pub const SAMPLE_RATE_HZ: u32 = 48_000;

/// The internal channel count.
pub const CHANNELS: u16 = 2;

/// The device period that is asked for.
pub const PERIOD_MS: i64 = 10;

/// Frames in one period.
pub const PERIOD_FRAMES: u32 = 480;

/// The capture buffer's size in periods.
pub const BUFFER_PERIODS: u32 = 4;

/// Bad device timestamps per minute before a stream is counted by samples instead.
pub const BAD_QPC_PER_MINUTE_THRESHOLD: u32 = 100;

/// A gap within this many ticks either way is jitter.
pub const GAP_JITTER_THRESHOLD_TICKS: i64 = 20_000;

/// The desktop track comes first.
pub const TRACK_DESKTOP: usize = 0;

/// The microphone track comes second.
pub const TRACK_MIC: usize = 1;

} // verus!
