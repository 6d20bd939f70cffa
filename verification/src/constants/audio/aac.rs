//! AAC framing.

use vstd::prelude::*;

verus! {

/// Default bitrate of one track.
pub const BITRATE_DEFAULT_BPS: u32 = 160_000;

/// Lowest bitrate that can be configured.
pub const BITRATE_MIN_BPS: u32 = 96_000;

/// Highest bitrate that can be configured.
pub const BITRATE_MAX_BPS: u32 = 256_000;

/// Samples in one access unit.
pub const FRAME_SAMPLES: u32 = 1024;

/// The encoder delay assumed where it was not measured.
pub const DELAY_SAMPLES_FALLBACK: u32 = 1024;

/// The delay that some encoders have instead.
pub const DELAY_SAMPLES_ALT: u32 = 2112;

} // verus!
