//! Container numbers of the fragmented MP4.

use vstd::prelude::*;

verus! {

/// The movie's timescale, in units per second.
pub const MOVIE_TIMESCALE: u32 = 1000;

/// Duration of one video sample, in units of the video track's timescale.
pub const VIDEO_SAMPLE_DELTA: u32 = 1000;

/// The audio tracks' timescale.
pub const AUDIO_TIMESCALE: u32 = 48_000;

/// Duration of one access unit, in units of the audio tracks' timescale.
pub const AUDIO_SAMPLE_DELTA: u32 = 1024;

/// Seconds of content in one fragment.
pub const FRAGMENT_SECONDS: i64 = 1;

/// Suffix of the file's name while it is being written.
pub const PART_SUFFIX: &'static str = ".part";

/// The longest time by which a clip may start before the time that was asked for.
pub const PREROLL_SLACK_SECONDS: i64 = 2;

/// The video track's timescale: one sample of [`VIDEO_SAMPLE_DELTA`] is exactly one frame.
pub fn video_timescale(fps: u32) -> (timescale: u32)
    requires
        fps * 1000 <= u32::MAX,
    ensures
        timescale == fps * 1000,
{
    fps * 1000
}

} // verus!
