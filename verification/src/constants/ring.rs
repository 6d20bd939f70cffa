//! Sizing of the replay ring.

use vstd::arithmetic::div_mod::lemma_fundamental_div_mod_converse;
use vstd::prelude::*;

verus! {

/// Default retained duration.
pub const DEFAULT_BUFFER_SECONDS: u32 = 120;

/// Longest retained duration.
pub const MAX_BUFFER_SECONDS: u32 = 600;

/// Audio is kept this long before the oldest retained video packet.
pub const AUDIO_EVICTION_SLACK_MS: i64 = 500;

/// Seconds between keyframes.
pub const IDR_INTERVAL_SECONDS: i64 = 2;

/// Seconds between keyframes in precise mode.
pub const PRECISE_MODE_IDR_INTERVAL_SECONDS: i64 = 1;

/// Estimated bitrate of the audio: two tracks at the default AAC bitrate.
pub const EST_AUDIO_BPS: u64 = 2 * 160_000;

/// Length of a group of pictures, in frames, as the low 32 bits of the product.
pub fn gop_frames(idr_interval_seconds: i64, fps: u32) -> (frames: u32)
    requires
        i64::MIN <= idr_interval_seconds * fps <= i64::MAX,
    ensures
        frames == (idr_interval_seconds * fps) % 0x1_0000_0000,
        0 <= idr_interval_seconds * fps <= u32::MAX ==> frames == idr_interval_seconds * fps,
{
    let product: i64 = idr_interval_seconds * fps as i64;
    if product >= 0 {
        (product as u64 % 0x1_0000_0000) as u32
    } else {
        let below: u64 = (-(product + 1)) as u64;
        let low: u64 = below % 0x1_0000_0000;
        proof {
            lemma_fundamental_div_mod_converse(
                product as int,
                0x1_0000_0000,
                -(below as int / 0x1_0000_0000) - 1,
                0xFFFF_FFFF - low,
            );
        }
        (0xFFFF_FFFF - low) as u32
    }
}

/// Video bitrate at 60 frames per second for a picture of `area` pixels, in Mbit/s.
pub open spec fn video_mbps_at_60(area: int) -> int {
    if area <= 1920 * 1080 {
        16
    } else if area <= 2560 * 1440 {
        26
    } else {
        50
    }
}

/// Estimated bitrate of the whole stream in bits per second.
pub open spec fn estimated_bps(area: int, fps: int) -> int {
    video_mbps_at_60(area) * 1_000_000 * fps / 60 + EST_AUDIO_BPS
}

/// Estimated bitrate of the whole stream in bits per second: the video's by the size of the
/// picture, in proportion to the frame rate, and two audio tracks'.
pub fn est_bitrate_bps(width: u32, height: u32, fps: u32) -> (bps: u64)
    ensures
        bps == video_mbps_at_60(width * height) * 1_000_000 * fps / 60 + EST_AUDIO_BPS,
        bps == estimated_bps(width * height, fps as int),
{
    assert(width as int * height as int <= 0xFFFF_FFFF * 0xFFFF_FFFF) by (nonlinear_arith)
        requires
            0 <= width <= 0xFFFF_FFFF,
            0 <= height <= 0xFFFF_FFFF,
    ;
    assert(0 <= width as int * height as int) by (nonlinear_arith);
    let area: u64 = width as u64 * height as u64;
    let mbps: u64 = if area <= 1920 * 1080 {
        16
    } else if area <= 2560 * 1440 {
        26
    } else {
        50
    };
    assert(mbps * 1_000_000 * fps <= 50 * 1_000_000 * 0xFFFF_FFFF) by (nonlinear_arith)
        requires
            0 <= mbps <= 50,
            0 <= fps <= 0xFFFF_FFFF,
    ;
    assert(mbps as int * 1_000_000 * fps as int == (mbps as int * 1_000_000) * fps as int);
    mbps * 1_000_000 * fps as u64 / 60 + EST_AUDIO_BPS
}

/// The ring's byte cap before headroom: the bytes of `seconds` of stream.
pub open spec fn stream_bytes(seconds: int, bps: int) -> int {
    seconds * (bps / 8)
}

/// The ring's byte cap: the bytes of `seconds` of stream and half as much again, as far as that can be
/// held.
pub open spec fn byte_cap(seconds: int, bps: int) -> int {
    let cap = stream_bytes(seconds, bps) * 3 / 2;
    if cap <= u64::MAX {
        cap
    } else {
        u64::MAX as int
    }
}

/// The ring's byte cap: `buffer_seconds` of stream and half as much again.
pub fn byte_cap_bytes(buffer_seconds: u32, est_bitrate_bps: u64) -> (cap: u64)
    requires
        stream_bytes(buffer_seconds as int, est_bitrate_bps as int) <= u64::MAX,
    ensures
        cap == if stream_bytes(buffer_seconds as int, est_bitrate_bps as int) * 3 / 2 <= u64::MAX {
            stream_bytes(buffer_seconds as int, est_bitrate_bps as int) * 3 / 2
        } else {
            u64::MAX as int
        },
        cap == byte_cap(buffer_seconds as int, est_bitrate_bps as int),
{
    let bytes_per_second: u64 = est_bitrate_bps / 8;
    assert(0 <= buffer_seconds * bytes_per_second) by (nonlinear_arith)
        requires
            0 <= buffer_seconds,
            0 <= bytes_per_second,
    ;
    let bytes: u64 = buffer_seconds as u64 * bytes_per_second;
    let cap: u128 = bytes as u128 * 3 / 2;
    if cap <= u64::MAX as u128 {
        cap as u64
    } else {
        u64::MAX
    }
}

/// Law: more pixels never take fewer bits. A picture of up to 1080 lines takes 16 megabits a second, one
/// of up to 1440 lines 26, and a larger one 50.
pub proof fn lemma_larger_pictures_take_more(small: int, large: int)
    requires
        small <= large,
    ensures
        video_mbps_at_60(small) <= video_mbps_at_60(large),
        video_mbps_at_60(2_073_600) == 16,
        video_mbps_at_60(2_073_601) == 26,
        video_mbps_at_60(3_686_400) == 26,
        video_mbps_at_60(3_686_401) == 50,
{
}

/// Law: the bytes of a stream are its bits over eight, for each second: at most seven bits of a second
/// are left over.
pub proof fn lemma_bytes_make_up_the_bits(seconds: int, bps: int)
    requires
        0 <= seconds,
        0 <= bps,
    ensures
        8 * stream_bytes(seconds, bps) <= seconds * bps <= 8 * stream_bytes(seconds, bps) + 7
            * seconds,
{
    let per_second = bps / 8;
    assert(8 * (seconds * per_second) <= seconds * bps <= 8 * (seconds * per_second) + 7 * seconds)
        by (nonlinear_arith)
        requires
            8 * per_second <= bps <= 8 * per_second + 7,
            0 <= seconds,
    ;
}

/// Law: a stream at 60 frames a second takes its picture's megabits and 320 kilobits of sound; at any
/// other rate the picture's part is in proportion, rounded down to the bit.
pub proof fn lemma_bitrate_goes_with_the_frame_rate(area: int, fps: int)
    requires
        0 <= fps,
    ensures
        estimated_bps(area, 60) == 1_000_000 * video_mbps_at_60(area) + 320_000,
        estimated_bps(area, 0) == 320_000,
        0 <= fps * (estimated_bps(area, 60) - 320_000) - 60 * (estimated_bps(area, fps) - 320_000)
            < 60,
{
    let bits = video_mbps_at_60(area) * 1_000_000;
    assert(EST_AUDIO_BPS == 320_000);
    assert(bits * 60 / 60 == bits);
    assert(bits * 0 / 60 == 0);
    assert(fps * bits == bits * fps) by (nonlinear_arith);
}

/// Law: the byte cap is one and a half times the bytes of the stream, rounded down, or the most that can
/// be held: never less than the stream.
pub proof fn lemma_cap_is_half_as_much_again(seconds: int, bps: int)
    requires
        0 <= seconds,
        0 <= bps,
        stream_bytes(seconds, bps) <= u64::MAX,
    ensures
        stream_bytes(seconds, bps) <= byte_cap(seconds, bps) <= u64::MAX,
        stream_bytes(seconds, bps) * 3 < 0x1_0000_0000_0000_0000 ==> 0 <= 3 * stream_bytes(
            seconds,
            bps,
        ) - 2 * byte_cap(seconds, bps) <= 1,
{
    assert(0 <= seconds * (bps / 8)) by (nonlinear_arith)
        requires
            0 <= seconds,
            0 <= bps / 8,
    ;
}

} // verus!
