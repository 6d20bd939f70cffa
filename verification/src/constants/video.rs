//! Video pacing on a constant frame-rate grid.

use vstd::prelude::*;

use super::units::TICKS_PER_SECOND;

verus! {

/// Default output frame rate.
pub const DEFAULT_FPS: u32 = 60;

/// The frame rates that can be configured.
pub const SUPPORTED_FPS: [u32; 3] = [30, 60, 120];

/// The supported rate that is not offered yet.
pub const FPS_120_GATED: u32 = 120;

/// Default ceiling on the encoded height.
pub const DEFAULT_MAX_ENCODE_HEIGHT: u32 = 2160;

/// Lowest height ceiling that can be configured.
pub const MAX_ENCODE_HEIGHT_MIN: u32 = 480;

/// Highest height ceiling that can be configured.
pub const MAX_ENCODE_HEIGHT_MAX: u32 = 4320;

/// Number of textures held so that the last frame can be resubmitted over a gap.
pub const HELD_TEXTURES: usize = 2;

/// The quotient of `a` by the positive `b`, rounded toward zero.
pub open spec fn quotient_toward_zero(a: int, b: int) -> int {
    if a >= 0 {
        a / b
    } else {
        -((-a) / b)
    }
}

/// The time of slot `n` of a grid of `fps` slots per second that starts at `base`.
pub open spec fn slot_time(base: int, n: int, fps: int) -> int {
    base + quotient_toward_zero(n * TICKS_PER_SECOND, fps)
}

/// The time of slot `n`, computed from the grid's base each time: adding up a rounded frame
/// duration would drift.
pub fn slot_boundary_ticks(base: i64, n: i64, fps: u32) -> (t: i64)
    requires
        fps > 0,
        i64::MIN <= slot_time(0, n as int, fps as int) <= i64::MAX,
        i64::MIN <= slot_time(base as int, n as int, fps as int) <= i64::MAX,
    ensures
        t == slot_time(base as int, n as int, fps as int),
{
    let scaled: i128 = n as i128 * TICKS_PER_SECOND as i128;
    let offset: i128 = if scaled >= 0 {
        scaled / fps as i128
    } else {
        -((-scaled) / fps as i128)
    };
    base + offset as i64
}

/// The frame duration rounded down, for sizing only: boundaries come from
/// [`slot_boundary_ticks`].
pub fn nominal_frame_duration_ticks(fps: u32) -> (d: i64)
    requires
        fps > 0,
    ensures
        d == TICKS_PER_SECOND as int / fps as int,
{
    TICKS_PER_SECOND / fps as i64
}

/// Law: the grid does not drift. After a whole number of seconds' worth of slots, the boundary is
/// that many seconds after the base.
pub proof fn lemma_grid_is_exact_on_whole_seconds(base: int, seconds: int, fps: int)
    requires
        fps > 0,
    ensures
        slot_time(base, seconds * fps, fps) == base + seconds * TICKS_PER_SECOND,
{
    let t = TICKS_PER_SECOND as int;
    if seconds >= 0 {
        assert((seconds * fps) * t == (seconds * t) * fps + 0) by (nonlinear_arith);
        assert(seconds * fps * t >= 0) by (nonlinear_arith)
            requires
                seconds >= 0,
                fps > 0,
                t == 10_000_000,
        ;
        vstd::arithmetic::div_mod::lemma_fundamental_div_mod_converse(
            (seconds * fps) * t,
            fps,
            seconds * t,
            0,
        );
    } else {
        let s = -seconds;
        assert(-((seconds * fps) * t) == (s * t) * fps + 0) by (nonlinear_arith)
            requires
                s == -seconds,
        ;
        assert((seconds * fps) * t < 0) by (nonlinear_arith)
            requires
                seconds < 0,
                fps > 0,
                t == 10_000_000,
        ;
        vstd::arithmetic::div_mod::lemma_fundamental_div_mod_converse(
            -((seconds * fps) * t),
            fps,
            s * t,
            0,
        );
        assert(-(s * t) == seconds * t) by (nonlinear_arith)
            requires
                s == -seconds,
        ;
    }
}

/// Law: each slot boundary is within one tick of the exact rational time, so no error builds up
/// with `n`.
pub proof fn lemma_slot_error_below_one_tick(base: int, n: int, fps: int)
    requires
        fps > 0,
    ensures
        -fps < (slot_time(base, n, fps) - base) * fps - n * TICKS_PER_SECOND < fps,
{
    let x = n * TICKS_PER_SECOND;
    if x >= 0 {
        vstd::arithmetic::div_mod::lemma_fundamental_div_mod(x, fps);
        let q = x / fps;
        assert(q * fps == fps * q) by (nonlinear_arith);
    } else {
        vstd::arithmetic::div_mod::lemma_fundamental_div_mod(-x, fps);
        let q = (-x) / fps;
        assert((-q) * fps == -(fps * q)) by (nonlinear_arith);
    }
}

} // verus!
