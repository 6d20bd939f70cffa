//! The constants and the formulas on them.

use clipd::constants::{audio, device, mux, ring, sync_budget, units, video};

#[test]
fn units_are_consistent() {
    assert_eq!(units::TICKS_PER_SECOND, 10_000_000);
    assert_eq!(units::TICKS_PER_SECOND, units::TICKS_PER_MILLISECOND * 1000);
    assert_eq!(
        units::TICKS_PER_MILLISECOND,
        1_000_000 / units::TICK_NANOSECONDS
    );
    assert_eq!(units::ms_to_ticks(2), audio::GAP_JITTER_THRESHOLD_TICKS);
}

#[test]
fn nominal_frame_duration_matches_spec_examples() {
    assert_eq!(video::nominal_frame_duration_ticks(60), 166_666);
    assert_eq!(video::nominal_frame_duration_ticks(30), 333_333);
}

#[test]
fn slot_boundary_is_exact_and_non_accumulating() {
    let base = 0;
    let one_hour_frames = 60 * 60 * 60;
    let exact = video::slot_boundary_ticks(base, one_hour_frames, 60);
    assert_eq!(exact, 3600 * units::TICKS_PER_SECOND);

    let naive = one_hour_frames * video::nominal_frame_duration_ticks(60);
    let drift_ticks = exact - naive;
    assert!(drift_ticks > 100_000, "drift was {drift_ticks} ticks");
}

#[test]
fn slot_boundary_first_slot_is_base() {
    assert_eq!(video::slot_boundary_ticks(1_000, 0, 60), 1_000);
}

#[test]
fn slot_boundary_no_overflow_at_large_n() {
    let n = 120 * 60 * 60 * 24;
    let t = video::slot_boundary_ticks(0, n, 120);
    assert_eq!(t, 24 * 3600 * units::TICKS_PER_SECOND);
}

#[test]
fn gop_frames_matches_spec() {
    assert_eq!(ring::gop_frames(ring::IDR_INTERVAL_SECONDS, 60), 120);
    assert_eq!(ring::gop_frames(ring::IDR_INTERVAL_SECONDS, 30), 60);
    assert_eq!(
        ring::gop_frames(ring::PRECISE_MODE_IDR_INTERVAL_SECONDS, 60),
        60
    );
}

#[test]
fn byte_cap_matches_spec_table() {
    let bps_1080 = ring::est_bitrate_bps(1920, 1080, 60);
    assert_eq!(bps_1080, 16_000_000 + ring::EST_AUDIO_BPS);
    let cap_1080 = ring::byte_cap_bytes(120, bps_1080);
    assert!(
        (360_000_000..375_000_000).contains(&cap_1080),
        "1080p60/120s cap {cap_1080} not ≈ 369 MB"
    );
    assert_eq!(
        ring::est_bitrate_bps(2560, 1440, 60),
        26_000_000 + ring::EST_AUDIO_BPS
    );
    assert_eq!(
        ring::est_bitrate_bps(3840, 2160, 60),
        50_000_000 + ring::EST_AUDIO_BPS
    );
    assert_eq!(
        ring::est_bitrate_bps(1920, 1080, 30),
        8_000_000 + ring::EST_AUDIO_BPS
    );
}

#[test]
fn mux_timescales_match_spec() {
    assert_eq!(mux::video_timescale(60), 60_000);
    assert_eq!(mux::AUDIO_TIMESCALE, audio::SAMPLE_RATE_HZ);
}

#[test]
fn device_hole_is_debounce_plus_rebuild() {
    assert_eq!(
        device::AUDIO_WORST_CASE_HOLE_MS,
        device::IMM_DEBOUNCE_MS + device::AUDIO_REBUILD_BUDGET_MS
    );
    assert_eq!(
        sync_budget::AV4_MAX_RECOVERY_GAP_MS,
        device::AUDIO_WORST_CASE_HOLE_MS
    );
}

#[test]
fn audio_period_frames_match_rate() {
    assert_eq!(
        audio::PERIOD_FRAMES,
        audio::SAMPLE_RATE_HZ / (1000 / audio::PERIOD_MS as u32)
    );
}
