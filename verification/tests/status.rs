//! The status that the engine publishes, and the watchdog.

use clipd::constants::units::TICKS_PER_SECOND;
use clipd::constants::watchdog::FRAMES_DIVERGENCE_MAX;
use clipd::status::{
    format_elapsed, state_code, state_from_code, CaptureTarget, EngineStatus, SaveOutcome,
};
use clipd::engine::TrayState;
use clipd::watchdog::{PipelineStats, Watchdog, WatchdogState};

#[test]
fn format_elapsed_thresholds() {
    assert_eq!(format_elapsed(0), "just now");
    assert_eq!(format_elapsed(4_999), "just now");
    assert_eq!(format_elapsed(5_000), "5 s ago");
    assert_eq!(format_elapsed(59_000), "59 s ago");
    assert_eq!(format_elapsed(60_000), "1 m ago");
    assert_eq!(format_elapsed(3_599_000), "59 m ago");
    assert_eq!(format_elapsed(3_600_000), "1 h ago");
    assert_eq!(format_elapsed(7_200_000), "2 h ago");
}

#[test]
fn state_code_roundtrips_every_variant() {
    for s in [
        TrayState::Buffering,
        TrayState::Paused,
        TrayState::Warning,
        TrayState::Error,
    ] {
        assert_eq!(state_from_code(state_code(s)), s);
    }
    assert_eq!(state_from_code(200), TrayState::Buffering);
}

#[test]
fn target_code_roundtrips() {
    assert_eq!(
        CaptureTarget::from_code(CaptureTarget::Monitor.code()),
        CaptureTarget::Monitor
    );
    assert_eq!(
        CaptureTarget::from_code(CaptureTarget::Window.code()),
        CaptureTarget::Window
    );
    assert_eq!(CaptureTarget::from_code(200), CaptureTarget::Monitor);
    assert_eq!(CaptureTarget::Monitor.label(), "Monitor");
    assert_eq!(CaptureTarget::Window.label(), "Window");
}

#[test]
fn save_outcome_code_roundtrips() {
    for o in [SaveOutcome::Never, SaveOutcome::Saved, SaveOutcome::Failed] {
        assert_eq!(SaveOutcome::from_code(o.code()), o);
    }
    assert_eq!(SaveOutcome::from_code(200), SaveOutcome::Never);
}

#[test]
fn publish_then_snapshot_roundtrips() {
    let mut st = EngineStatus::new("Test Adapter".to_string(), 60, 30);
    let s = st.snapshot();
    assert_eq!(s.state, TrayState::Buffering);
    assert_eq!(s.width, 0);
    assert_eq!(s.last_save, SaveOutcome::Never);
    assert_eq!(s.fps, 60);
    assert_eq!(s.configured_seconds, 30);
    assert_eq!(&*s.adapter, "Test Adapter");

    st.set_state(TrayState::Paused);
    st.set_fill(15 * TICKS_PER_SECOND, 4 * 1024 * 1024);
    st.set_stage_counts(100, 98, 97);
    st.set_resolution(1920, 1080);
    st.set_target(CaptureTarget::Window);
    st.add_dropped(3);
    st.set_last_save(SaveOutcome::Saved, 1_700_000_000_000, 85);

    let s = st.snapshot();
    assert_eq!(s.state, TrayState::Paused);
    assert_eq!(s.held_ticks, 15 * TICKS_PER_SECOND as u64);
    assert_eq!(s.held_bytes, 4 * 1024 * 1024);
    assert_eq!((s.captured, s.encoded, s.muxed), (100, 98, 97));
    assert_eq!((s.width, s.height), (1920, 1080));
    assert_eq!(s.target, CaptureTarget::Window);
    assert_eq!(s.dropped, 3);
    assert_eq!(s.last_save, SaveOutcome::Saved);
    assert_eq!(s.last_save_unix_ms, 1_700_000_000_000);
    assert_eq!(s.last_save_duration_ms, 85);
}

#[test]
fn add_dropped_accumulates_across_epochs() {
    let mut st = EngineStatus::new(String::new(), 60, 30);
    st.add_dropped(2);
    st.add_dropped(3);
    assert_eq!(st.snapshot().dropped, 5);
    st.add_dropped(4);
    assert_eq!(st.snapshot().dropped, 9);
    st.add_dropped(0);
    assert_eq!(st.snapshot().dropped, 9);
}

#[test]
fn set_fill_clamps_negative_ticks() {
    let mut st = EngineStatus::new(String::new(), 30, 10);
    st.set_fill(-5, 0);
    assert_eq!(st.snapshot().held_ticks, 0);
}

#[test]
fn engine_status_is_send_and_sync() {
    fn assert_send_sync<T: Send + Sync>() {}
    assert_send_sync::<EngineStatus>();
}

#[test]
fn dropped_frames_wrap_around() {
    let mut st = EngineStatus::new(String::new(), 60, 30);
    st.add_dropped(u64::MAX);
    st.add_dropped(3);
    assert_eq!(st.snapshot().dropped, 2);
}

#[test]
fn watchdog_emits_only_on_transitions() {
    let mut wd = Watchdog::new();
    assert_eq!(wd.observe(false), None);
    assert_eq!(wd.observe(true), Some(WatchdogState::Warning));
    assert_eq!(wd.observe(true), None);
    assert_eq!(wd.observe(false), Some(WatchdogState::Healthy));
    assert_eq!(wd.observe(false), None);
}

#[test]
fn is_diverged_matches_the_spec_threshold() {
    let mut stats = PipelineStats::new();
    stats.captured = FRAMES_DIVERGENCE_MAX as u64;
    stats.encoded = 0;
    stats.muxed = 0;
    assert!(!stats.is_diverged(), "== threshold is not diverged");
    stats.captured = FRAMES_DIVERGENCE_MAX as u64 + 1;
    assert!(stats.is_diverged(), "> threshold is diverged");
    stats.captured = 0;
    stats.encoded = FRAMES_DIVERGENCE_MAX as u64 + 1;
    stats.muxed = 0;
    assert!(stats.is_diverged(), "encode→mux divergence trips it too");
}

#[test]
fn each_lagging_stage_is_told_apart() {
    let mut stats = PipelineStats::new();
    stats.captured = 200;
    stats.encoded = 20;
    stats.muxed = 20;
    let r = stats.check_divergence();
    assert!(r.encode);
    assert!(!r.mux);
    stats.encoded = 200;
    let r = stats.check_divergence();
    assert!(!r.encode);
    assert!(r.mux);
    assert_eq!(stats.snapshot(), (200, 200, 20));
}

#[test]
fn reports_alternate() {
    let mut wd = Watchdog::new();
    let flags = [false, true, true, false, true, false, false, true];
    let reports: Vec<WatchdogState> = flags.iter().filter_map(|f| wd.observe(*f)).collect();
    assert_eq!(reports.len(), 5);
    for (i, state) in reports.iter().enumerate() {
        assert_eq!(*state == WatchdogState::Warning, i % 2 == 0);
    }
}
