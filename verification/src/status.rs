//! What the engine publishes of itself for the status panel: the latest value of each thing.

use vstd::prelude::*;

use crate::engine::TrayState;
use crate::text::{decimal, push_decimal};

verus! {

/// What is being captured.
#[derive(Debug, Clone, Copy, PartialEq, Eq, Structural)]
pub enum CaptureTarget {
    /// A monitor.
    Monitor,
    /// A window.
    Window,
}

impl CaptureTarget {
    /// The target's number.
    pub open spec fn spec_code(self) -> u8 {
        match self {
            CaptureTarget::Monitor => 0,
            CaptureTarget::Window => 1,
        }
    }

    /// The target's number.
    pub fn code(self) -> (c: u8)
        ensures
            c == self.spec_code(),
    {
        match self {
            CaptureTarget::Monitor => 0,
            CaptureTarget::Window => 1,
        }
    }

    /// The target with a number; a number that no target has reads as a monitor.
    pub fn from_code(code: u8) -> (target: Self)
        ensures
            code <= 1 ==> target.spec_code() == code,
            code > 1 ==> target == CaptureTarget::Monitor,
    {
        match code {
            1 => CaptureTarget::Window,
            _ => CaptureTarget::Monitor,
        }
    }

    /// The target's name.
    pub fn label(self) -> (s: &'static str)
        ensures
            s@ == target_name(self),
    {
        match self {
            CaptureTarget::Monitor => "Monitor",
            CaptureTarget::Window => "Window",
        }
    }
}

/// The target's name.
pub open spec fn target_name(target: CaptureTarget) -> Seq<char> {
    match target {
        CaptureTarget::Monitor => "Monitor"@,
        CaptureTarget::Window => "Window"@,
    }
}

/// How the last save went.
#[derive(Debug, Clone, Copy, PartialEq, Eq, Structural)]
pub enum SaveOutcome {
    /// There was none in this session.
    Never,
    /// A clip was written.
    Saved,
    /// The save failed.
    Failed,
}

impl SaveOutcome {
    /// The outcome's number.
    pub open spec fn spec_code(self) -> u8 {
        match self {
            SaveOutcome::Never => 0,
            SaveOutcome::Saved => 1,
            SaveOutcome::Failed => 2,
        }
    }

    /// The outcome's number.
    pub fn code(self) -> (c: u8)
        ensures
            c == self.spec_code(),
    {
        match self {
            SaveOutcome::Never => 0,
            SaveOutcome::Saved => 1,
            SaveOutcome::Failed => 2,
        }
    }

    /// The outcome with a number; a number that no outcome has reads as none.
    pub fn from_code(code: u8) -> (outcome: Self)
        ensures
            code <= 2 ==> outcome.spec_code() == code,
            code > 2 ==> outcome == SaveOutcome::Never,
    {
        match code {
            1 => SaveOutcome::Saved,
            2 => SaveOutcome::Failed,
            _ => SaveOutcome::Never,
        }
    }
}

/// The number of an engine state.
pub open spec fn spec_state_code(state: TrayState) -> u8 {
    match state {
        TrayState::Buffering => 0,
        TrayState::Paused => 1,
        TrayState::Warning => 2,
        TrayState::Error => 3,
    }
}

/// The number of an engine state.
pub fn state_code(state: TrayState) -> (c: u8)
    ensures
        c == spec_state_code(state),
{
    match state {
        TrayState::Buffering => 0,
        TrayState::Paused => 1,
        TrayState::Warning => 2,
        TrayState::Error => 3,
    }
}

/// The engine state with a number; a number that no state has reads as buffering.
pub fn state_from_code(code: u8) -> (state: TrayState)
    ensures
        code <= 3 ==> spec_state_code(state) == code,
        code > 3 ==> state == TrayState::Buffering,
{
    match code {
        1 => TrayState::Paused,
        2 => TrayState::Warning,
        3 => TrayState::Error,
        _ => TrayState::Buffering,
    }
}

/// Law: what is published as a number reads back as what it was, for states, targets and outcomes.
pub proof fn lemma_codes_are_distinct(
    a: TrayState,
    b: TrayState,
    c: CaptureTarget,
    d: CaptureTarget,
    e: SaveOutcome,
    f: SaveOutcome,
)
    ensures
        spec_state_code(a) == spec_state_code(b) ==> a == b,
        c.spec_code() == d.spec_code() ==> c == d,
        e.spec_code() == f.spec_code() ==> e == f,
        spec_state_code(a) <= 3 && c.spec_code() <= 1 && e.spec_code() <= 2,
{
}

/// One read of the whole status.
#[derive(Debug)]
pub struct StatusSnapshot {
    pub state: TrayState,
    /// The duration of the footage in the ring, in ticks.
    pub held_ticks: u64,
    /// The retention that was configured, in seconds.
    pub configured_seconds: u32,
    /// Bytes in the ring.
    pub held_bytes: u64,
    /// The canvas width, zero until the first frame.
    pub width: u32,
    /// The canvas height, zero until the first frame.
    pub height: u32,
    pub fps: u32,
    pub target: CaptureTarget,
    /// The GPU adapter's description.
    pub adapter: String,
    pub captured: u64,
    pub encoded: u64,
    pub muxed: u64,
    /// Frames dropped in the whole session.
    pub dropped: u64,
    pub last_save: SaveOutcome,
    /// When the last save was done, in milliseconds since the epoch; zero if there was none.
    pub last_save_unix_ms: u64,
    /// How long the last save took, in milliseconds.
    pub last_save_duration_ms: u64,
}

/// The engine's status: a header that never changes, and the latest values.
#[derive(Debug)]
pub struct EngineStatus {
    pub adapter: String,
    pub fps: u32,
    pub configured_buffer_seconds: u32,
    state: u8,
    held_ticks: u64,
    held_bytes: u64,
    width: u32,
    height: u32,
    target: u8,
    captured: u64,
    encoded: u64,
    muxed: u64,
    dropped: u64,
    last_save_result: u8,
    last_save_unix_ms: u64,
    last_save_duration_ms: u64,
}

/// What a status shows.
#[verifier::ext_equal]
pub struct StatusView {
    pub adapter: Seq<char>,
    pub fps: u32,
    pub configured_seconds: u32,
    pub state: TrayState,
    pub held_ticks: u64,
    pub held_bytes: u64,
    pub size: (u32, u32),
    pub target: CaptureTarget,
    /// Captured, encoded, muxed.
    pub counts: (u64, u64, u64),
    pub dropped: u64,
    /// The outcome of the last save, when it was done, and how long it took.
    pub last_save: (SaveOutcome, u64, u64),
}

/// The engine state with a number.
spec fn decoded_state(code: u8) -> TrayState {
    if code == 1 {
        TrayState::Paused
    } else if code == 2 {
        TrayState::Warning
    } else if code == 3 {
        TrayState::Error
    } else {
        TrayState::Buffering
    }
}

/// The target with a number.
spec fn decoded_target(code: u8) -> CaptureTarget {
    if code == 1 {
        CaptureTarget::Window
    } else {
        CaptureTarget::Monitor
    }
}

/// The outcome with a number.
spec fn decoded_outcome(code: u8) -> SaveOutcome {
    if code == 1 {
        SaveOutcome::Saved
    } else if code == 2 {
        SaveOutcome::Failed
    } else {
        SaveOutcome::Never
    }
}

impl View for EngineStatus {
    type V = StatusView;

    closed spec fn view(&self) -> StatusView {
        StatusView {
            adapter: self.adapter@,
            fps: self.fps,
            configured_seconds: self.configured_buffer_seconds,
            state: decoded_state(self.state),
            held_ticks: self.held_ticks,
            held_bytes: self.held_bytes,
            size: (self.width, self.height),
            target: decoded_target(self.target),
            counts: (self.captured, self.encoded, self.muxed),
            dropped: self.dropped,
            last_save: (
                decoded_outcome(self.last_save_result),
                self.last_save_unix_ms,
                self.last_save_duration_ms,
            ),
        }
    }
}

impl View for StatusSnapshot {
    type V = StatusView;

    open spec fn view(&self) -> StatusView {
        StatusView {
            adapter: self.adapter@,
            fps: self.fps,
            configured_seconds: self.configured_seconds,
            state: self.state,
            held_ticks: self.held_ticks,
            held_bytes: self.held_bytes,
            size: (self.width, self.height),
            target: self.target,
            counts: (self.captured, self.encoded, self.muxed),
            dropped: self.dropped,
            last_save: (
                self.last_save,
                self.last_save_unix_ms,
                self.last_save_duration_ms,
            ),
        }
    }
}

/// A status before anything was published.
pub open spec fn new_status(adapter: Seq<char>, fps: u32, configured_seconds: u32) -> StatusView {
    StatusView {
        adapter,
        fps,
        configured_seconds,
        state: TrayState::Buffering,
        held_ticks: 0,
        held_bytes: 0,
        size: (0, 0),
        target: CaptureTarget::Monitor,
        counts: (0, 0, 0),
        dropped: 0,
        last_save: (SaveOutcome::Never, 0, 0),
    }
}

impl EngineStatus {
    /// A status before anything was published.
    pub fn new(adapter: String, fps: u32, configured_buffer_seconds: u32) -> (status: Self)
        ensures
            status@ == new_status(adapter@, fps, configured_buffer_seconds),
    {
        EngineStatus {
            adapter,
            fps,
            configured_buffer_seconds,
            state: state_code(TrayState::Buffering),
            held_ticks: 0,
            held_bytes: 0,
            width: 0,
            height: 0,
            target: CaptureTarget::Monitor.code(),
            captured: 0,
            encoded: 0,
            muxed: 0,
            dropped: 0,
            last_save_result: SaveOutcome::Never.code(),
            last_save_unix_ms: 0,
            last_save_duration_ms: 0,
        }
    }

    /// Publish the engine state.
    pub fn set_state(&mut self, state: TrayState)
        ensures
            final(self)@ == (StatusView { state, ..old(self)@ }),
    {
        self.state = state_code(state);
    }

    /// Publish what the ring holds. A negative duration counts as zero.
    pub fn set_fill(&mut self, held_ticks: i64, held_bytes: u64)
        ensures
            final(self)@ == (StatusView {
                held_ticks: if held_ticks < 0 {
                    0
                } else {
                    held_ticks as u64
                },
                held_bytes,
                ..old(self)@
            }),
    {
        self.held_ticks = if held_ticks < 0 {
            0
        } else {
            held_ticks as u64
        };
        self.held_bytes = held_bytes;
    }

    /// Publish the counts of the stages.
    pub fn set_stage_counts(&mut self, captured: u64, encoded: u64, muxed: u64)
        ensures
            final(self)@ == (StatusView { counts: (captured, encoded, muxed), ..old(self)@ }),
    {
        self.captured = captured;
        self.encoded = encoded;
        self.muxed = muxed;
    }

    /// Publish the canvas size.
    pub fn set_resolution(&mut self, width: u32, height: u32)
        ensures
            final(self)@ == (StatusView { size: (width, height), ..old(self)@ }),
    {
        self.width = width;
        self.height = height;
    }

    /// Publish what is captured.
    pub fn set_target(&mut self, target: CaptureTarget)
        ensures
            final(self)@ == (StatusView { target, ..old(self)@ }),
    {
        self.target = target.code();
    }

    /// Add newly dropped frames to the session's total, modulo 2^64. Each run of the capture
    /// thread adds its own, so a restart keeps the history.
    pub fn add_dropped(&mut self, delta: u64)
        ensures
            final(self)@ == (StatusView {
                dropped: ((old(self)@.dropped + delta) % 0x1_0000_0000_0000_0000) as u64,
                ..old(self)@
            }),
    {
        self.dropped = self.dropped.wrapping_add(delta);
    }

    /// Publish how a save went, when it was done and how long it took.
    pub fn set_last_save(&mut self, outcome: SaveOutcome, unix_ms: u64, duration_ms: u64)
        ensures
            final(self)@ == (StatusView {
                last_save: (outcome, unix_ms, duration_ms),
                ..old(self)@
            }),
    {
        self.last_save_unix_ms = unix_ms;
        self.last_save_duration_ms = duration_ms;
        self.last_save_result = outcome.code();
    }

    /// Read the whole status.
    pub fn snapshot(&self) -> (s: StatusSnapshot)
        ensures
            s@ == self@,
    {
        StatusSnapshot {
            state: state_from_code(self.state),
            held_ticks: self.held_ticks,
            configured_seconds: self.configured_buffer_seconds,
            held_bytes: self.held_bytes,
            width: self.width,
            height: self.height,
            fps: self.fps,
            target: CaptureTarget::from_code(self.target),
            adapter: self.adapter.clone(),
            captured: self.captured,
            encoded: self.encoded,
            muxed: self.muxed,
            dropped: self.dropped,
            last_save: SaveOutcome::from_code(self.last_save_result),
            last_save_unix_ms: self.last_save_unix_ms,
            last_save_duration_ms: self.last_save_duration_ms,
        }
    }
}

/// A span of time as a short text: seconds, minutes or hours ago.
pub open spec fn elapsed_text(elapsed_ms: int) -> Seq<char> {
    let secs = elapsed_ms / 1000;
    if secs < 5 {
        "just now"@
    } else if secs < 60 {
        decimal(secs) + " s ago"@
    } else if secs < 3600 {
        decimal(secs / 60) + " m ago"@
    } else {
        decimal(secs / 3600) + " h ago"@
    }
}

/// A span of time as a short text.
pub fn format_elapsed(elapsed_ms: u64) -> (s: String)
    ensures
        s@ == elapsed_text(elapsed_ms as int),
{
    let secs: u64 = elapsed_ms / 1000;
    let mut s: String = String::new();
    if secs < 5 {
        s.append("just now");
    } else if secs < 60 {
        push_decimal(&mut s, secs);
        s.append(" s ago");
    } else if secs < 3600 {
        push_decimal(&mut s, secs / 60);
        s.append(" m ago");
    } else {
        push_decimal(&mut s, secs / 3600);
        s.append(" h ago");
    }
    assert(s@ =~= elapsed_text(elapsed_ms as int));
    s
}

} // verus!
