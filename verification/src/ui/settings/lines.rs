//! The lines of the settings window.

use vstd::prelude::*;

use crate::audio::AudioTrackKind;
use crate::config::{Quality, Resolution};
use crate::constants::units::TICKS_PER_SECOND;
use crate::constants::PRODUCT_NAME;
use crate::engine::TrayState;
use crate::status::{elapsed_text, format_elapsed, target_name, SaveOutcome, StatusSnapshot};
use crate::text::{decimal, decimal2, push_decimal, push_decimal2, trim, trimmed};
use crate::ui::recent::{push_tenths, round_ratio, rounded, tenths_text};
use crate::ui::theme::{AMBER, BAD, GOOD, WARN};

verus! {

/// A count of seconds as minutes and seconds.
pub open spec fn mmss(secs: int) -> Seq<char> {
    decimal(secs / 60) + ":"@ + decimal2(secs % 60)
}

/// A count of seconds as minutes and seconds; the minutes are not capped.
pub fn format_mmss(secs: u64) -> (s: String)
    ensures
        s@ == mmss(secs as int),
{
    let mut s: String = String::new();
    push_decimal(&mut s, secs / 60);
    s.append(":");
    push_decimal2(&mut s, secs % 60);
    assert(s@ =~= mmss(secs as int));
    s
}

/// The milliseconds from `then` to `now`, zero where the clock went back.
pub open spec fn since(then: int, now: int) -> int {
    if now < then {
        0
    } else {
        now - then
    }
}

/// How long a recording runs, as minutes and seconds. A start of zero is none.
pub open spec fn record_elapsed_text(started: int, now: int) -> Seq<char> {
    if started == 0 {
        mmss(0)
    } else {
        mmss(since(started, now) / 1000)
    }
}

/// How long a recording runs, as minutes and seconds.
pub fn record_elapsed_mmss(started_unix_ms: u64, now_unix_ms: u64) -> (s: String)
    ensures
        s@ == record_elapsed_text(started_unix_ms as int, now_unix_ms as int),
{
    if started_unix_ms == 0 {
        return format_mmss(0);
    }
    let elapsed: u64 = if now_unix_ms < started_unix_ms {
        0
    } else {
        now_unix_ms - started_unix_ms
    };
    format_mmss(elapsed / 1000)
}

/// A buffer length as people say it.
pub open spec fn buffer_len_text(seconds: int) -> Seq<char> {
    if seconds < 60 {
        decimal(seconds) + " s"@
    } else if seconds % 60 == 0 {
        decimal(seconds / 60) + " min"@
    } else {
        decimal(seconds / 60) + " min "@ + decimal(seconds % 60) + " s"@
    }
}

/// A buffer length as people say it: seconds below a minute, else minutes, and the seconds over.
pub fn format_buffer_len(seconds: u32) -> (s: String)
    ensures
        s@ == buffer_len_text(seconds as int),
{
    let mut s: String = String::new();
    if seconds < 60 {
        push_decimal(&mut s, seconds as u64);
        s.append(" s");
    } else {
        push_decimal(&mut s, (seconds / 60) as u64);
        s.append(" min");
        if seconds % 60 != 0 {
            s.append(" ");
            push_decimal(&mut s, (seconds % 60) as u64);
            s.append(" s");
            proof {
                reveal_strlit(" min ");
                reveal_strlit(" min");
                reveal_strlit(" ");
            }
        }
    }
    assert(s@ =~= buffer_len_text(seconds as int));
    s
}

/// The line that says what the program does, and how to save.
pub fn first_run_line(save_hotkey: &str, buffer_seconds: u32) -> (line: String)
    ensures
        line@ == PRODUCT_NAME@ + " keeps your last "@ + buffer_len_text(buffer_seconds as int)
            + " ready. Press "@ + trimmed(save_hotkey@) + " to save a clip."@,
{
    let mut line: String = String::from_str(PRODUCT_NAME);
    line.append(" keeps your last ");
    let length: String = format_buffer_len(buffer_seconds);
    line.append(length.as_str());
    line.append(" ready. Press ");
    line.append(trim(save_hotkey));
    line.append(" to save a clip.");
    line
}

/// What a state is called.
pub open spec fn state_word(state: TrayState) -> Seq<char> {
    match state {
        TrayState::Buffering => "buffering"@,
        TrayState::Paused => "paused"@,
        TrayState::Warning => "warning"@,
        TrayState::Error => "error"@,
    }
}

/// The colour of a state's dot: green, amber, orange or red. The accent is left to the tray.
pub open spec fn dot_color(state: TrayState) -> [u8; 4] {
    match state {
        TrayState::Buffering => GOOD,
        TrayState::Paused => AMBER,
        TrayState::Warning => WARN,
        TrayState::Error => BAD,
    }
}

/// What a state is called, and the colour of its dot.
pub fn state_display(state: TrayState) -> (r: (&'static str, [u8; 4]))
    ensures
        r.0@ == state_word(state),
        r.1 == dot_color(state),
{
    match state {
        TrayState::Buffering => ("buffering", GOOD),
        TrayState::Paused => ("paused", AMBER),
        TrayState::Warning => ("warning", WARN),
        TrayState::Error => ("error", BAD),
    }
}

/// The line on what is captured. Before the first frame the size is unknown.
pub open spec fn capture_text(s: StatusSnapshot) -> Seq<char> {
    if s.width == 0 {
        "Capture: starting…"@
    } else {
        "Capture: "@ + target_name(s.target) + " · "@ + decimal(s.width as int) + "×"@ + decimal(
            s.height as int,
        ) + " @ "@ + decimal(s.fps as int) + " fps · H.264"@
    }
}

/// The line on what is captured.
pub fn capture_line(s: &StatusSnapshot) -> (line: String)
    ensures
        line@ == capture_text(*s),
{
    if s.width == 0 {
        return String::from_str("Capture: starting…");
    }
    let mut line: String = String::from_str("Capture: ");
    line.append(s.target.label());
    line.append(" · ");
    push_decimal(&mut line, s.width as u64);
    line.append("×");
    push_decimal(&mut line, s.height as u64);
    line.append(" @ ");
    push_decimal(&mut line, s.fps as u64);
    line.append(" fps · H.264");
    line
}

/// The line on what each stage has done.
pub fn frames_line(s: &StatusSnapshot) -> (line: String)
    ensures
        line@ == "Frames: captured "@ + decimal(s.captured as int) + " · encoded "@ + decimal(
            s.encoded as int,
        ) + " · muxed "@ + decimal(s.muxed as int),
{
    let mut line: String = String::from_str("Frames: captured ");
    push_decimal(&mut line, s.captured);
    line.append(" · encoded ");
    push_decimal(&mut line, s.encoded);
    line.append(" · muxed ");
    push_decimal(&mut line, s.muxed);
    line
}

/// The line on the last save.
pub open spec fn last_save_text(s: StatusSnapshot, now_unix_ms: int) -> Seq<char> {
    let ago = elapsed_text(since(s.last_save_unix_ms as int, now_unix_ms));
    match s.last_save {
        SaveOutcome::Never => "Last save: none this session"@,
        SaveOutcome::Saved => "Last save: OK "@ + ago + " ("@ + decimal(
            s.last_save_duration_ms as int,
        ) + " ms)"@,
        SaveOutcome::Failed => "Last save: failed "@ + ago,
    }
}

/// How long ago something was done; a time that is yet to come is now.
pub fn elapsed_label(unix_ms: u64, now_unix_ms: u64) -> (s: String)
    ensures
        s@ == elapsed_text(since(unix_ms as int, now_unix_ms as int)),
{
    format_elapsed(
        if now_unix_ms < unix_ms {
            0
        } else {
            now_unix_ms - unix_ms
        },
    )
}

/// The line on the last save: how it went, when, and, where it succeeded, how long it took.
pub fn last_save_line(s: &StatusSnapshot, now_unix_ms: u64) -> (line: String)
    ensures
        line@ == last_save_text(*s, now_unix_ms as int),
{
    let ago: String = elapsed_label(s.last_save_unix_ms, now_unix_ms);
    match s.last_save {
        SaveOutcome::Never => String::from_str("Last save: none this session"),
        SaveOutcome::Saved => {
            let mut line: String = String::from_str("Last save: OK ");
            line.append(ago.as_str());
            line.append(" (");
            push_decimal(&mut line, s.last_save_duration_ms);
            line.append(" ms)");
            line
        },
        SaveOutcome::Failed => {
            let mut line: String = String::from_str("Last save: failed ");
            line.append(ago.as_str());
            line
        },
    }
}

/// What a quality is called.
pub fn quality_label(q: Quality) -> (s: &'static str)
    ensures
        s@ == match q {
            Quality::Efficient => "Efficient"@,
            Quality::Default => "Default"@,
            Quality::High => "High"@,
            Quality::Max => "Max"@,
        },
{
    match q {
        Quality::Efficient => "Efficient",
        Quality::Default => "Default",
        Quality::High => "High",
        Quality::Max => "Max",
    }
}

/// What a resolution is called.
pub fn resolution_label(r: Resolution) -> (s: &'static str)
    ensures
        s@ == match r {
            Resolution::Native => "Source (native)"@,
            Resolution::P1440 => "1440p"@,
            Resolution::P1080 => "1080p"@,
            Resolution::P720 => "720p"@,
        },
{
    match r {
        Resolution::Native => "Source (native)",
        Resolution::P1440 => "1440p",
        Resolution::P1080 => "1080p",
        Resolution::P720 => "720p",
    }
}

/// The height that a resolution is estimated at: the source's is taken to be 1080.
pub open spec fn estimate_height(res: Resolution) -> u32 {
    match res {
        Resolution::Native => 1080,
        Resolution::P1440 => 1440,
        Resolution::P1080 => 1080,
        Resolution::P720 => 720,
    }
}

/// The 16:9 picture, width and height, that a resolution is estimated at.
pub fn estimate_canvas(res: Resolution) -> (size: (u32, u32))
    ensures
        size.1 == estimate_height(res),
        9 * size.0 == 16 * size.1,
{
    let h: u32 = match res {
        Resolution::Native => 1080,
        Resolution::P1440 => 1440,
        Resolution::P1080 => 1080,
        Resolution::P720 => 720,
    };
    (h * 16 / 9, h)
}

/// Where a stream's meter stands.
pub open spec fn meter_rank(kind: AudioTrackKind) -> u8 {
    match kind {
        AudioTrackKind::Mic => 0,
        AudioTrackKind::Mix => 1,
        AudioTrackKind::Game => 2,
        AudioTrackKind::VoiceChat => 3,
        AudioTrackKind::OtherSystem => 4,
    }
}

/// Where a stream's meter stands: the microphone first, the mix, then the rest.
pub fn meter_display_order(kind: AudioTrackKind) -> (rank: u8)
    ensures
        rank == meter_rank(kind),
{
    match kind {
        AudioTrackKind::Mic => 0,
        AudioTrackKind::Mix => 1,
        AudioTrackKind::Game => 2,
        AudioTrackKind::VoiceChat => 3,
        AudioTrackKind::OtherSystem => 4,
    }
}

/// The shown number of a meter changes so often, in microseconds times three: three times a second.
pub const METER_READOUT_US_3: u64 = 1_000_000;

/// The meter of a stream. Levels are samples, without their signs.
#[derive(Debug, Clone, Copy, PartialEq, Eq, Structural)]
pub struct MeterState {
    pub kind: AudioTrackKind,
    /// The loudest sample since the shown number last changed.
    pub interval_peak: u32,
    /// The shown number.
    pub readout_peak: u32,
    /// The time since the shown number last changed, in microseconds.
    pub since_readout_us: u64,
}

/// A meter that has heard nothing.
pub open spec fn silent_meter(kind: AudioTrackKind) -> MeterState {
    MeterState { kind, interval_peak: 0, readout_peak: 0, since_readout_us: 0 }
}

/// A meter after a frame of so many microseconds in which `peak` was the loudest sample. Once a
/// third of a second has gone by, the loudest sample of that time is shown, and the count begins
/// anew.
pub open spec fn metered(meter: MeterState, peak: u32, dt_us: u64) -> MeterState {
    let loudest = if peak > meter.interval_peak {
        peak
    } else {
        meter.interval_peak
    };
    let since = meter.since_readout_us + dt_us;
    if shows(meter, dt_us) {
        MeterState { interval_peak: 0, readout_peak: loudest, since_readout_us: 0, ..meter }
    } else {
        MeterState { interval_peak: loudest, since_readout_us: since as u64, ..meter }
    }
}

/// A meter after frames of which each is a loudest sample and a time.
pub open spec fn metered_all(meter: MeterState, frames: Seq<(u32, u64)>) -> MeterState
    decreases frames.len(),
{
    if frames.len() == 0 {
        meter
    } else {
        let frame = frames.last();
        metered(metered_all(meter, frames.drop_last()), frame.0, frame.1)
    }
}

/// Whether the shown number changes with a frame.
pub open spec fn shows(meter: MeterState, dt_us: u64) -> bool {
    3 * (meter.since_readout_us + dt_us) >= METER_READOUT_US_3
}

/// Law: a meter shows no sample that was not heard, and misses none. Where the shown number changes
/// with the last of some frames and with none before, it becomes the loudest sample of those frames
/// and of what was kept before them.
pub proof fn lemma_meter_shows_the_loudest(meter: MeterState, frames: Seq<(u32, u64)>)
    requires
        frames.len() > 0,
        shows(metered_all(meter, frames.drop_last()), frames.last().1),
        forall|k: int|
            0 <= k < frames.len() - 1 ==> !shows(
                metered_all(meter, #[trigger] frames.take(k)),
                frames[k].1,
            ),
    ensures
        ({
            let shown = metered_all(meter, frames).readout_peak;
            &&& shown >= meter.interval_peak
            &&& forall|k: int| 0 <= k < frames.len() ==> (#[trigger] frames[k]).0 <= shown
            &&& shown == meter.interval_peak || exists|k: int|
                0 <= k < frames.len() && (#[trigger] frames[k]).0 == shown
        }),
{
    let n = frames.len() as int;
    assert(frames.drop_last() =~= frames.take(n - 1));
    lemma_meter_keeps_the_loudest(meter, frames, n - 1);
    assert(frames[n - 1] == frames.last());
}

/// Up to a change of the shown number, a meter keeps the loudest sample.
proof fn lemma_meter_keeps_the_loudest(meter: MeterState, frames: Seq<(u32, u64)>, n: int)
    requires
        0 <= n <= frames.len(),
        forall|k: int|
            0 <= k < n ==> !shows(metered_all(meter, #[trigger] frames.take(k)), frames[k].1),
    ensures
        ({
            let kept = metered_all(meter, frames.take(n)).interval_peak;
            &&& kept >= meter.interval_peak
            &&& forall|k: int| 0 <= k < n ==> (#[trigger] frames[k]).0 <= kept
            &&& kept == meter.interval_peak || exists|k: int|
                0 <= k < n && (#[trigger] frames[k]).0 == kept
        }),
    decreases n,
{
    if n == 0 {
        assert(frames.take(0) =~= Seq::empty());
    } else {
        lemma_meter_keeps_the_loudest(meter, frames, n - 1);
        assert(frames.take(n).drop_last() =~= frames.take(n - 1));
        assert(frames.take(n).last() == frames[n - 1]);
        assert(!shows(metered_all(meter, frames.take(n - 1)), frames[n - 1].1));
    }
}

impl MeterState {
    /// The meter of a stream.
    pub fn new(kind: AudioTrackKind) -> (meter: Self)
        ensures
            meter == silent_meter(kind),
    {
        MeterState { kind, interval_peak: 0, readout_peak: 0, since_readout_us: 0 }
    }

    /// Take in a frame: the loudest sample in it, and how long it was.
    pub fn advance(&mut self, peak: u32, dt_us: u64)
        requires
            3 * (old(self).since_readout_us + dt_us) <= u64::MAX,
        ensures
            *final(self) == metered(*old(self), peak, dt_us),
    {
        if peak > self.interval_peak {
            self.interval_peak = peak;
        }
        self.since_readout_us = self.since_readout_us + dt_us;
        if 3 * self.since_readout_us >= METER_READOUT_US_3 {
            self.readout_peak = self.interval_peak;
            self.interval_peak = 0;
            self.since_readout_us = 0;
        }
    }

    /// Whether the meter's label is muted: that of one source of the mix.
    pub fn is_secondary(&self) -> (b: bool)
        ensures
            b == (meter_rank(self.kind) >= 2),
    {
        match self.kind {
            AudioTrackKind::Game => true,
            AudioTrackKind::VoiceChat => true,
            AudioTrackKind::OtherSystem => true,
            AudioTrackKind::Mic => false,
            AudioTrackKind::Mix => false,
        }
    }
}

/// The streams whose meters stand at a rank, as they come.
pub open spec fn at_rank(streams: Seq<AudioTrackKind>, rank: u8) -> Seq<AudioTrackKind> {
    streams.filter(|kind: AudioTrackKind| meter_rank(kind) == rank)
}

/// The streams whose meters stand below a rank, in the order of their ranks.
pub open spec fn below_rank(streams: Seq<AudioTrackKind>, rank: nat) -> Seq<AudioTrackKind>
    decreases rank,
{
    if rank == 0 {
        Seq::empty()
    } else {
        below_rank(streams, (rank - 1) as nat) + at_rank(streams, (rank - 1) as u8)
    }
}

/// The meters of the streams, in the order in which they are shown; two of one kind stay as they
/// come.
pub fn meters_for(streams: &[AudioTrackKind]) -> (meters: Vec<MeterState>)
    ensures
        meters@.map_values(|m: MeterState| m.kind) == below_rank(streams@, 5),
        forall|i: int|
            0 <= i < meters@.len() ==> #[trigger] meters@[i] == silent_meter(meters@[i].kind),
{
    let mut meters: Vec<MeterState> = Vec::new();
    let ghost kinds = |m: MeterState| m.kind;
    let mut rank: u8 = 0;
    assert(meters@.map_values(kinds) =~= below_rank(streams@, 0));
    while rank < 5
        invariant
            rank <= 5,
            kinds == (|m: MeterState| m.kind),
            meters@.map_values(kinds) == below_rank(streams@, rank as nat),
            forall|i: int|
                0 <= i < meters@.len() ==> #[trigger] meters@[i] == silent_meter(meters@[i].kind),
        decreases 5 - rank,
    {
        let ghost before = meters@;
        let ghost wanted = |kind: AudioTrackKind| meter_rank(kind) == rank;
        let n: usize = streams.len();
        let mut i: usize = 0;
        assert(streams@.take(0).filter(wanted) =~= Seq::empty()) by {
            reveal(Seq::filter);
        }
        assert(meters@.map_values(kinds) =~= before.map_values(kinds) + streams@.take(0).filter(
            wanted,
        ));
        while i < n
            invariant
                i <= n,
                n == streams@.len(),
                kinds == (|m: MeterState| m.kind),
                wanted == (|kind: AudioTrackKind| meter_rank(kind) == rank),
                meters@.map_values(kinds) == before.map_values(kinds) + streams@.take(
                    i as int,
                ).filter(wanted),
                forall|k: int|
                    0 <= k < meters@.len() ==> #[trigger] meters@[k] == silent_meter(
                        meters@[k].kind,
                    ),
            decreases n - i,
        {
            let ghost so_far = meters@;
            assert(streams@.take(i + 1).drop_last() =~= streams@.take(i as int));
            assert(streams@.take(i + 1).last() == streams@[i as int]);
            reveal(Seq::filter);
            if meter_display_order(streams[i]) == rank {
                meters.push(MeterState::new(streams[i]));
                assert(meters@.map_values(kinds) =~= so_far.map_values(kinds).push(
                    streams@[i as int],
                ));
            }
            assert(meters@.map_values(kinds) =~= before.map_values(kinds) + streams@.take(
                i + 1,
            ).filter(wanted));
            i = i + 1;
        }
        assert(streams@.take(n as int) =~= streams@);
        assert(meters@.map_values(kinds) == below_rank(streams@, rank as nat) + at_rank(
            streams@,
            rank,
        ));
        rank = rank + 1;
    }
    meters
}

/// Texts, with commas between them.
pub open spec fn listed(words: Seq<&'static str>) -> Seq<char>
    decreases words.len(),
{
    if words.len() == 0 {
        Seq::empty()
    } else if words.len() == 1 {
        words[0]@
    } else {
        listed(words.drop_last()) + ", "@ + words.last()@
    }
}

/// What the restart banner says: the changes that wait for a restart.
pub fn restart_line(pending: &Vec<&'static str>) -> (line: String)
    ensures
        line@ == "⟳ Restart to apply "@ + listed(pending@) + "."@,
{
    let ghost head = "⟳ Restart to apply "@;
    let mut line: String = String::from_str("⟳ Restart to apply ");
    let n: usize = pending.len();
    let mut i: usize = 0;
    assert(head + listed(pending@.take(0)) =~= head);
    while i < n
        invariant
            i <= n,
            n == pending@.len(),
            head == "⟳ Restart to apply "@,
            line@ == head + listed(pending@.take(i as int)),
        decreases n - i,
    {
        let ghost words = pending@.take(i + 1);
        assert(words.drop_last() =~= pending@.take(i as int));
        let ghost before = line@;
        if i > 0 {
            line.append(", ");
            line.append(pending[i]);
            assert(line@ =~= head + listed(words));
        } else {
            assert(pending@.take(0).len() == 0);
            line.append(pending[i]);
            assert(words[0] == pending@[0]);
            assert(line@ =~= head + listed(words));
        }
        i = i + 1;
    }
    assert(pending@.take(n as int) =~= pending@);
    line.append(".");
    line
}

/// What is said of a folder that cannot be made.
pub fn folder_error(dir: &str, why: &str) -> (s: String)
    ensures
        s@ == "output folder: "@ + dir@ + " — "@ + why@,
{
    let mut s: String = String::from_str("output folder: ");
    s.append(dir);
    s.append(" — ");
    s.append(why);
    s
}

/// What is said of a draft that could not be applied.
pub fn apply_error(why: &str) -> (s: String)
    ensures
        s@ == "Couldn't apply — "@ + why@,
{
    let mut s: String = String::from_str("Couldn't apply — ");
    s.append(why);
    s
}

/// The line on a running recording.
pub fn recording_line(started_unix_ms: u64, now_unix_ms: u64) -> (line: String)
    ensures
        line@ == "Recording — "@ + record_elapsed_text(started_unix_ms as int, now_unix_ms as int),
{
    let mut line: String = String::from_str("Recording — ");
    let elapsed: String = record_elapsed_mmss(started_unix_ms, now_unix_ms);
    line.append(elapsed.as_str());
    line
}

/// The line on the engine's state.
pub fn state_line(state: TrayState) -> (line: String)
    ensures
        line@ == "State: "@ + state_word(state),
{
    let mut line: String = String::from_str("State: ");
    let (word, _): (&'static str, [u8; 4]) = state_display(state);
    line.append(word);
    line
}

/// The line on the encoder's adapter, where one is known.
pub fn adapter_line(s: &StatusSnapshot) -> (line: Option<String>)
    ensures
        line is Some <==> s.adapter@.len() > 0,
        line matches Some(text) ==> text@ == "Encoder GPU: "@ + s.adapter@,
{
    if s.adapter.as_str().unicode_len() == 0 {
        return None;
    }
    let mut line: String = String::from_str("Encoder GPU: ");
    line.append(s.adapter.as_str());
    Some(line)
}

/// The line on what the ring holds: seconds and mebibytes to a tenth, halves to the even one.
pub open spec fn fill_text(s: StatusSnapshot) -> Seq<char> {
    "Buffer: "@ + tenths_text(rounded(s.held_ticks * 10, TICKS_PER_SECOND as int)) + " s / "@
        + decimal(s.configured_seconds as int) + " s held · "@ + tenths_text(
        rounded(s.held_bytes * 10, 0x10_0000),
    ) + " MiB"@
}

/// The line on what the ring holds.
pub fn fill_line(s: &StatusSnapshot) -> (line: String)
    ensures
        line@ == fill_text(*s),
{
    let mut line: String = String::from_str("Buffer: ");
    let seconds: u128 = round_ratio(s.held_ticks as u128 * 10, TICKS_PER_SECOND as u128);
    push_tenths(&mut line, seconds as u64);
    line.append(" s / ");
    push_decimal(&mut line, s.configured_seconds as u64);
    line.append(" s held · ");
    let mib: u128 = round_ratio(s.held_bytes as u128 * 10, 0x10_0000);
    push_tenths(&mut line, mib as u64);
    line.append(" MiB");
    line
}

} // verus!
