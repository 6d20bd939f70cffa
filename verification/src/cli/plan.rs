//! What a run is set up with, and what is said of it.

use vstd::prelude::*;

use crate::cli::args::{BufferArgs, EncoderOverrides, RecordArgs};
use crate::config::{
    app_views, copy_apps, CaptureTarget, Config, NamedTarget, Quality, Resolution, VcApp,
};
use crate::constants::encoder::NVENC_CQ;
use crate::constants::ring::{
    gop_frames, IDR_INTERVAL_SECONDS, MAX_BUFFER_SECONDS, PRECISE_MODE_IDR_INTERVAL_SECONDS,
};
use crate::constants::PRODUCT_NAME;
use crate::gpu::AdapterSelection;
use crate::text::{decimal, push_decimal, said, trim, trimmed};
use crate::ui::settings::mic::{mic_is_on, mic_on};

verus! {

/// What the capture takes.
#[derive(Debug, Clone, Copy, PartialEq, Eq, Structural)]
pub enum CaptureSource {
    PrimaryMonitor,
    FocusedWindow,
    /// The monitor with this number.
    Monitor(u32),
}

/// What a target has the capture take.
pub open spec fn source_of(target: CaptureTarget) -> CaptureSource {
    match target {
        CaptureTarget::Named(NamedTarget::Primary) => CaptureSource::PrimaryMonitor,
        CaptureTarget::Named(NamedTarget::FocusedWindow) => CaptureSource::FocusedWindow,
        CaptureTarget::Monitor(index) => CaptureSource::Monitor(index),
    }
}

/// What a target has the capture take.
pub fn capture_source(target: &CaptureTarget) -> (source: CaptureSource)
    ensures
        source == source_of(*target),
{
    match target {
        CaptureTarget::Named(NamedTarget::Primary) => CaptureSource::PrimaryMonitor,
        CaptureTarget::Named(NamedTarget::FocusedWindow) => CaptureSource::FocusedWindow,
        CaptureTarget::Monitor(index) => CaptureSource::Monitor(*index),
    }
}

/// What a target is called.
pub open spec fn target_words(target: CaptureTarget) -> Seq<char> {
    match target {
        CaptureTarget::Named(NamedTarget::Primary) => "primary monitor"@,
        CaptureTarget::Named(NamedTarget::FocusedWindow) => "focused window"@,
        CaptureTarget::Monitor(index) => "monitor "@ + decimal(index as int),
    }
}

/// What a target is called.
pub fn target_label(target: &CaptureTarget) -> (s: String)
    ensures
        s@ == target_words(*target),
{
    match target {
        CaptureTarget::Named(NamedTarget::Primary) => String::from_str("primary monitor"),
        CaptureTarget::Named(NamedTarget::FocusedWindow) => String::from_str("focused window"),
        CaptureTarget::Monitor(index) => {
            let mut s: String = String::from_str("monitor ");
            push_decimal(&mut s, *index as u64);
            s
        },
    }
}

/// What is heard, in a word.
pub open spec fn audio_words(desktop: bool, mic: bool) -> Seq<char> {
    match (desktop, mic) {
        (true, true) => "mix+mic"@,
        (true, false) => "mix"@,
        (false, true) => "mic"@,
        (false, false) => "none"@,
    }
}

/// What is heard, in a word.
pub fn audio_desc(desktop: bool, mic: bool) -> (s: &'static str)
    ensures
        s@ == audio_words(desktop, mic),
{
    match (desktop, mic) {
        (true, true) => "mix+mic",
        (true, false) => "mix",
        (false, true) => "mic",
        (false, false) => "none",
    }
}

/// The ring of a recording: kept small, since the recording goes to disk as it comes.
pub const RECORD_RING_SECONDS: u32 = 2;

/// How long a timed recording has to wind up before the program ends.
pub const RECORD_EXIT_GRACE_SECS: u64 = 2;

/// The parts of a run that the engine is set up with.
#[derive(Debug, Clone, PartialEq, Eq)]
pub struct BufferParams {
    pub capture_source: CaptureSource,
    pub adapter: AdapterSelection,
    pub resolution: Resolution,
    pub quality: Quality,
    pub fps: u32,
    pub cursor: bool,
    pub cq: u32,
    pub gop_frames: u32,
    pub desktop_audio: bool,
    pub mic_audio: bool,
    pub mic: String,
    pub separate_tracks: bool,
    pub track_game: bool,
    pub track_voice_chat: bool,
    pub track_other_system: bool,
    pub vc_apps: Vec<VcApp>,
    pub audio_bitrate_bps: u32,
    pub buffer_seconds: u32,
    pub clear_after_save: bool,
    pub output_dir: String,
    pub save_hotkey_id: u32,
    pub record_hotkey_id: u32,
    /// Save every so many seconds.
    pub autosave: Option<u64>,
    /// Stop the recording after so many seconds.
    pub record_auto: Option<u64>,
    pub record_out: Option<String>,
    pub record_autostart: bool,
    pub simulate_loss_after: Option<u64>,
    pub overrides: EncoderOverrides,
}

/// How often a keyframe comes.
pub open spec fn idr_seconds(precise: bool) -> i64 {
    if precise {
        PRECISE_MODE_IDR_INTERVAL_SECONDS
    } else {
        IDR_INTERVAL_SECONDS
    }
}

/// Whether a run takes from the settings what it has to: picture and sound.
pub open spec fn follows(p: BufferParams, cfg: Config) -> bool {
    &&& p.capture_source == source_of(cfg@.capture.target)
    &&& p.adapter == AdapterSelection::Auto
    &&& p.resolution == cfg@.encode.resolution
    &&& p.quality == cfg@.encode.quality
    &&& p.fps == cfg@.capture.fps
    &&& p.cursor == cfg@.capture.cursor
    &&& p.cq == NVENC_CQ[0]
    &&& p.gop_frames == (idr_seconds(cfg@.buffer.precise_mode) * cfg@.capture.fps) % 0x1_0000_0000
    &&& p.desktop_audio == cfg@.desktop
    &&& p.mic_audio == mic_on(cfg@.mic)
    &&& p.mic@ == cfg@.mic
    &&& p.separate_tracks == cfg@.separate_tracks
    &&& p.track_game == cfg@.tracks.game
    &&& p.track_voice_chat == cfg@.tracks.voice_chat
    &&& p.track_other_system == cfg@.tracks.other_system
    &&& app_views(p.vc_apps@) == cfg@.vc_apps
    &&& p.audio_bitrate_bps == cfg@.bitrate_bps
    &&& p.clear_after_save == cfg@.buffer.clear_after_save
}

/// The length of a group of pictures for the settings.
fn gop_for(cfg: &Config) -> (frames: u32)
    ensures
        frames == (idr_seconds(cfg@.buffer.precise_mode) * cfg@.capture.fps) % 0x1_0000_0000,
{
    let interval: i64 = if cfg.buffer.precise_mode {
        PRECISE_MODE_IDR_INTERVAL_SECONDS
    } else {
        IDR_INTERVAL_SECONDS
    };
    gop_frames(interval, cfg.capture.fps)
}

/// What every run is set up with: a ring of some length, no hotkeys, and nothing that it does by
/// itself.
fn params_of(
    cfg: &Config,
    buffer_seconds: u32,
    output_dir: String,
    overrides: EncoderOverrides,
) -> (p: BufferParams)
    ensures
        follows(p, *cfg),
        p.buffer_seconds == buffer_seconds,
        p.output_dir@ == output_dir@,
        p.save_hotkey_id == 0,
        p.record_hotkey_id == 0,
        p.autosave is None,
        p.record_auto is None,
        p.record_out is None,
        !p.record_autostart,
        p.simulate_loss_after is None,
        p.overrides@ == overrides@,
{
    BufferParams {
        capture_source: capture_source(&cfg.capture.target),
        adapter: AdapterSelection::Auto,
        resolution: cfg.encode.resolution,
        quality: cfg.encode.quality,
        fps: cfg.capture.fps,
        cursor: cfg.capture.cursor,
        cq: NVENC_CQ[0] as u32,
        gop_frames: gop_for(cfg),
        desktop_audio: cfg.audio.desktop,
        mic_audio: mic_is_on(cfg.audio.mic.as_str()),
        mic: cfg.audio.mic.clone(),
        separate_tracks: cfg.audio.separate_tracks,
        track_game: cfg.audio.tracks.game,
        track_voice_chat: cfg.audio.tracks.voice_chat,
        track_other_system: cfg.audio.tracks.other_system,
        vc_apps: copy_apps(&cfg.audio.vc_apps),
        audio_bitrate_bps: cfg.audio.bitrate_bps,
        buffer_seconds,
        clear_after_save: cfg.buffer.clear_after_save,
        output_dir,
        save_hotkey_id: 0,
        record_hotkey_id: 0,
        autosave: None,
        record_auto: None,
        record_out: None,
        record_autostart: false,
        simulate_loss_after: None,
        overrides,
    }
}

/// What a recording is set up with: it starts at once, keeps a small ring, and has no hotkeys.
pub fn record_params(cfg: &Config, args: RecordArgs, output_dir: String) -> (p: BufferParams)
    ensures
        follows(p, *cfg),
        p.buffer_seconds == RECORD_RING_SECONDS,
        p.output_dir@ == output_dir@,
        p.save_hotkey_id == 0,
        p.record_hotkey_id == 0,
        p.autosave is None,
        p.record_auto == args@.seconds,
        said(p.record_out) == args@.out,
        p.record_autostart,
        p.simulate_loss_after == args@.simulate,
        p.overrides@ == args@.overrides,
{
    let mut p: BufferParams = params_of(cfg, RECORD_RING_SECONDS, output_dir, args.overrides);
    p.record_auto = args.seconds;
    p.record_out = args.out;
    p.record_autostart = true;
    p.simulate_loss_after = args.simulate;
    p
}

/// How many seconds are kept: those asked for, or those of the settings, within bounds.
pub open spec fn kept_seconds(asked: Option<u32>, configured: u32) -> u32 {
    let wanted = match asked {
        Some(n) => n,
        None => configured,
    };
    if wanted < 1 {
        1
    } else if wanted > MAX_BUFFER_SECONDS {
        MAX_BUFFER_SECONDS
    } else {
        wanted
    }
}

/// How many seconds are kept.
pub fn buffer_seconds(asked: Option<u32>, configured: u32) -> (n: u32)
    ensures
        n == kept_seconds(asked, configured),
{
    let wanted: u32 = match asked {
        Some(n) => n,
        None => configured,
    };
    if wanted < 1 {
        1
    } else if wanted > MAX_BUFFER_SECONDS {
        MAX_BUFFER_SECONDS
    } else {
        wanted
    }
}

/// Whether the tray is shown: not where a test runs by itself.
pub fn use_tray(args: &BufferArgs) -> (b: bool)
    ensures
        b == (args@.autosave is None && args@.record_secs is None && args@.simulate is None),
{
    args.autosave.is_none() && args.record_secs.is_none() && args.simulate.is_none()
}

/// What a buffer is set up with: it records by itself only where a test asks for that.
pub fn buffer_params(
    cfg: &Config,
    args: BufferArgs,
    output_dir: String,
    save_hotkey_id: u32,
    record_hotkey_id: u32,
) -> (p: BufferParams)
    ensures
        follows(p, *cfg),
        p.buffer_seconds == kept_seconds(args@.seconds, cfg@.buffer.seconds),
        p.output_dir@ == output_dir@,
        p.save_hotkey_id == save_hotkey_id,
        p.record_hotkey_id == record_hotkey_id,
        p.autosave == args@.autosave,
        p.record_auto == args@.record_secs,
        p.record_out is None,
        p.record_autostart == (args@.record_secs is Some),
        p.simulate_loss_after == args@.simulate,
        p.overrides@ == args@.overrides,
{
    let seconds: u32 = buffer_seconds(args.seconds, cfg.buffer.seconds);
    let mut p: BufferParams = params_of(cfg, seconds, output_dir, args.overrides);
    p.save_hotkey_id = save_hotkey_id;
    p.record_hotkey_id = record_hotkey_id;
    p.autosave = args.autosave;
    p.record_auto = args.record_secs;
    p.record_autostart = args.record_secs.is_some();
    p.simulate_loss_after = args.simulate;
    p
}

/// The folder that a setting stands for: the usual one where it is blank.
pub open spec fn dir_meant(set: Seq<char>, usual: Seq<char>) -> Seq<char> {
    if trimmed(set).len() == 0 {
        usual
    } else {
        set
    }
}

/// The folder that a setting stands for.
pub fn resolve_output_dir(set: &str, usual: &str) -> (dir: String)
    ensures
        dir@ == dir_meant(set@, usual@),
{
    if trim(set).unicode_len() == 0 {
        String::from_str(usual)
    } else {
        String::from_str(set)
    }
}

/// The folder that clips go to: the configured one, or another where that cannot be made.
pub fn prepared_dir(resolved: String, made: bool, fallback: String) -> (dir: String)
    ensures
        dir@ == if made {
            resolved@
        } else {
            fallback@
        },
{
    if made {
        resolved
    } else {
        fallback
    }
}

/// After how many seconds a recording's program ends, where it is timed: late enough for the
/// recording to wind up.
pub fn exit_after(seconds: Option<u64>) -> (r: Option<u64>)
    requires
        seconds matches Some(n) ==> n + RECORD_EXIT_GRACE_SECS <= u64::MAX,
    ensures
        r == match seconds {
            Some(n) => Some((n + RECORD_EXIT_GRACE_SECS) as u64),
            None => None,
        },
{
    match seconds {
        Some(n) => Some(n + RECORD_EXIT_GRACE_SECS),
        None => None,
    }
}

/// The line that a recording begins with.
pub open spec fn record_text(p: BufferParams, target: CaptureTarget) -> Seq<char> {
    "recording "@ + target_words(target) + " @ "@ + decimal(p.fps as int) + (match p.record_auto {
        Some(n) => " fps (VBR) for "@ + decimal(n as int) + "s; audio: "@,
        None => " fps (VBR) until Enter; audio: "@,
    }) + audio_words(p.desktop_audio, p.mic_audio)
}

/// The line that a recording begins with.
pub fn record_banner(p: &BufferParams, target: &CaptureTarget) -> (line: String)
    ensures
        line@ == record_text(*p, *target),
{
    let mut line: String = String::from_str("recording ");
    let name: String = target_label(target);
    line.append(name.as_str());
    line.append(" @ ");
    push_decimal(&mut line, p.fps as u64);
    match p.record_auto {
        Some(n) => {
            let mut span: String = String::from_str(" fps (VBR) for ");
            push_decimal(&mut span, n);
            span.append("s; audio: ");
            line.append(span.as_str());
        },
        None => {
            line.append(" fps (VBR) until Enter; audio: ");
        },
    }
    line.append(audio_desc(p.desktop_audio, p.mic_audio));
    line
}

/// The line that says where a recording goes.
pub fn record_target_line(p: &BufferParams) -> (line: String)
    ensures
        line@ == match p.record_out {
            Some(out) => "-> "@ + out@,
            None => "-> "@ + p.output_dir@ + "\\"@ + PRODUCT_NAME@ + "_rec_*.mp4"@,
        },
{
    let mut line: String = String::from_str("-> ");
    match &p.record_out {
        Some(out) => {
            line.append(out.as_str());
        },
        None => {
            line.append(p.output_dir.as_str());
            line.append("\\");
            line.append(PRODUCT_NAME);
            line.append("_rec_*.mp4");
        },
    }
    line
}

/// The line that a buffer begins with.
pub fn buffer_banner(p: &BufferParams, target: &CaptureTarget) -> (line: String)
    ensures
        line@ == "buffering "@ + target_words(*target) + " @ "@ + decimal(p.fps as int)
            + " fps (VBR); audio: "@ + audio_words(p.desktop_audio, p.mic_audio) + "; last "@
            + decimal(p.buffer_seconds as int) + "s retained; clips -> "@ + p.output_dir@,
{
    let mut line: String = String::from_str("buffering ");
    let name: String = target_label(target);
    line.append(name.as_str());
    line.append(" @ ");
    push_decimal(&mut line, p.fps as u64);
    line.append(" fps (VBR); audio: ");
    line.append(audio_desc(p.desktop_audio, p.mic_audio));
    line.append("; last ");
    push_decimal(&mut line, p.buffer_seconds as u64);
    line.append("s retained; clips -> ");
    line.append(p.output_dir.as_str());
    line
}

/// The line that names a buffer's hotkeys.
pub fn hotkey_banner(p: &BufferParams, save_clip: &str, record_toggle: &str) -> (line: String)
    ensures
        line@ == "press ["@ + save_clip@ + "] to save the last "@ + decimal(
            p.buffer_seconds as int,
        ) + "s; ["@ + record_toggle@ + "] to start/stop recording; press Enter to quit"@,
{
    let mut line: String = String::from_str("press [");
    line.append(save_clip);
    line.append("] to save the last ");
    push_decimal(&mut line, p.buffer_seconds as u64);
    line.append("s; [");
    line.append(record_toggle);
    line.append("] to start/stop recording; press Enter to quit");
    line
}

/// What is said of saves that come by themselves.
pub open spec fn autosave_words(secs: Option<u64>) -> Seq<char> {
    match secs {
        Some(n) => "(--autosave "@ + decimal(n as int) + "s: auto-firing a save every "@ + decimal(
            n as int,
        ) + "s for acceptance testing)\n"@,
        None => ""@,
    }
}

/// What is said of a device that is lost on purpose.
pub open spec fn simulate_words(secs: Option<u64>) -> Seq<char> {
    match secs {
        Some(n) => "(--simulate-device-loss "@ + decimal(n as int)
            + "s: injecting a synthetic device loss to test the §7 restart)\n"@,
        None => ""@,
    }
}

/// What is said of a recording that comes by itself.
pub open spec fn record_secs_words(secs: Option<u64>) -> Seq<char> {
    match secs {
        Some(n) => "(--record-secs "@ + decimal(n as int) + "s: auto-recording "@ + decimal(
            n as int,
        ) + "s to disk for acceptance testing)\n"@,
        None => ""@,
    }
}

/// What is said of a buffer that acts by itself: a line for each thing that it does.
pub fn hook_lines(args: &BufferArgs) -> (text: String)
    ensures
        text@ == autosave_words(args@.autosave) + simulate_words(args@.simulate)
            + record_secs_words(args@.record_secs),
{
    let mut text: String = match args.autosave {
        Some(n) => {
            let mut s: String = String::from_str("(--autosave ");
            push_decimal(&mut s, n);
            s.append("s: auto-firing a save every ");
            push_decimal(&mut s, n);
            s.append("s for acceptance testing)\n");
            s
        },
        None => String::from_str(""),
    };
    let simulate: String = match args.simulate {
        Some(n) => {
            let mut s: String = String::from_str("(--simulate-device-loss ");
            push_decimal(&mut s, n);
            s.append("s: injecting a synthetic device loss to test the §7 restart)\n");
            s
        },
        None => String::from_str(""),
    };
    let record: String = match args.record_secs {
        Some(n) => {
            let mut s: String = String::from_str("(--record-secs ");
            push_decimal(&mut s, n);
            s.append("s: auto-recording ");
            push_decimal(&mut s, n);
            s.append("s to disk for acceptance testing)\n");
            s
        },
        None => String::from_str(""),
    };
    text.append(simulate.as_str());
    text.append(record.as_str());
    text
}

/// Whether another attempt is made to open the device, after so many failed. Where it was lost, it
/// may take a while to come back.
pub fn try_again(is_rebuild: bool, failed: u32) -> (again: bool)
    ensures
        again == (is_rebuild && failed < REBUILD_ATTEMPTS),
{
    is_rebuild && failed < REBUILD_ATTEMPTS
}

/// How often it is tried to open a device that was lost.
pub const REBUILD_ATTEMPTS: u32 = 20;

/// Whether the stages are compared in a round of the session: in every tenth.
pub fn compares_stages(round: u32) -> (b: bool)
    ensures
        b == (round % 10 == 0),
{
    round % 10 == 0
}

/// An average in kilobits a second, zero over no time. `bytes` are counted in whole kilobits.
pub open spec fn average_kbps(bytes: int, seconds: int) -> int {
    if seconds == 0 {
        0
    } else {
        (bytes * 8 / 1000) / seconds
    }
}

/// An average in kilobits a second.
pub fn avg_kbps(bytes: u64, seconds: u64) -> (kbps: u64)
    requires
        bytes * 8 <= u64::MAX,
    ensures
        kbps == average_kbps(bytes as int, seconds as int),
{
    if seconds == 0 {
        0
    } else {
        (bytes * 8 / 1000) / seconds
    }
}

} // verus!
