//! The settings window: its lines, its choices, and its editor.

use clipd::audio::{AudioDevice, AudioTrackKind};
use clipd::config::{
    AudioConfig, BufferConfig, CaptureConfig, CaptureTarget, Config, EncodeConfig, HotkeyConfig,
    NamedTarget, OutputConfig, Quality, Resolution, TrackConfig,
};
use clipd::constants::PRODUCT_NAME;
use clipd::engine::{EngineCommand, TrayState};
use clipd::hotkey::parse_hotkey;
use clipd::status::{CaptureTarget as Shown, EngineStatus, SaveOutcome};
use clipd::ui::settings::commit::{Action, Event, Stage};
use clipd::ui::settings::editor::{banner_visible, Editor, HotkeyNote, Reply};
use clipd::ui::settings::keys::{
    accelerator_from, availability_text, capture_combo, check_hotkeys, key_to_token, note_conflict, same_hotkey,
    taken_message, Availability, CaptureResult, HotkeyTarget, KeyEvent, Modifiers, RebindOutcome,
};
use clipd::ui::settings::lines::{
    adapter_line, apply_error, capture_line, elapsed_label, estimate_canvas, fill_line, first_run_line, folder_error, format_buffer_len,
    format_mmss, frames_line, last_save_line, meter_display_order, meters_for, quality_label,
    record_elapsed_mmss, recording_line, resolution_label, restart_line, state_display, state_line, MeterState,
};
use clipd::ui::settings::mic::{mic_is_device_swap, mic_is_on, mic_options, MicChoice};
use clipd::ui::theme::{AMBER, BAD, GOOD, WARN};
use clipd::ui::settings::window::{
    frame, observe_place, OpenStep, Placed, SettingsHandle, Shared,
};

#[test]
fn format_mmss_pads_seconds() {
    assert_eq!(format_mmss(0), "0:00");
    assert_eq!(format_mmss(5), "0:05");
    assert_eq!(format_mmss(65), "1:05");
    assert_eq!(format_mmss(600), "10:00");
    assert_eq!(format_mmss(3599), "59:59");
    assert_eq!(format_mmss(3600), "60:00");
}

#[test]
fn meter_display_order_puts_mic_first_and_marks_secondary() {
    let (mix, game, voice, other, mic) = (
        AudioTrackKind::Mix,
        AudioTrackKind::Game,
        AudioTrackKind::VoiceChat,
        AudioTrackKind::OtherSystem,
        AudioTrackKind::Mic,
    );
    let mut kinds = vec![mix, game, voice, other, mic];
    kinds.sort_by_key(|k| meter_display_order(*k));
    assert_eq!(kinds, vec![mic, mix, game, voice, other]);
    assert!(MeterState::new(game).is_secondary());
    assert!(MeterState::new(voice).is_secondary());
    assert!(MeterState::new(other).is_secondary());
    assert!(!MeterState::new(mic).is_secondary());
    assert!(!MeterState::new(mix).is_secondary());
    let meters: Vec<AudioTrackKind> = meters_for(&[mix, game, voice, other, mic])
        .iter()
        .map(|m| m.kind)
        .collect();
    assert_eq!(meters, vec![mic, mix, game, voice, other]);
}

#[test]
fn format_buffer_len_reads_naturally() {
    assert_eq!(format_buffer_len(30), "30 s");
    assert_eq!(format_buffer_len(59), "59 s");
    assert_eq!(format_buffer_len(60), "1 min");
    assert_eq!(format_buffer_len(120), "2 min");
    assert_eq!(format_buffer_len(90), "1 min 30 s");
}

#[test]
fn first_run_line_names_the_hotkey_and_length() {
    let line = first_run_line("Ctrl+Alt+S", 45);
    assert!(line.contains("Ctrl+Alt+S"), "line = {line}");
    assert!(line.contains("45 s"), "line = {line}");
    assert!(line.contains(PRODUCT_NAME), "line = {line}");
}

#[test]
fn mic_choice_roundtrips() {
    assert_eq!(MicChoice::from_cfg("default-follow"), MicChoice::Follow);
    assert_eq!(MicChoice::from_cfg("  default-follow "), MicChoice::Follow);
    assert_eq!(MicChoice::from_cfg("off"), MicChoice::Off);
    assert_eq!(
        MicChoice::from_cfg("{0.0.1.00000000}.{abc}"),
        MicChoice::Pinned("{0.0.1.00000000}.{abc}".to_string())
    );
    assert_eq!(MicChoice::Follow.to_cfg(), "default-follow");
    assert_eq!(MicChoice::Off.to_cfg(), "off");
    assert_eq!(
        MicChoice::Pinned("  dev-id ".to_string()).to_cfg(),
        "dev-id"
    );
    assert_eq!(MicChoice::Pinned(String::new()).to_cfg(), "");
}

fn dev(id: &str, name: &str) -> AudioDevice {
    AudioDevice {
        id: id.to_string(),
        name: name.to_string(),
    }
}

#[test]
fn mic_label_resolves_name_or_marks_unavailable() {
    let devices = vec![
        dev("id-fifine", "FIFINE Microphone"),
        dev("id-rt", "Realtek"),
    ];
    assert_eq!(MicChoice::Follow.label(&devices), "Default (follow)");
    assert_eq!(MicChoice::Off.label(&devices), "Off (no mic)");
    assert_eq!(
        MicChoice::Pinned("id-fifine".to_string()).label(&devices),
        "FIFINE Microphone"
    );
    assert_eq!(
        MicChoice::Pinned("  id-rt ".to_string()).label(&devices),
        "Realtek"
    );
    assert_eq!(
        MicChoice::Pinned("id-gone".to_string()).label(&devices),
        "Unavailable: id-gone"
    );
    assert_eq!(
        MicChoice::Pinned(String::new()).label(&devices),
        "Select a device…"
    );
}

#[test]
fn mic_options_lists_policies_devices_and_preserves_unavailable_pin() {
    let devices = vec![dev("id-a", "Mic A"), dev("id-b", "Mic B")];

    let opts = mic_options(&devices, &MicChoice::Follow);
    let labels: Vec<&str> = opts.iter().map(|o| o.label.as_str()).collect();
    assert_eq!(
        labels,
        vec!["Default (follow)", "Off (no mic)", "Mic A", "Mic B"]
    );
    let choices: Vec<MicChoice> = opts.into_iter().map(|o| o.choice).collect();
    assert_eq!(
        choices,
        vec![
            MicChoice::Follow,
            MicChoice::Off,
            MicChoice::Pinned("id-a".to_string()),
            MicChoice::Pinned("id-b".to_string()),
        ]
    );

    let opts = mic_options(&devices, &MicChoice::Pinned("id-a".to_string()));
    assert_eq!(opts.len(), 4, "live pin must not add an entry");

    let opts = mic_options(&devices, &MicChoice::Pinned("id-gone".to_string()));
    assert_eq!(opts.len(), 5);
    let last = opts.last().unwrap();
    assert_eq!(last.label, "Unavailable: id-gone");
    assert_eq!(last.choice, MicChoice::Pinned("id-gone".to_string()));

    let opts = mic_options(&[], &MicChoice::Pinned("id-manual".to_string()));
    let labels: Vec<&str> = opts.iter().map(|o| o.label.as_str()).collect();
    assert_eq!(
        labels,
        vec!["Default (follow)", "Off (no mic)", "Unavailable: id-manual"]
    );

    let opts = mic_options(&devices, &MicChoice::Pinned("  ".to_string()));
    assert_eq!(opts.len(), 4);
}

#[test]
fn estimate_canvas_is_16x9() {
    assert_eq!(estimate_canvas(Resolution::Native), (1920, 1080));
    assert_eq!(estimate_canvas(Resolution::P1080), (1920, 1080));
    assert_eq!(estimate_canvas(Resolution::P720), (1280, 720));
    assert_eq!(estimate_canvas(Resolution::P1440), (2560, 1440));
}

fn config() -> Config {
    Config {
        capture: CaptureConfig {
            fps: 60,
            cursor: true,
            target: CaptureTarget::Named(NamedTarget::Primary),
        },
        encode: EncodeConfig {
            quality: Quality::Default,
            resolution: Resolution::P1080,
        },
        buffer: BufferConfig {
            seconds: 30,
            clear_after_save: false,
            precise_mode: false,
        },
        output: OutputConfig { dir: String::new() },
        audio: AudioConfig {
            desktop: true,
            mic: "default-follow".to_string(),
            bitrate_bps: 192_000,
            separate_tracks: false,
            tracks: TrackConfig {
                game: true,
                voice_chat: true,
                other_system: true,
            },
            vc_apps: Vec::new(),
        },
        hotkeys: HotkeyConfig {
            save_clip: "Ctrl+Alt+S".to_string(),
            record_toggle: "Ctrl+Alt+R".to_string(),
        },
    }
}

fn test_editor() -> Editor {
    Editor::load(config(), Vec::new(), false)
}

#[test]
fn key_to_token_maps_bindable_keys_only() {
    assert_eq!(key_to_token("A").as_deref(), Some("A"));
    assert_eq!(key_to_token("S").as_deref(), Some("S"));
    assert_eq!(key_to_token("1").as_deref(), Some("1"));
    assert_eq!(key_to_token("F9").as_deref(), Some("F9"));
    assert_eq!(key_to_token("Escape"), None);
    assert_eq!(key_to_token("Up"), None);
    assert_eq!(key_to_token("Space"), None);
}

const NO_MODS: Modifiers = Modifiers {
    ctrl: false,
    alt: false,
    shift: false,
};

#[test]
fn accelerator_from_requires_primary_modifier_and_parses() {
    let ctrl_alt = Modifiers {
        ctrl: true,
        alt: true,
        ..NO_MODS
    };
    let combo = accelerator_from(ctrl_alt, "S").expect("ctrl+alt+S is valid");
    assert_eq!(combo, "Ctrl+Alt+S");
    assert!(parse_hotkey(&combo).is_ok());

    let ctrl = Modifiers {
        ctrl: true,
        ..NO_MODS
    };
    assert_eq!(accelerator_from(ctrl, "F9").as_deref(), Some("Ctrl+F9"));

    let shift = Modifiers {
        shift: true,
        ..NO_MODS
    };
    assert_eq!(accelerator_from(shift, "S"), None);
    assert_eq!(accelerator_from(NO_MODS, "S"), None);
    assert_eq!(accelerator_from(ctrl_alt, "Escape"), None);

    let all = Modifiers {
        ctrl: true,
        alt: true,
        shift: true,
    };
    assert_eq!(
        accelerator_from(all, "D").as_deref(),
        Some("Ctrl+Alt+Shift+D")
    );
}

#[test]
fn pretty_and_code_forms_are_the_same_hotkey() {
    assert!(same_hotkey(
        &parse_hotkey("Ctrl+Alt+K").unwrap(),
        &parse_hotkey("Ctrl+Alt+KeyK").unwrap()
    ));
    assert!(same_hotkey(
        &parse_hotkey("Ctrl+Alt+1").unwrap(),
        &parse_hotkey("Ctrl+Alt+Digit1").unwrap()
    ));
    assert!(!same_hotkey(
        &parse_hotkey("Ctrl+Alt+K").unwrap(),
        &parse_hotkey("Ctrl+Alt+L").unwrap()
    ));
}

#[test]
fn validate_hotkeys_rejects_unparseable_and_self_conflict() {
    let mut ed = test_editor();
    assert!(ed.validate_hotkeys().is_ok());
    ed.draft.hotkeys.record_toggle = ed.draft.hotkeys.save_clip.clone();
    assert!(ed.validate_hotkeys().is_err());
    ed.draft.hotkeys.record_toggle = "Ctrl+Alt+Nope".to_string();
    assert!(ed.validate_hotkeys().is_err());
}

#[test]
fn cross_conflict_note_catches_duplicate_both_ways() {
    let mut ed = test_editor();
    assert!(ed.cross_conflict_note(HotkeyTarget::Save).is_none());
    assert!(ed.cross_conflict_note(HotkeyTarget::Record).is_none());

    ed.draft.hotkeys.save_clip = "Ctrl+Alt+S".to_string();
    ed.draft.hotkeys.record_toggle = "Alt+Ctrl+S".to_string();
    assert_eq!(
        ed.cross_conflict_note(HotkeyTarget::Save).as_deref(),
        Some("⚠ same as Record toggle")
    );
    assert_eq!(
        ed.cross_conflict_note(HotkeyTarget::Record).as_deref(),
        Some("⚠ same as Save clip")
    );

    ed.draft.hotkeys.record_toggle = "Ctrl+Alt+Nope".to_string();
    assert!(ed.cross_conflict_note(HotkeyTarget::Save).is_none());
}

#[test]
fn hotkey_target_idx_is_distinct() {
    assert_ne!(HotkeyTarget::Save.idx(), HotkeyTarget::Record.idx());
    assert!(HotkeyTarget::Save.idx() < 2 && HotkeyTarget::Record.idx() < 2);
    assert_eq!(HotkeyTarget::Save.other(), HotkeyTarget::Record);
    assert_eq!(HotkeyTarget::Record.other(), HotkeyTarget::Save);
    assert_eq!(HotkeyTarget::Save.label(), "Save clip");
    assert_eq!(HotkeyTarget::Record.label(), "Record toggle");
}

#[test]
fn availability_check_is_a_noop_without_a_pump() {
    let mut ed = test_editor();
    ed.hotkey_avail[HotkeyTarget::Save.idx()] = Some(Availability::Taken);
    assert!(!ed.start_availability_check(HotkeyTarget::Save));
    assert!(ed.hotkey_check.is_none());
    assert_eq!(ed.hotkey_avail[HotkeyTarget::Save.idx()], None);
    ed.poll_availability(Reply::Pending);
    assert!(ed.hotkey_check.is_none());
}

#[test]
fn an_answer_reaches_the_hotkey_it_was_asked_for() {
    let mut ed = Editor::load(config(), Vec::new(), true);
    assert!(ed.start_availability_check(HotkeyTarget::Record));
    ed.poll_availability(Reply::Pending);
    assert_eq!(ed.hotkey_check, Some(HotkeyTarget::Record));
    ed.poll_availability(Reply::Answer(Availability::Taken));
    assert_eq!(ed.hotkey_check, None);
    assert_eq!(
        ed.hotkey_note(HotkeyTarget::Record),
        HotkeyNote::Found(Availability::Taken)
    );
    assert_eq!(ed.hotkey_note(HotkeyTarget::Save), HotkeyNote::Nothing);
    assert!(ed.start_availability_check(HotkeyTarget::Save));
    ed.poll_availability(Reply::Gone);
    assert_eq!(
        ed.hotkey_note(HotkeyTarget::Save),
        HotkeyNote::Found(Availability::Unknown)
    );
}

#[test]
fn pending_restart_fields_tracks_committed_vs_applied() {
    let mut ed = test_editor();
    assert!(ed.pending_restart_fields().is_empty());
    ed.base.encode.quality = Quality::Max;
    ed.base.capture.fps = 30;
    assert_eq!(ed.pending_restart_fields(), vec!["quality", "frame rate"]);
    ed.base = ed.applied.clone();
    ed.base.buffer.clear_after_save = !ed.applied.buffer.clear_after_save;
    assert!(ed.pending_restart_fields().is_empty());
}

#[test]
fn restart_fields_excludes_the_t2b_live_fields() {
    let mut ed = test_editor();
    ed.draft.hotkeys.save_clip = "Ctrl+Alt+KeyP".to_string();
    ed.draft.hotkeys.record_toggle = "Ctrl+Alt+KeyR".to_string();
    ed.draft.buffer.seconds = ed.base.buffer.seconds + 5;
    ed.draft.audio.mic = "{0.0.1.0}.{some-mic}".to_string();
    assert!(
        ed.restart_required_fields().is_empty(),
        "live fields must not require a restart: {:?}",
        ed.restart_required_fields()
    );
}

#[test]
fn restart_fields_empty_when_unchanged_or_only_hotswap() {
    let mut ed = test_editor();
    assert!(ed.restart_required_fields().is_empty());
    ed.draft.buffer.clear_after_save = !ed.base.buffer.clear_after_save;
    assert!(ed.restart_required_fields().is_empty());
}

#[test]
fn restart_fields_covers_every_restart_only_field() {
    let mut ed = test_editor();
    ed.draft.encode.quality = Quality::Max;
    ed.draft.encode.resolution = Resolution::P720;
    ed.draft.capture.fps = 30;
    ed.draft.buffer.seconds = ed.base.buffer.seconds + 5;
    ed.draft.output.dir = "D:/clips".to_string();
    ed.draft.hotkeys.save_clip = "Ctrl+Alt+KeyP".to_string();
    ed.draft.audio.desktop = !ed.base.audio.desktop;
    ed.draft.audio.mic = "off".to_string();
    assert_eq!(
        ed.restart_required_fields(),
        vec![
            "quality",
            "resolution",
            "frame rate",
            "microphone on/off",
            "game & app sound",
        ]
    );
}

#[test]
fn mic_swap_helpers_classify_on_off_vs_device_swap() {
    assert!(mic_is_on("default-follow"));
    assert!(mic_is_on("{0.0.1.0}.{x}"));
    assert!(!mic_is_on("off"));
    assert!(!mic_is_on("  off "));
    assert!(mic_is_device_swap("default-follow", "{0.0.1.0}.{x}"));
    assert!(mic_is_device_swap("{a}", "default-follow"));
    assert!(!mic_is_device_swap("off", "default-follow"));
    assert!(!mic_is_device_swap("default-follow", "off"));
}

/// Apply a draft where nothing is refused and every hotkey can be bound: what was done, and what the
/// engine was told.
fn commit(ed: &mut Editor, dir: &str) -> (Vec<Action>, Vec<EngineCommand>) {
    let (mut done, mut told) = (Vec::new(), Vec::new());
    let (mut stage, mut event) = (Stage::Idle, Event::Start);
    loop {
        let (next, action, commands) = ed.autocommit(stage, event);
        told.extend(commands);
        event = match action {
            Action::Rest => {
                assert_eq!(next, Stage::Idle);
                return (done, told);
            }
            Action::Check => Event::Checked(Ok(())),
            Action::MakeFolder => Event::FolderMade(Ok(dir.to_string())),
            Action::Bind(_, _) => Event::Bound(RebindOutcome::Applied(7)),
            Action::Write => Event::Wrote(Ok(())),
        };
        done.push(action);
        stage = next;
    }
}

#[test]
fn autocommit_writes_file_hot_applies_and_syncs_base() {
    let mut ed = test_editor();
    ed.draft.output.dir = "D:/clips".to_string();
    ed.draft.encode.quality = Quality::High;
    let new_clear = !ed.base.buffer.clear_after_save;
    ed.draft.buffer.clear_after_save = new_clear;

    let (done, told) = commit(&mut ed, "D:/clips");
    assert_eq!(done, vec![Action::Check, Action::MakeFolder, Action::Write]);

    assert!(ed.last_error.is_none(), "a successful apply is silent");
    assert_eq!(
        told,
        vec![
            EngineCommand::SetClearAfterSave(new_clear),
            EngineCommand::SetOutputDir("D:/clips".to_string()),
        ]
    );
    assert_eq!(ed.base, ed.draft);
    assert_eq!(ed.pending_restart_fields(), vec!["quality"]);
}

#[test]
fn autocommit_hot_applies_replay_length() {
    let mut ed = test_editor();
    let new_len = ed.base.buffer.seconds + 7;
    ed.draft.buffer.seconds = new_len;

    let (_, told) = commit(&mut ed, "");

    assert!(ed.last_error.is_none(), "a successful apply is silent");
    assert_eq!(told, vec![EngineCommand::SetDurationCap(new_len)]);
    assert!(ed.pending_restart_fields().is_empty());
}

#[test]
fn autocommit_invalid_writes_nothing_and_reports_the_error() {
    let mut ed = test_editor();
    ed.mic = MicChoice::Pinned(String::new());

    let (stage, action, told) = ed.autocommit(Stage::Idle, Event::Start);
    assert_eq!((&stage, &action), (&Stage::Checking, &Action::Check));
    assert_eq!(ed.draft.audio.mic, "");
    assert!(told.is_empty());
    let (stage, action, told) =
        ed.autocommit(stage, Event::Checked(Err("audio.mic is empty".to_string())));

    assert!(ed.last_error.is_some());
    assert_eq!((stage, action), (Stage::Idle, Action::Rest));
    assert!(told.is_empty(), "no hot-swap on a rejected apply");
    assert_eq!(ed.base, config());
}

#[test]
fn checks_come_before_bindings_and_bindings_before_the_write() {
    let mut ed = test_editor();
    ed.draft.hotkeys.save_clip = " Ctrl+Alt+P ".to_string();
    ed.draft.hotkeys.record_toggle = "Ctrl+Alt+Q".to_string();
    let (done, told) = commit(&mut ed, "");
    assert_eq!(
        done,
        vec![
            Action::Check,
            Action::MakeFolder,
            Action::Bind(HotkeyTarget::Save, "Ctrl+Alt+P".to_string()),
            Action::Bind(HotkeyTarget::Record, "Ctrl+Alt+Q".to_string()),
            Action::Write,
        ]
    );
    assert_eq!(
        told,
        vec![
            EngineCommand::SetSaveHotkeyId(7),
            EngineCommand::SetRecordHotkeyId(7),
        ]
    );
    assert_eq!(ed.base, ed.draft);
}

#[test]
fn a_refusal_at_any_step_ends_the_attempt() {
    let why = || "no".to_string();
    let refusals = [
        (Stage::Checking, Event::Checked(Err(why()))),
        (Stage::Folder, Event::FolderMade(Err(why()))),
        (Stage::Writing(String::new(), None), Event::Wrote(Err(why()))),
    ];
    for (stage, event) in refusals {
        let mut ed = test_editor();
        ed.draft.buffer.seconds += 1;
        let (stage, action, told) = ed.autocommit(stage, event);
        assert_eq!((&stage, &action), (&Stage::Idle, &Action::Rest));
        assert!(told.is_empty());
        assert_eq!(ed.last_error.as_deref(), Some("no"));
        assert_eq!(ed.base, config());
        let (stage, action, told) = ed.autocommit(stage, Event::Bound(RebindOutcome::Applied(1)));
        assert_eq!((stage, action), (Stage::Idle, Action::Rest));
        assert!(told.is_empty());
    }
    let mut ed = test_editor();
    ed.draft.hotkeys.record_toggle = "Ctrl+Alt+Nope".to_string();
    let (stage, action, told) = ed.autocommit(Stage::Idle, Event::Start);
    assert_eq!((stage, action), (Stage::Idle, Action::Rest));
    assert!(told.is_empty() && ed.last_error.is_some());
}

#[test]
fn the_first_hotkey_that_is_taken_is_named_and_both_are_kept() {
    let mut ed = test_editor();
    ed.draft.hotkeys.save_clip = "Ctrl+Alt+P".to_string();
    ed.draft.hotkeys.record_toggle = "Ctrl+Alt+Q".to_string();
    let (stage, _, _) = ed.autocommit(Stage::Folder, Event::FolderMade(Ok(String::new())));
    let (stage, action, told) = ed.autocommit(stage, Event::Bound(RebindOutcome::Conflict));
    assert_eq!(
        action,
        Action::Bind(HotkeyTarget::Record, "Ctrl+Alt+Q".to_string())
    );
    assert!(told.is_empty());
    let (stage, action, _) = ed.autocommit(stage, Event::Bound(RebindOutcome::Conflict));
    assert_eq!((stage, action), (Stage::Idle, Action::Rest));
    assert_eq!(ed.last_error, Some(taken_message(HotkeyTarget::Save)));
    assert_eq!(ed.draft, config());
}

#[test]
fn a_draft_that_is_refused_changes_nothing_else() {
    let mut ed = test_editor();
    ed.draft.hotkeys.record_toggle = "Ctrl+Alt+Nope".to_string();
    assert!(!ed.ready());
    assert!(ed.last_error.is_some());
    assert_eq!(ed.base, config());
    let mut ed = test_editor();
    ed.mic = MicChoice::Pinned(String::new());
    assert!(ed.ready());
    assert_eq!(ed.draft.audio.mic, "");
    ed.refuse("audio.mic is empty".to_string());
    assert_eq!(ed.last_error.as_deref(), Some("audio.mic is empty"));
    assert_eq!(ed.base, config());
}

#[test]
fn a_hotkey_that_is_taken_keeps_the_old_one() {
    let mut ed = test_editor();
    ed.draft.hotkeys.save_clip = " Ctrl+Alt+P ".to_string();
    ed.draft.hotkeys.record_toggle = "Ctrl+Alt+Q".to_string();
    let wanted = ed.rebinds();
    assert_eq!(
        wanted,
        vec![
            (HotkeyTarget::Save, "Ctrl+Alt+P".to_string()),
            (HotkeyTarget::Record, "Ctrl+Alt+Q".to_string()),
        ]
    );
    let (told, said) = ed.take_rebind(HotkeyTarget::Save, RebindOutcome::Conflict);
    assert_eq!(told, None);
    assert_eq!(said, Some(taken_message(HotkeyTarget::Save)));
    assert_eq!(ed.combo_for(HotkeyTarget::Save), "Ctrl+Alt+S");
    let (told, said) = ed.take_rebind(HotkeyTarget::Record, RebindOutcome::Applied(9));
    assert_eq!(told, Some(EngineCommand::SetRecordHotkeyId(9)));
    assert_eq!(said, None);
    assert_eq!(ed.combo_for(HotkeyTarget::Record), "Ctrl+Alt+Q");
    assert_eq!(
        ed.take_rebind(HotkeyTarget::Record, RebindOutcome::Unknown),
        (None, None)
    );
}

#[test]
fn nothing_to_write_leaves_only_the_conflict() {
    let mut ed = test_editor();
    assert!(!ed.to_write(Some("taken".to_string())));
    assert_eq!(ed.last_error.as_deref(), Some("taken"));
}

#[test]
fn a_microphone_swap_is_told_and_a_flip_waits() {
    let mut ed = test_editor();
    ed.mic = MicChoice::Pinned(" id-a ".to_string());
    assert!(ed.ready());
    let told = ed.written(String::new(), None);
    assert_eq!(told, vec![EngineCommand::SetMicSelection("id-a".to_string())]);
    ed.mic = MicChoice::Off;
    assert!(ed.ready());
    assert!(ed.written(String::new(), None).is_empty());
    assert_eq!(ed.pending_restart_fields(), vec!["microphone on/off"]);
}

#[test]
fn a_press_binds_or_cancels() {
    let key = |name: &str, pressed: bool, ctrl: bool| KeyEvent {
        name: name.to_string(),
        pressed,
        mods: Modifiers { ctrl, ..NO_MODS },
    };
    assert_eq!(
        capture_combo(&[key("K", false, true), key("K", true, false), key("K", true, true)]),
        Some((2, CaptureResult::Bound("Ctrl+K".to_string())))
    );
    assert_eq!(
        capture_combo(&[key("Escape", true, false), key("K", true, true)]),
        Some((0, CaptureResult::Cancel))
    );
    assert_eq!(capture_combo(&[key("Space", true, true)]), None);

    let mut ed = Editor::load(config(), Vec::new(), true);
    ed.start_capture(HotkeyTarget::Save);
    assert_eq!(
        ed.process_capture(CaptureResult::Bound("Ctrl+K".to_string())),
        Some(HotkeyTarget::Save)
    );
    assert_eq!(ed.combo_for(HotkeyTarget::Save), "Ctrl+K");
    ed.start_capture(HotkeyTarget::Record);
    assert_eq!(ed.process_capture(CaptureResult::Cancel), None);
    assert_eq!(ed.combo_for(HotkeyTarget::Record), "Ctrl+Alt+R");
    assert_eq!(ed.capturing, None);
}

#[test]
fn a_typed_folder_counts_once_it_is_left() {
    let mut ed = test_editor();
    ed.folder_text = "D:/clips".to_string();
    ed.leave_folder();
    assert_eq!(ed.draft.output.dir, "D:/clips");
    assert!(ed.dirty);
    ed.dirty = false;
    ed.leave_folder();
    assert!(!ed.dirty);
    ed.pick_folder("E:/clips".to_string());
    assert_eq!((ed.draft.output.dir.as_str(), ed.folder_text.as_str()), ("E:/clips", "E:/clips"));
}

#[test]
fn a_note_is_mutual() {
    assert_eq!(
        note_conflict("Ctrl+Alt+S", "Alt+Ctrl+S", HotkeyTarget::Save).is_some(),
        note_conflict("Alt+Ctrl+S", "Ctrl+Alt+S", HotkeyTarget::Record).is_some()
    );
    assert!(check_hotkeys("Ctrl+Alt+S", "Alt+Ctrl+S").is_some());
    assert!(check_hotkeys("Ctrl+Alt+S", "Ctrl+Alt+R").is_none());
}

#[test]
fn a_put_off_banner_returns_when_more_waits() {
    assert!(!banner_visible(&vec![], &None));
    assert!(banner_visible(&vec!["quality"], &None));
    assert!(!banner_visible(&vec!["quality"], &Some(vec!["quality"])));
    assert!(banner_visible(
        &vec!["quality", "resolution"],
        &Some(vec!["quality"])
    ));
    assert_eq!(
        restart_line(&vec!["quality", "frame rate"]),
        "⟳ Restart to apply quality, frame rate."
    );
}

#[test]
fn the_status_panel_reads_the_snapshot() {
    let mut st = EngineStatus::new("Adapter".to_string(), 60, 30);
    st.set_resolution(1920, 1080);
    st.set_target(Shown::Window);
    st.set_stage_counts(10, 9, 8);
    st.add_dropped(1);
    let s = st.snapshot();
    let line = capture_line(&s);
    assert!(line.contains("1920") && line.contains("1080") && line.contains("60"), "{line}");
    let line = frames_line(&s);
    assert!(line.starts_with("Frames: captured 10 · encoded 9"), "{line}");
    let never = last_save_line(&s, 1_000);
    st.set_last_save(SaveOutcome::Saved, 1_000, 85);
    let saved = last_save_line(&st.snapshot(), 11_000);
    assert_ne!(never, saved);
    assert!(saved.contains("10 s ago"), "{saved}");
    assert_eq!(elapsed_label(1_000, 61_000), "1 m ago");
    assert_eq!(record_elapsed_mmss(0, 99_000), "0:00");
    assert_eq!(record_elapsed_mmss(1_000, 66_500), "1:05");
    assert_ne!(
        state_display(TrayState::Buffering).0,
        state_display(TrayState::Paused).0
    );
    assert_ne!(quality_label(Quality::High), quality_label(Quality::Max));
    assert_ne!(
        resolution_label(Resolution::P720),
        resolution_label(Resolution::P1080)
    );
    assert_eq!(
        folder_error("D:/x", "no such drive"),
        "output folder: D:/x — no such drive"
    );
}

#[test]
fn the_window_hides_and_comes_back_until_its_thread_ends() {
    let mut handle = SettingsHandle::new();
    assert_eq!(handle.open(false), OpenStep::Spawn);
    handle.spawned();
    assert_eq!(handle.open(false), OpenStep::Reshow);
    assert!(!handle.restart_requested());
    assert_eq!(handle.open(true), OpenStep::Disable);
    assert_eq!(handle.open(false), OpenStep::Nothing);

    let mut shared = Shared::new();
    let step = frame(&mut shared, true);
    assert!(step.hide && !step.close && step.persist);
    assert!(!shared.visible);
    shared.quit = true;
    let step = frame(&mut shared, false);
    assert!(step.close && !step.hide && step.persist);
}

#[test]
fn a_maximized_window_keeps_its_old_place() {
    let first = observe_place(None, (1, 2), true);
    assert_eq!(first, Placed { rect: (1, 2), maximized: true });
    let small = observe_place(Some(first), (3, 4), false);
    assert_eq!(small, Placed { rect: (3, 4), maximized: false });
    let big = observe_place(Some(small), (0, 0), true);
    assert_eq!(big, Placed { rect: (3, 4), maximized: true });
}

#[test]
fn choices_mark_the_draft() {
    let mut ed = test_editor();
    ed.choose_quality(Quality::Default);
    ed.choose_resolution(Resolution::P1080);
    ed.choose_fps(60);
    assert!(!ed.take_dirty());
    ed.choose_quality(Quality::Max);
    assert!(ed.take_dirty());
    assert!(!ed.take_dirty());
    ed.choose_length(100_000);
    assert_eq!(ed.draft.buffer.seconds, 600);
    ed.choose_length(0);
    assert_eq!(ed.draft.buffer.seconds, 1);
    ed.choose_mic(MicChoice::Off);
    ed.choose_desktop(false);
    ed.choose_clear_after_save(true);
    ed.choose_fps(30);
    ed.choose_resolution(Resolution::P720);
    assert!(ed.dirty && !ed.draft.audio.desktop && ed.draft.buffer.clear_after_save);
    assert_eq!(ed.mic, MicChoice::Off);
    assert_eq!((ed.draft.capture.fps, ed.draft.encode.resolution), (30, Resolution::P720));
}

#[test]
fn a_meter_shows_the_loudest_of_a_third_of_a_second() {
    let mut meter = MeterState::new(AudioTrackKind::Mic);
    meter.advance(100, 100_000);
    meter.advance(900, 100_000);
    meter.advance(300, 100_000);
    assert_eq!(meter.readout_peak, 0);
    meter.advance(10, 33_334);
    assert_eq!(meter.readout_peak, 900);
    assert_eq!((meter.interval_peak, meter.since_readout_us), (0, 0));
    meter.advance(50, 400_000);
    assert_eq!(meter.readout_peak, 50);
}

#[test]
fn more_lines_of_the_window() {
    let mut st = EngineStatus::new("RTX".to_string(), 60, 30);
    st.set_fill(152_500_000, 4 * 1024 * 1024 + 512 * 1024);
    let s = st.snapshot();
    assert_eq!(fill_line(&s), "Buffer: 15.2 s / 30 s held · 4.5 MiB");
    assert_eq!(adapter_line(&s).as_deref(), Some("Encoder GPU: RTX"));
    let none = EngineStatus::new(String::new(), 60, 30).snapshot();
    assert_eq!(adapter_line(&none), None);
    assert_eq!(recording_line(1_000, 66_500), "Recording — 1:05");
    assert!(state_line(TrayState::Paused).starts_with("State: "));
    assert_eq!(apply_error("disk full"), "Couldn't apply — disk full");
    assert_eq!(availability_text(Availability::Taken), "⚠ in use by another app");
    assert_eq!(availability_text(Availability::Available), "✓ available");
    assert_eq!(availability_text(Availability::Unknown), "(couldn't check)");
}

#[test]
fn the_dot_shows_the_state() {
    assert_eq!(state_display(TrayState::Buffering), ("buffering", GOOD));
    assert_eq!(state_display(TrayState::Paused), ("paused", AMBER));
    assert_eq!(state_display(TrayState::Warning), ("warning", WARN));
    assert_eq!(state_display(TrayState::Error), ("error", BAD));
}

#[test]
fn a_typed_hotkey_is_applied_when_its_field_loses_the_focus() {
    let mut ed = test_editor();
    ed.type_combo(HotkeyTarget::Save, "Ctrl+Alt+P".to_string());
    assert!(!ed.take_dirty());
    ed.leave_combo();
    assert!(ed.take_dirty());
    assert_eq!(ed.combo_for(HotkeyTarget::Save), "Ctrl+Alt+P");
}
