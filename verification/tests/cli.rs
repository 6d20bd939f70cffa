//! The command line, hotkeys, the logs' place and the choice of an adapter.

use clipd::cli::args::{
    parse_buffer, parse_command, parse_record, relaunch_args, Command, REOPEN_SETTINGS_FLAG,
};
use clipd::cli::plan::{
    audio_desc, avg_kbps, buffer_banner, buffer_params, buffer_seconds, capture_source,
    compares_stages, exit_after, hook_lines, hotkey_banner, prepared_dir, record_banner,
    record_params, record_target_line, resolve_output_dir, target_label, try_again, use_tray, CaptureSource, REBUILD_ATTEMPTS,
};
use clipd::config::{
    AudioConfig, BufferConfig, CaptureConfig, CaptureTarget, Config, EncodeConfig, HotkeyConfig,
    NamedTarget, OutputConfig, Quality, Resolution, TrackConfig, VcApp,
};
use clipd::constants::PRODUCT_NAME;
use clipd::gpu::{
    co_location_text, is_co_located, is_primary_rect, luid_to_i64, resolve_adapter, vram_mb,
    AdapterInfo, AdapterSelection, GpuError, OutputInfo, Topology,
};
use clipd::hotkey::{
    hotkey_from, hotkey_id, parse_hotkey, parse_hotkeys, pump_fault, pump_step, registered,
    setup_outcome, Hotkey, HotkeyError, PumpStep,
};
use clipd::logging::{join_path, log_dir, log_file_prefix};
use clipd::text::{parse_number, trim};

fn strings(args: &[&str]) -> Vec<String> {
    args.iter().map(|s| s.to_string()).collect()
}

#[test]
fn capture_target_maps_to_source() {
    assert_eq!(
        capture_source(&CaptureTarget::Named(NamedTarget::Primary)),
        CaptureSource::PrimaryMonitor
    );
    assert_eq!(
        capture_source(&CaptureTarget::Named(NamedTarget::FocusedWindow)),
        CaptureSource::FocusedWindow
    );
    assert_eq!(
        capture_source(&CaptureTarget::Monitor(2)),
        CaptureSource::Monitor(2)
    );
}

#[test]
fn target_label_is_human_readable() {
    assert_eq!(
        target_label(&CaptureTarget::Named(NamedTarget::Primary)),
        "primary monitor"
    );
    assert_eq!(
        target_label(&CaptureTarget::Named(NamedTarget::FocusedWindow)),
        "focused window"
    );
    assert_eq!(target_label(&CaptureTarget::Monitor(1)), "monitor 1");
}

#[test]
fn commands_are_told_apart() {
    assert_eq!(parse_command(&[]), Command::Help);
    assert_eq!(parse_command(&strings(&["-V"])), Command::Version);
    assert_eq!(
        parse_command(&strings(&["--check-config", "a.toml"])),
        Command::CheckConfig(Some("a.toml".to_string()))
    );
    assert_eq!(
        parse_command(&strings(&["--check-config"])),
        Command::CheckConfig(None)
    );
    assert_eq!(
        parse_command(&strings(&["audio-probe", "9"])),
        Command::AudioProbe(9)
    );
    assert_eq!(
        parse_command(&strings(&["audio-probe", "x"])),
        Command::AudioProbe(6)
    );
    assert_eq!(parse_command(&strings(&["buffer"])), Command::Buffer);
    assert_eq!(
        parse_command(&strings(&["nope"])),
        Command::Unknown("nope".to_string())
    );
}

#[test]
fn recordings_and_buffers_know_their_options() {
    let r = parse_record(&strings(&["--seconds", "5", "--out", "a.mp4", "--encode-quality", "70"]))
        .unwrap();
    assert_eq!((r.seconds, r.out.as_deref()), (Some(5), Some("a.mp4")));
    assert_eq!(r.overrides.quality, Some(70));
    assert_eq!(
        parse_record(&strings(&["--nope"])),
        Err("--nope".to_string())
    );
    let b = parse_buffer(&strings(&["--seconds", "45", REOPEN_SETTINGS_FLAG])).unwrap();
    assert_eq!(b.seconds, Some(45));
    assert!(b.reopen_settings);
    assert!(use_tray(&b));
    assert_eq!(
        parse_buffer(&strings(&["--nope"])),
        Err("--nope".to_string())
    );
}

#[test]
fn a_relaunch_asks_for_the_same_and_the_settings() {
    let again = relaunch_args(&strings(&["buffer", "--seconds", "45"]));
    assert_eq!(
        again,
        strings(&["buffer", "--seconds", "45", REOPEN_SETTINGS_FLAG])
    );
    assert_eq!(relaunch_args(&again), again);
}

fn config() -> Config {
    Config {
        capture: CaptureConfig {
            fps: 60,
            cursor: true,
            target: CaptureTarget::Named(NamedTarget::Primary),
        },
        encode: EncodeConfig {
            quality: Quality::Default,
            resolution: Resolution::P1080,
        },
        buffer: BufferConfig {
            seconds: 30,
            clear_after_save: true,
            precise_mode: false,
        },
        output: OutputConfig { dir: String::new() },
        audio: AudioConfig {
            desktop: true,
            mic: "off".to_string(),
            bitrate_bps: 192_000,
            separate_tracks: false,
            tracks: TrackConfig {
                game: true,
                voice_chat: false,
                other_system: true,
            },
            vc_apps: Vec::new(),
        },
        hotkeys: HotkeyConfig {
            save_clip: "Ctrl+Alt+S".to_string(),
            record_toggle: "Ctrl+Alt+R".to_string(),
        },
    }
}

#[test]
fn a_recording_starts_by_itself_and_a_buffer_waits() {
    let cfg = config();
    let args = parse_record(&strings(&["--seconds", "5"])).unwrap();
    let p = record_params(&cfg, args, "C:\\clips".to_string());
    assert_eq!((p.fps, p.buffer_seconds, p.record_auto), (60, 2, Some(5)));
    assert!(p.record_autostart && p.desktop_audio && !p.mic_audio);
    assert_eq!(
        record_banner(&p, &cfg.capture.target),
        format!(
            "recording primary monitor @ 60 fps (VBR) for 5s; audio: {}",
            audio_desc(true, false)
        )
    );
    assert_eq!(record_target_line(&p), "-> C:\\clips\\clipd_rec_*.mp4");

    let args = parse_buffer(&strings(&[])).unwrap();
    let p = buffer_params(&cfg, args, "C:\\clips".to_string(), 3, 4);
    assert_eq!((p.buffer_seconds, p.save_hotkey_id, p.record_hotkey_id), (30, 3, 4));
    assert!(!p.record_autostart && p.clear_after_save);
    assert!(buffer_banner(&p, &cfg.capture.target).ends_with("last 30s retained; clips -> C:\\clips"));
    assert!(hotkey_banner(&p, "Ctrl+Alt+S", "Ctrl+Alt+R").starts_with("press [Ctrl+Alt+S]"));
}

#[test]
fn limits_of_a_session() {
    assert_eq!(buffer_seconds(None, 30), 30);
    assert_eq!(buffer_seconds(Some(0), 30), 1);
    assert!(buffer_seconds(Some(u32::MAX), 30) < u32::MAX);
    assert_eq!(exit_after(Some(5)), Some(7));
    assert_eq!(exit_after(None), None);
    assert!(try_again(true, REBUILD_ATTEMPTS - 1));
    assert!(!try_again(true, REBUILD_ATTEMPTS));
    assert!(!try_again(false, 0));
    assert!(compares_stages(20) && !compares_stages(21));
    assert_eq!(avg_kbps(1_000_000, 2), 4_000);
    assert_eq!(avg_kbps(1_000_000, 0), 0);
}

#[test]
fn parses_letter_and_key_forms_and_fn_keys() {
    assert!(parse_hotkey("Ctrl+Shift+D").is_ok());
    assert!(parse_hotkey("Ctrl+Shift+KeyD").is_ok());
    assert!(parse_hotkey("F8").is_ok());
}

#[test]
fn rejects_garbage_and_modifier_only() {
    assert!(parse_hotkey("").is_err());
    assert!(parse_hotkey("Ctrl+Shift").is_err());
    assert!(parse_hotkey("Ctrl+Alt+NopeKey").is_err());
}

#[test]
fn a_hotkey_has_modifiers_a_key_and_an_id() {
    let a = parse_hotkey("Ctrl+Alt+S").unwrap();
    let b = parse_hotkey("Alt+Ctrl+KeyS").unwrap();
    let c = parse_hotkey("Ctrl+S").unwrap();
    assert_eq!(a.key, "KeyS");
    assert_eq!((a.mods, a.id), (b.mods, b.id));
    assert_ne!(a.mods, c.mods);
    assert_ne!(a.id, c.id);
    let e = parse_hotkey("Ctrl+Alt+NopeKey").err().unwrap();
    assert!(e.message().starts_with("could not parse hotkey 'Ctrl+Alt+NopeKey': "));
    let h = hotkey_from("X", Ok(Hotkey { mods: 1, key: "KeyX".to_string(), id: 9 })).unwrap();
    assert_eq!((h.mods, h.key.as_str(), h.id), (1, "KeyX", 9));
    assert!(matches!(
        hotkey_from("X", Err("bad".to_string())),
        Err(HotkeyError::Parse(t, w)) if t == "X" && w == "bad"
    ));
    assert_eq!(
        HotkeyError::Register("X".to_string(), "taken".to_string()).message(),
        "could not register hotkey 'X': taken"
    );
    assert_eq!(
        HotkeyError::SetupChannelClosed.message(),
        "hotkey pump thread failed during setup"
    );
}

#[test]
fn hotkeys_are_parsed_together() {
    let all = parse_hotkeys(&["Ctrl+Alt+S", "F8"]).unwrap();
    assert_eq!(all.len(), 2);
    assert!(matches!(
        parse_hotkeys(&["F8", "Nope1", "Nope2"]),
        Err(HotkeyError::Parse(t, _)) if t == "Nope1"
    ));
    assert_eq!(hotkey_id(&[5, 6], 1), 6);
    assert_eq!(hotkey_id(&[5, 6], 2), 0);
    assert_eq!(pump_step(0), PumpStep::Quit);
    assert_eq!(pump_step(-1), PumpStep::Fail);
    assert_eq!(pump_step(1), PumpStep::Dispatch);
}

#[test]
fn log_dir_uses_localappdata_when_set() {
    assert_eq!(log_dir(Some("C:\\Local")), "C:\\Local\\clipd\\logs");
    assert_eq!(log_dir(None), "logs");
    assert_eq!(join_path("C:\\", "a"), "C:\\a");
    assert_eq!(log_dir(Some("C:")), "C:clipd\\logs");
    assert_eq!(join_path("ab", "c"), "ab\\c");
    assert_eq!(join_path("1:", "c"), "1:\\c");
}

#[test]
fn log_file_prefix_is_product_scoped() {
    assert_eq!(log_file_prefix(), format!("{PRODUCT_NAME}.log"));
}

fn adapter(index: u32, luid: i64, primary: Option<bool>) -> AdapterInfo {
    AdapterInfo {
        index,
        luid,
        description: format!("GPU {index}"),
        vendor_id: 0x10DE,
        device_id: 1,
        dedicated_vram_mb: 8192,
        outputs: primary
            .into_iter()
            .map(|is_primary| OutputInfo {
                device_name: "\\\\.\\DISPLAY1".to_string(),
                is_primary,
                hdr: false,
                bits_per_color: 8,
                width: 1920,
                height: 1080,
            })
            .collect(),
    }
}

#[test]
fn the_adapter_of_the_primary_output_is_found() {
    let t = Topology {
        adapters: vec![adapter(0, 10, Some(false)), adapter(1, 11, Some(true))],
    };
    assert_eq!(t.primary_adapter_index(), Some(1));
    assert_eq!(
        resolve_adapter(AdapterSelection::PrimaryOutput, &t),
        Ok(Some(1))
    );
    assert_eq!(resolve_adapter(AdapterSelection::Auto, &t), Ok(None));
    assert!(is_co_located(&t, 11));
    assert!(!is_co_located(&t, 10));
    assert!(co_location_text(true).starts_with("yes"));
    let text = t.to_text();
    assert!(text.contains("GPU 0") && text.contains("GPU 1"), "{text}");
    let none = Topology {
        adapters: vec![adapter(0, 10, None)],
    };
    assert_eq!(
        resolve_adapter(AdapterSelection::PrimaryOutput, &none),
        Err(GpuError::PrimaryOutputNotFound)
    );
    assert!(is_primary_rect(0, 0) && !is_primary_rect(1920, 0));
    assert_eq!(luid_to_i64(-1, 7), -0x1_0000_0000 + 7);
    assert_eq!(vram_mb(8 * 1024 * 1024 * 1024), 8192);
}

#[test]
fn words_and_numbers() {
    assert_eq!(trim("\u{2003} a b\t\n"), "a b");
    assert_eq!(trim(" \u{A0} "), "");
    assert_eq!(parse_number("0042", 100), Some(42));
    assert_eq!(parse_number("+7", 100), Some(7));
    assert_eq!(parse_number("101", 100), None);
    assert_eq!(parse_number("", 100), None);
    assert_eq!(parse_number("4x", 100), None);
}

#[test]
fn a_pump_reports_how_its_set_up_went() {
    assert!(matches!(setup_outcome(Some(Ok(7))), Ok(7)));
    assert!(matches!(
        setup_outcome(None),
        Err(HotkeyError::SetupChannelClosed)
    ));
    let e = pump_fault(&["F8", "F9"], "no window".to_string());
    assert_eq!(e.message(), "could not register hotkey 'F8': no window");
    assert_eq!(registered(&["F8", "F9", "F10"], &[true, false, true]), vec!["F8", "F10"]);
    assert_eq!(
        prepared_dir("D:\\clips".to_string(), false, "C:\\Videos".to_string()),
        "C:\\Videos"
    );
    assert_eq!(
        prepared_dir("D:\\clips".to_string(), true, "C:\\Videos".to_string()),
        "D:\\clips"
    );
}

#[test]
fn a_run_takes_adapter_picture_and_programs_from_the_settings() {
    let mut cfg = config();
    cfg.audio.vc_apps.push(VcApp {
        name: "chat.exe".to_string(),
        enabled: false,
    });
    let r = record_params(&cfg, parse_record(&[]).unwrap(), String::new());
    let b = buffer_params(&cfg, parse_buffer(&[]).unwrap(), String::new(), 1, 2);
    for p in [r, b] {
        assert_eq!(p.adapter, AdapterSelection::Auto);
        assert_eq!((p.resolution, p.quality), (Resolution::P1080, Quality::Default));
        assert_eq!(p.vc_apps, cfg.audio.vc_apps);
    }
    let same = cfg.copy();
    assert!(cfg.same_as(&same));
    let mut other = cfg.copy();
    other.audio.vc_apps[0].enabled = true;
    assert!(!cfg.same_as(&other));
    other.audio.vc_apps.pop();
    assert!(!cfg.same_as(&other));
}

#[test]
fn a_buffer_that_acts_by_itself_says_so() {
    assert_eq!(hook_lines(&parse_buffer(&[]).unwrap()), "");
    let all = parse_buffer(&strings(&[
        "--record-secs",
        "5",
        "--autosave",
        "20",
        "--simulate-device-loss",
        "9",
    ]))
    .unwrap();
    assert_eq!(
        hook_lines(&all),
        "(--autosave 20s: auto-firing a save every 20s for acceptance testing)\n\
         (--simulate-device-loss 9s: injecting a synthetic device loss to test the §7 restart)\n\
         (--record-secs 5s: auto-recording 5s to disk for acceptance testing)\n"
    );
}

#[test]
fn a_blank_folder_stands_for_the_usual_one() {
    assert_eq!(resolve_output_dir("", "C:\\Videos"), "C:\\Videos");
    assert_eq!(resolve_output_dir("  ", "C:\\Videos"), "C:\\Videos");
    assert_eq!(resolve_output_dir("D:\\clips", "C:\\Videos"), "D:\\clips");
}
