//! Notices, the overlay, the list of recent clips, the tray and its icon.

use clipd::constants::PRODUCT_NAME;
use clipd::engine::{EngineCommand, TrayState};
use clipd::mux::reader::read_mp4_duration;
use clipd::ui::notify::{
    click_target, info, save_toast, saved, to_whole_seconds, tray_click, TrayClick,
};
use clipd::ui::pill::{
    alpha_at, drain, hold_for, pill_bg, pill_pixels, pill_place, pill_text, rgb, rounded_rect_coverage,
    scaled_px, truncate_reason, PillCommand, PillNews, PillShow, PillStep, FADE_IN_US, FADE_OUT_US, MAX_REASON_CHARS,
};
use clipd::ui::recent::{
    clip_identity, collect_clips, format_duration, format_size, group_by_app, is_clip_entry,
    is_clip_name, pick_recent, relative_time, reveal_argument, scan_clips, ClipFile, FoundFile,
    Listed, RecentClips,
};
use clipd::ui::sound::{play_save, sound_file, SoundChoice};
use clipd::ui::theme::{
    downsample, glyph_rgba, window_icon, ACCENT, ACCENT_FILL, ACCENT_HOVER, AMBER, BAD, GOOD,
    PANEL_FILL, WARN,
};
use clipd::ui::tray::{
    icon_buffers, icon_rgba, menu_action, restarted_title, state_color, tooltip, MenuAction,
    RoundEnd, Shell, ShellAction, ShellOutcome, ICON_SIZE, ID_AUTOSTART, ID_OPEN, ID_PAUSE,
    ID_QUIT, ID_RECORD, ID_SAVE, ID_SETTINGS,
};
use clipd::ui::window_state::{
    clamp_to_virtual_screen, log_location, opening, state_path, virtual_screen_rect, WindowState,
};
use clipd::wide::{fill_wide, to_wide, utf16_to_string};

#[test]
fn save_toast_success_shows_length() {
    let (title, body) = save_toast(true, 30_400, "");
    assert_eq!(title, PRODUCT_NAME);
    assert_eq!(body, "Clip saved · 30 s");
}

#[test]
fn save_toast_failure_is_distinct_and_names_the_reason() {
    let (title, body) = save_toast(false, 0, "disk full");
    assert!(title.contains("NOT saved"), "title = {title}");
    assert!(body.contains("disk full"), "body = {body}");
}

#[test]
fn fill_wide_truncates_and_nul_terminates() {
    let mut buf = [0xFFu16; 4];
    fill_wide(&mut buf, "abcd");
    assert_eq!(buf, [b'a' as u16, b'b' as u16, b'c' as u16, 0]);
    let mut buf = [0xFFu16; 6];
    fill_wide(&mut buf, "hi");
    assert_eq!(&buf[..3], &[b'h' as u16, b'i' as u16, 0]);
}

#[test]
fn wide_text_reads_back() {
    let text = "Grüße 🎮 clip";
    let wide = to_wide(text);
    assert_eq!(wide, text.encode_utf16().collect::<Vec<u16>>());
    assert_eq!(utf16_to_string(&wide), text);
    assert_eq!(utf16_to_string(&[0x41, 0, 0x42]), "A");
    assert_eq!(utf16_to_string(&[0xD83C, 0x41]), "\u{FFFD}A");
}

#[test]
fn clicks_on_the_tray_icon() {
    assert_eq!(tray_click(0x405), TrayClick::OpenTarget);
    assert_eq!(tray_click(0x202), TrayClick::ShowMenu);
    assert_eq!(tray_click(0x205), TrayClick::ShowMenu);
    assert_eq!(tray_click(0x200), TrayClick::Nothing);
    assert_eq!(click_target(true, "clips", "logs"), "clips");
    assert_eq!(click_target(false, "clips", "logs"), "logs");
}

#[test]
fn half_seconds_go_to_the_even_one() {
    assert_eq!(to_whole_seconds(500), 0);
    assert_eq!(to_whole_seconds(1_500), 2);
    assert_eq!(to_whole_seconds(2_500), 2);
    assert_eq!(to_whole_seconds(2_501), 3);
}

#[test]
fn pill_text_mirrors_the_toast_wording() {
    assert_eq!(pill_text(true, 30_400, "", false), "Clip saved · 30 s");
    let fail = pill_text(false, 0, "disk full", false);
    assert!(fail.contains("NOT saved"), "{fail}");
    assert!(fail.contains("disk full"), "{fail}");
    assert_eq!(pill_text(true, 132_000, "", true), "Recording saved · 2 min");
    assert!(pill_text(false, 0, "disk full", true).starts_with("Recording NOT saved"));
}

#[test]
fn hold_is_longer_for_failures() {
    assert!(hold_for(false) > hold_for(true));
}

#[test]
fn alpha_envelope_fades_in_holds_and_out() {
    let hold = 3_000_000;
    assert_eq!(alpha_at(0, hold), 0);
    assert_eq!(alpha_at(FADE_IN_US, hold), 255);
    assert_eq!(alpha_at(FADE_IN_US + 1_500_000, hold), 255);
    assert_eq!(alpha_at(FADE_IN_US + hold + FADE_OUT_US, hold), 0);
    let mid = alpha_at(FADE_IN_US + hold + FADE_OUT_US / 2, hold);
    assert!(mid > 0 && mid < 255, "mid fade-out alpha = {mid}");
    assert_eq!(alpha_at(FADE_IN_US / 2, hold), 128);
}

#[test]
fn coverage_is_one_in_the_centre_and_zero_outside_the_corner() {
    assert_eq!(rounded_rect_coverage(100, 40, 100, 40, 40), 255);
    assert!(rounded_rect_coverage(1, 1, 100, 40, 40) < 128);
    assert!(rounded_rect_coverage(42, 40, 100, 40, 40) > 229);
}

#[test]
fn coverage_is_known_of_sharp_corners_and_far_points() {
    assert_eq!(rounded_rect_coverage(100, 40, 100, 40, 0), 255);
    assert_eq!(rounded_rect_coverage(1, 1, 100, 40, 0), 255);
    assert_eq!(rounded_rect_coverage(0, 40, 100, 40, 0), 127);
    assert_eq!(rounded_rect_coverage(-1, 40, 100, 40, 0), 0);
    assert_eq!(rounded_rect_coverage(i64::MIN, i64::MAX, u32::MAX, u32::MAX, 9), 0);
    assert_eq!(alpha_at(u64::MAX, u64::MAX), 255);
}

#[test]
fn a_pill_is_solid_inside_and_clear_at_its_corners() {
    let px = pill_pixels(100, 40, [10, 20, 30]);
    assert_eq!(px.len(), 100 * 40 * 4);
    let at = |x: usize, y: usize| {
        let o = (y * 100 + x) * 4;
        [px[o], px[o + 1], px[o + 2], px[o + 3]]
    };
    assert_eq!(at(50, 20), [30, 20, 10, 255]);
    assert_eq!(at(0, 0), [0, 0, 0, 0]);
    assert_eq!(at(99, 39), [0, 0, 0, 0]);
}

#[test]
fn a_pill_lies_in_the_lower_right_corner() {
    assert_eq!(pill_place((200, 18), (16, 9), 15, 28, 1920, 1040), (232, 36, 1660, 976));
    assert_eq!(pill_place((0, 0), (16, 9), 15, 28, 1920, 1040), (33, 33, 1859, 979));
    assert_eq!(scaled_px(15, 96), 15);
    assert_eq!(scaled_px(15, 144), 23);
    assert_eq!(scaled_px(15, 48), 15);
    assert_eq!(scaled_px(u32::MAX, u32::MAX), i32::MAX);
    assert_eq!(rgb(0x11, 0x22, 0x33), 0x0033_2211);
    assert_eq!(pill_bg(true), [ACCENT_FILL[0], ACCENT_FILL[1], ACCENT_FILL[2]]);
    assert_ne!(pill_bg(true), pill_bg(false));
}

#[test]
fn long_reasons_are_cut() {
    let long = "x".repeat(100);
    let cut = truncate_reason(&long);
    assert_eq!(cut.chars().count(), MAX_REASON_CHARS);
    assert!(cut.ends_with('…'));
    assert_eq!(truncate_reason("disk full"), "disk full");
}

#[test]
fn a_show_runs_through_and_a_newer_one_takes_over() {
    let mut show = PillShow::begin(1_000_000, true);
    assert_eq!(show.step(1_000_000), PillStep::Draw(0));
    assert_eq!(show.step(1_000_000 + FADE_IN_US), PillStep::Draw(255));
    assert_eq!(
        show.step(1_000_000 + FADE_IN_US + 3_000_000 + FADE_OUT_US),
        PillStep::Hide
    );
    show.replace(2_000_000, false);
    assert_eq!(show.step(2_000_000), PillStep::Draw(255));
    assert_eq!(show.step(2_000_000 + 5_999_999), PillStep::Draw(255));
}

fn clip(name: &str, secs: i64) -> ClipFile {
    clip_app(name, secs, "")
}

fn clip_app(name: &str, secs: i64, app: &str) -> ClipFile {
    ClipFile {
        path: name.to_string(),
        name: name.to_string(),
        app: app.to_string(),
        size: 0,
        duration_ms: None,
        modified: secs * 10_000_000,
    }
}

#[test]
fn is_clip_name_matches_only_this_apps_mp4s() {
    assert!(is_clip_name("clipd_1700000000000.mp4"));
    assert!(is_clip_name("clipd_rec_1700000000000.mp4"));
    assert!(is_clip_name("clipd_1700.MP4"));
    assert!(!is_clip_name("clipd_1700.mkv"));
    assert!(!is_clip_name("someothervideo.mp4"));
    assert!(!is_clip_name("clipd.mp4"));
    assert!(is_clip_entry("clipd_1.mp4", true));
    assert!(!is_clip_entry("clipd_1.mp4", false));
}

#[test]
fn pick_recent_sorts_newest_first_and_truncates() {
    let files = vec![
        clip("clipd_a.mp4", 10),
        clip("clipd_b.mp4", 30),
        clip("clipd_c.mp4", 20),
    ];
    let got = pick_recent(files, 2);
    assert_eq!(
        got.iter().map(|c| c.name.as_str()).collect::<Vec<_>>(),
        vec!["clipd_b.mp4", "clipd_c.mp4"]
    );
}

#[test]
fn clips_of_the_same_time_keep_their_order() {
    let files = vec![
        clip("clipd_a.mp4", 10),
        clip("clipd_b.mp4", 30),
        clip("clipd_c.mp4", 10),
        clip("clipd_d.mp4", 30),
    ];
    let got = pick_recent(files, 20);
    assert_eq!(
        got.iter().map(|c| c.name.as_str()).collect::<Vec<_>>(),
        vec!["clipd_b.mp4", "clipd_d.mp4", "clipd_a.mp4", "clipd_c.mp4"]
    );
}

#[test]
fn group_by_app_orders_newest_group_first_and_maps_empty_to_other() {
    let clips = vec![
        clip_app("clipd_5.mp4", 50, "Discord"),
        clip_app("clipd_4.mp4", 40, "GTA5"),
        clip_app("clipd_3.mp4", 30, "Discord"),
        clip("clipd_2.mp4", 20),
    ];
    let groups = group_by_app(&clips);
    let names: Vec<&str> = groups.iter().map(|(a, _)| *a).collect();
    assert_eq!(names, vec!["Discord", "GTA5", "Other"]);
    let discord = &groups[0].1;
    assert_eq!(discord.len(), 2);
    assert_eq!(discord[0].name, "clipd_5.mp4");
    assert_eq!(discord[1].name, "clipd_3.mp4");
}

#[test]
fn format_duration_reads_mmss_or_dash() {
    assert_eq!(format_duration(None), "—");
    assert_eq!(format_duration(Some(0)), "0:00");
    assert_eq!(format_duration(Some(5_400)), "0:05");
    assert_eq!(format_duration(Some(65_000)), "1:05");
    assert_eq!(format_duration(Some(605_000)), "10:05");
    assert_eq!(format_duration(Some(-1_000)), "—");
}

#[test]
fn format_size_is_compact() {
    assert_eq!(format_size(512), "512 B");
    assert_eq!(format_size(2048), "2 KB");
    assert_eq!(format_size(5 * 1024 * 1024 + 512 * 1024), "5.5 MB");
    assert_eq!(format_size(3 * 1024 * 1024 * 1024), "3.0 GB");
}

#[test]
fn read_mp4_duration_parses_a_minimal_moov() {
    let mut file = Vec::new();
    file.extend_from_slice(&16u32.to_be_bytes());
    file.extend_from_slice(b"ftyp");
    file.extend_from_slice(b"isom");
    file.extend_from_slice(&0u32.to_be_bytes());
    let mut mvhd = Vec::new();
    mvhd.extend_from_slice(&(8 + 24u32).to_be_bytes());
    mvhd.extend_from_slice(b"mvhd");
    mvhd.extend_from_slice(&0u32.to_be_bytes());
    mvhd.extend_from_slice(&0u32.to_be_bytes());
    mvhd.extend_from_slice(&0u32.to_be_bytes());
    mvhd.extend_from_slice(&1000u32.to_be_bytes());
    mvhd.extend_from_slice(&2500u32.to_be_bytes());
    let moov_size = 8 + mvhd.len();
    file.extend_from_slice(&(moov_size as u32).to_be_bytes());
    file.extend_from_slice(b"moov");
    file.extend_from_slice(&mvhd);

    let (timescale, duration) = read_mp4_duration(&file).expect("duration parsed");
    let d = duration as f64 / timescale as f64;
    assert!((d - 2.5).abs() < 1e-3, "duration = {d}");

    assert_eq!(read_mp4_duration(b"not an mp4 at all"), None);

    let mut bad = Vec::new();
    bad.extend_from_slice(&16u32.to_be_bytes());
    bad.extend_from_slice(b"ftyp");
    bad.extend_from_slice(b"isom");
    bad.extend_from_slice(&0u32.to_be_bytes());
    bad.extend_from_slice(&1u32.to_be_bytes());
    bad.extend_from_slice(b"mdat");
    bad.extend_from_slice(&u64::MAX.to_be_bytes());
    assert_eq!(read_mp4_duration(&bad), None);
}

#[test]
fn pick_recent_handles_zero_and_over_limit() {
    assert!(pick_recent(vec![clip("clipd_a.mp4", 1)], 0).is_empty());
    let two = vec![clip("clipd_a.mp4", 1), clip("clipd_b.mp4", 2)];
    assert_eq!(pick_recent(two, 20).len(), 2);
}

fn found(name: &str, is_file: bool) -> FoundFile {
    FoundFile {
        path: name.to_string(),
        name: name.to_string(),
        is_file,
        size: 1,
        modified: 7,
    }
}

#[test]
fn scan_clips_lists_files_only_not_dirs() {
    let listing = vec![
        Listed::Plain(found("clipd_100.mp4", true)),
        Listed::Folder("clipd_200.mp4".to_string(), Vec::new()),
        Listed::Plain(found("notes.txt", true)),
    ];
    let got = scan_clips(&listing, 20);
    assert_eq!(got.len(), 1, "only the real clip file, got {got:?}");
    assert_eq!(got[0].name, "clipd_100.mp4");
    assert_eq!(got[0].app, "", "a base-dir clip is uncategorised");
}

#[test]
fn scan_clips_descends_one_level_of_app_folders() {
    let listing = vec![
        Listed::Folder("Discord".to_string(), vec![found("clipd_10.mp4", true)]),
        Listed::Folder("GTA5".to_string(), vec![found("nested", false)]),
        Listed::Plain(found("clipd_20.mp4", true)),
    ];
    let got = scan_clips(&listing, 20);
    let names: std::collections::HashSet<&str> = got.iter().map(|c| c.name.as_str()).collect();
    assert!(
        names.contains("clipd_10.mp4"),
        "app-folder clip found: {got:?}"
    );
    assert!(
        names.contains("clipd_20.mp4"),
        "base-dir clip found: {got:?}"
    );
    assert!(
        !names.contains("clipd_30.mp4"),
        "two-levels-deep clip skipped"
    );
    let discord = got.iter().find(|c| c.name == "clipd_10.mp4").unwrap();
    assert_eq!(discord.app, "Discord");
}

#[test]
fn a_listing_keeps_what_is_known_of_each_clip() {
    let listing = vec![Listed::Folder(
        "GTA5".to_string(),
        vec![found("clipd_1.mp4", false), found("clipd_2.mp4", true)],
    )];
    let got = collect_clips(&listing);
    assert_eq!(got.len(), 1);
    assert_eq!(
        (got[0].path.as_str(), got[0].size, got[0].modified, got[0].duration_ms),
        ("clipd_2.mp4", 1, 7, None)
    );
}

#[test]
fn the_list_of_recent_clips_follows_its_folder() {
    let mut list = RecentClips::new(
        "C:\\clips".to_string(),
        vec![clip("clipd_a.mp4", 1), clip("clipd_b.mp4", 2)],
    );
    assert!(!list.is_stale("C:\\clips"));
    assert!(list.is_stale("D:\\clips"));
    assert_eq!(list.clips()[0].name, "clipd_b.mp4");
    list.rescan(Vec::new());
    assert_eq!(list.empty_text(), "No clips yet in C:\\clips");
    list.rescan_in("D:\\clips".to_string(), vec![clip("clipd_c.mp4", 3)]);
    assert!(!list.is_stale("D:\\clips"));
    assert_eq!(list.clips().len(), 1);
}

#[test]
fn a_clip_is_named_by_its_age_and_size() {
    let mut c = clip("clipd_a.mp4", 100);
    c.size = 2048;
    assert_eq!(relative_time(1_600_000_000, 1_000_000_000), "1 m ago");
    assert_eq!(relative_time(1_000_000_000, 1_600_000_000), "just now");
    assert_eq!(relative_time(600_009_999, 10_000), "59 s ago", "subtracted before it is cut");
    assert_eq!(relative_time(600_010_000, 10_000), "1 m ago");
    assert_eq!(relative_time(i64::MAX, i64::MIN), "512409557 h ago");
    assert_eq!(clip_identity(1_600_000_000, &c), "1 m ago   ·   —   ·   2 KB");
    assert_eq!(reveal_argument("C:\\a b.mp4"), "/select,\"C:\\a b.mp4\"");
}

#[test]
fn a_sound_of_the_users_own_comes_first() {
    assert_eq!(sound_file("  "), None);
    assert_eq!(sound_file(" C:\\ding.wav "), Some("C:\\ding.wav"));
    assert_eq!(
        play_save(" C:\\ding.wav ", true),
        SoundChoice::File("C:\\ding.wav".to_string())
    );
    assert_eq!(play_save("C:\\gone.wav", false), SoundChoice::Bundled);
    assert_eq!(play_save("", true), SoundChoice::Bundled);
}

fn luminance(c: [u8; 4]) -> f64 {
    fn ch(v: u8) -> f64 {
        let c = v as f64 / 255.0;
        if c <= 0.03928 {
            c / 12.92
        } else {
            ((c + 0.055) / 1.055).powf(2.4)
        }
    }
    let [r, g, b, _] = c;
    0.2126 * ch(r) + 0.7152 * ch(g) + 0.0722 * ch(b)
}

fn contrast(a: [u8; 4], b: [u8; 4]) -> f64 {
    let (la, lb) = (luminance(a), luminance(b));
    let (hi, lo) = if la > lb { (la, lb) } else { (lb, la) };
    (hi + 0.05) / (lo + 0.05)
}

const EXTREME_BG: [u8; 4] = [0x0A, 0x0A, 0x0A, 0xFF];

#[test]
fn accent_clears_aa_on_both_dark_surfaces() {
    assert!(
        contrast(ACCENT, PANEL_FILL) >= 4.5,
        "accent AA text on panel"
    );
    assert!(
        contrast(ACCENT, EXTREME_BG) >= 3.0,
        "accent graphical on extreme"
    );
    assert!(contrast(ACCENT_HOVER, PANEL_FILL) >= 4.5);
}

#[test]
fn semantic_palette_is_value_harmonised_and_passes_wcag() {
    for c in [GOOD, AMBER, WARN, BAD] {
        assert!(
            contrast(c, EXTREME_BG) >= 3.0,
            "{c:?} must clear 3:1 graphical on the meter track"
        );
    }
    assert!(contrast(GOOD, PANEL_FILL) >= 4.5, "GOOD is also text");
    assert!(contrast(BAD, PANEL_FILL) >= 4.5, "BAD is also text");

    for c in [GOOD, AMBER, WARN, BAD] {
        let v = c[..3].iter().copied().max().unwrap();
        assert!(v >= 0xF0, "{c:?} value must be ~0.98 (max channel ≥ 0xF0)");
    }
    let sat = |c: [u8; 4]| {
        let [r, g, b, _] = c;
        let mx = r.max(g).max(b);
        let mn = r.min(g).min(b);
        (mx - mn) as f32 / mx.max(1) as f32
    };
    assert!(sat(BAD) > sat(GOOD) && sat(BAD) > sat(AMBER) && sat(BAD) > sat(WARN));
}

#[test]
fn semantic_colours_are_mutually_distinct() {
    let all = [ACCENT, GOOD, AMBER, WARN, BAD];
    for (i, a) in all.iter().enumerate() {
        for b in &all[i + 1..] {
            assert_ne!(a, b, "{a:?} and {b:?} collide");
        }
    }
}

#[test]
fn glyph_rgba_is_sized_and_not_a_solid_fill() {
    let size = 32u32;
    let chip = ACCENT;
    let px = glyph_rgba(chip, size);
    assert_eq!(px.len(), (size * size * 4) as usize);
    let at = |x: u32, y: u32| {
        let o = ((y * size + x) * 4) as usize;
        [px[o], px[o + 1], px[o + 2], px[o + 3]]
    };
    assert_eq!(
        at(size / 2, size / 4),
        chip,
        "chip body should be solid state colour"
    );
    let carved = at((size as f32 * 0.30) as u32, size / 2);
    assert_ne!(
        carved, chip,
        "the carved track must differ from the chip body"
    );
    assert!(
        carved[3] < chip[3],
        "the carved track is more transparent than the chip"
    );
}

#[test]
fn window_icon_is_32px_rgba() {
    let rgba = window_icon();
    assert_eq!(rgba.len(), (32 * 32 * 4) as usize);
    assert_eq!(rgba, glyph_rgba(ACCENT, 32));
}

#[test]
fn clear_samples_lend_no_colour() {
    let src = [
        200, 100, 50, 255, 0, 0, 0, 0, //
        0, 0, 0, 0, 200, 100, 50, 255,
    ];
    assert_eq!(downsample(&src, 2, 2, 1), vec![200, 100, 50, 127]);
}

#[test]
fn menu_ids_map_to_actions() {
    assert_eq!(menu_action(ID_SAVE), Some(MenuAction::Save));
    assert_eq!(menu_action(ID_PAUSE), Some(MenuAction::TogglePause));
    assert_eq!(menu_action(ID_RECORD), Some(MenuAction::ToggleRecord));
    assert_eq!(menu_action(ID_SETTINGS), Some(MenuAction::OpenSettings));
    assert_eq!(menu_action(ID_OPEN), Some(MenuAction::OpenFolder));
    assert_eq!(menu_action(ID_AUTOSTART), Some(MenuAction::ToggleAutostart));
    assert_eq!(menu_action(ID_QUIT), Some(MenuAction::Quit));
}

#[test]
fn unknown_menu_id_maps_to_nothing() {
    assert_eq!(menu_action("bogus"), None);
}

#[test]
fn each_state_has_a_distinct_colour() {
    let states = [
        TrayState::Buffering,
        TrayState::Paused,
        TrayState::Warning,
        TrayState::Error,
    ];
    for (i, a) in states.iter().enumerate() {
        for b in &states[i + 1..] {
            assert_ne!(
                state_color(*a),
                state_color(*b),
                "states {a:?} and {b:?} share a colour"
            );
        }
    }
}

#[test]
fn icon_rgba_is_the_glyph_not_a_solid_fill() {
    let px = icon_rgba(TrayState::Buffering);
    assert_eq!(px.len(), (ICON_SIZE * ICON_SIZE * 4) as usize);
    let chip = state_color(TrayState::Buffering);
    let at = |x: u32, y: u32| {
        let o = ((y * ICON_SIZE + x) * 4) as usize;
        [px[o], px[o + 1], px[o + 2], px[o + 3]]
    };
    assert_eq!(at(ICON_SIZE / 2, ICON_SIZE / 4), chip);
    let carved = at((ICON_SIZE as f32 * 0.30) as u32, ICON_SIZE / 2);
    assert_ne!(carved, chip);
}

#[test]
fn an_icon_is_handed_over_as_colours_and_a_mask() {
    let (bgra, mask) = icon_buffers(&[1, 2, 3, 255, 4, 5, 6, 0]);
    assert_eq!(bgra, vec![3, 2, 1, 255, 6, 5, 4, 0]);
    assert_eq!(mask, vec![0, 1]);
}

#[test]
fn the_shell_follows_the_menu() {
    let mut shell = Shell::new(false);
    assert_eq!(shell.handle_menu(ID_SAVE), ShellAction::Send(EngineCommand::SaveClip));
    assert_eq!(shell.handle_menu(ID_PAUSE), ShellAction::Pause(true));
    assert_eq!(shell.handle_menu(ID_PAUSE), ShellAction::Pause(false));
    assert_eq!(shell.handle_menu(ID_AUTOSTART), ShellAction::SetAutostart(true));
    assert!(!shell.toggle_autostart(true, false));
    assert!(shell.toggle_autostart(true, true));
    assert_eq!(shell.handle_menu(ID_AUTOSTART), ShellAction::SetAutostart(false));
    assert_eq!(shell.handle_menu("bogus"), ShellAction::Nothing);
    assert_eq!(shell.handle_menu(ID_QUIT), ShellAction::Quit);
    shell.open_settings_on_start();
    assert!(shell.take_open_on_start());
    assert!(!shell.take_open_on_start());
}

#[test]
fn the_shell_shows_state_and_recording() {
    let mut shell = Shell::new(false);
    assert!(!shell.set_state(TrayState::Buffering));
    assert!(shell.set_state(TrayState::Warning));
    assert!(shell.poll_status(true).is_some());
    assert_eq!(shell.poll_status(true), None);
    assert_eq!(shell.tooltip(), tooltip(TrayState::Warning, true));
    assert_ne!(tooltip(TrayState::Warning, true), tooltip(TrayState::Warning, false));
    assert_eq!(restarted_title(), format!("{PRODUCT_NAME} restarted"));
}

#[test]
fn a_round_ends_by_quit_then_restart_then_worker() {
    let mut shell = Shell::new(false);
    assert_eq!(shell.end_round(false, false, false), None);
    assert_eq!(
        shell.end_round(true, true, true),
        Some(RoundEnd { outcome: ShellOutcome::Quit, tell_engine: true })
    );
    assert_eq!(
        shell.end_round(false, true, true),
        Some(RoundEnd { outcome: ShellOutcome::Restart, tell_engine: true })
    );
    assert_eq!(
        shell.end_round(false, false, true),
        Some(RoundEnd { outcome: ShellOutcome::Quit, tell_engine: false })
    );
}

#[test]
fn clamp_keeps_a_fitting_window_and_pins_an_offscreen_one() {
    assert_eq!(clamp_to_virtual_screen(None, 10, 20, 400, 300), (10, 20));
    assert_eq!(virtual_screen_rect(0, 0, 0, 1080), None);
    let screen = virtual_screen_rect(-1920, 0, 3840, 1080);
    let s = screen.expect("a screen");
    let (w, h) = (400u32, 300u32);
    let (cx, cy) = clamp_to_virtual_screen(screen, 999_999, 999_999, w, h);
    assert!(
        cx >= s.x as i64 && cx + w as i64 <= (s.x + s.width) as i64,
        "x off-screen: {cx}"
    );
    assert!(
        cy >= s.y as i64 && cy + h as i64 <= (s.y + s.height) as i64,
        "y off-screen: {cy}"
    );
    let (ox, oy) = clamp_to_virtual_screen(screen, s.x as i64, s.y as i64, w, h);
    assert_eq!((ox, oy), (s.x as i64, s.y as i64));
    assert_eq!(clamp_to_virtual_screen(screen, 5, 5, 9999, 300), (-1920, 5));
}

#[test]
fn the_window_is_remembered_in_the_products_folder() {
    let path = state_path(Some("C:\\Local"));
    assert!(path.starts_with("C:\\Local\\clipd\\"), "{path}");
    assert_eq!(
        log_location(Some("C:\\Local")),
        format!("window geometry persisted here (A4) path={path} product=clipd")
    );
}

#[test]
fn the_newest_outcome_is_shown() {
    let show = |text: &str| PillCommand::Show(true, text.to_string());
    assert_eq!(drain(&[]), PillNews::Nothing);
    assert_eq!(drain(&[show("a"), show("b")]), PillNews::Show(1));
    assert_eq!(drain(&[show("a"), PillCommand::Quit, show("b")]), PillNews::Quit);
}

#[test]
fn a_window_opens_on_the_screen_that_is_there() {
    let screen = virtual_screen_rect(0, 0, 1920, 1080);
    let first = opening(None, screen);
    assert_eq!((first.width, first.height, first.at), (560, 440, None));
    let saved = WindowState {
        width: 100,
        height: 500,
        x: Some(5_000),
        y: Some(10),
        maximized: true,
    };
    let again = opening(Some(saved), screen);
    assert_eq!((again.width, again.height), (440, 500));
    assert_eq!(again.at, Some((1_480, 10)));
    assert!(again.maximized);
    let nowhere = opening(Some(WindowState { x: None, ..saved }), screen);
    assert_eq!(nowhere.at, None);
}

#[test]
fn a_failed_save_is_a_warning() {
    let good = saved(true, 12_000, "", "C:\\clips".to_string());
    assert_eq!((good.body.as_str(), good.error), ("Clip saved · 12 s", false));
    let bad = saved(false, 0, "disk full", "C:\\logs".to_string());
    assert!(bad.error && bad.body.ends_with("disk full"));
    assert_eq!(bad.click_dir, "C:\\logs");
    let told = info("clipd restarted", "Settings applied.", "C:\\clips".to_string());
    assert!(!told.error);
    assert_eq!(told.title, "clipd restarted");
}
