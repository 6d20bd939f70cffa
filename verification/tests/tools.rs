//! The clip check, the sync rig and the probes.

use clipd::check::micros::{parse_micros, parse_times, push_millis3, push_seconds6, split};
use clipd::check::report::{
    all_pass, audio_tracks, clip_report, exit_status, full_decode_ok, has_video, probe_error, tally, track_label, verify_clip, Findings,
};
use clipd::check::streams::{
    check_stream_shape, find_kind, listed_streams, parse_rational, parse_streams, FrameRate, RawStream, StreamInfo,
};
use clipd::check::timing::{
    check_cfr, check_end_alignment, check_monotonic, check_rebase_origin, expected_delta,
    median_delta, Delta, TrackTime,
};
use clipd::audio::{AudioDevice, AudioTrackKind};
use clipd::config::VcApp;
use clipd::probe::{
    aac_line, binding_text, enabled_apps, encode_line, frame_pts, list_devices, live_binding,
    loopback_file, next_block, next_input, no_packets_note, parse_loopback, probe_status,
    scan_line, stream_of, Binding, BindingWatch, LoopbackFault, PacketCount, ProbePacket,
    ProbeStream, PullStep, StreamStat, WindowWatch,
};
use clipd::rig::analysis::{pair_events, rising_edges, summarize, Pairing};
use clipd::rig::generator::{parse_flash, splice, FlashArgs, Schedule};
use clipd::rig::measure::{click_series, ff_escape, parse_luma, run_measure};

fn vid(codec: &str) -> StreamInfo {
    StreamInfo {
        codec_type: "video".into(),
        codec_name: codec.into(),
        sample_rate: None,
        channels: None,
    }
}

fn aud(codec: &str, rate: Option<u32>, ch: Option<u32>) -> StreamInfo {
    StreamInfo {
        codec_type: "audio".into(),
        codec_name: codec.into(),
        sample_rate: rate,
        channels: ch,
    }
}

#[test]
fn stream_shape_accepts_one_video_two_aac() {
    let s = [
        vid("h264"),
        aud("aac", Some(48_000), Some(2)),
        aud("aac", Some(48_000), Some(2)),
    ];
    assert!(check_stream_shape(&s).pass);
}

#[test]
fn stream_shape_rejects_missing_video() {
    let s = [aud("aac", Some(48_000), Some(2))];
    assert!(!check_stream_shape(&s).pass);
}

#[test]
fn stream_shape_rejects_two_video() {
    let s = [vid("h264"), vid("h264"), aud("aac", Some(48_000), Some(2))];
    assert!(!check_stream_shape(&s).pass);
}

#[test]
fn stream_shape_rejects_wrong_sample_rate() {
    let s = [vid("h264"), aud("aac", Some(44_100), Some(2))];
    assert!(!check_stream_shape(&s).pass);
}

#[test]
fn stream_shape_rejects_non_aac_audio() {
    let s = [vid("h264"), aud("mp3", Some(48_000), Some(2))];
    assert!(!check_stream_shape(&s).pass);
}

#[test]
fn stream_shape_rejects_no_audio() {
    let s = [vid("h264")];
    assert!(!check_stream_shape(&s).pass);
}

#[test]
fn stream_shape_rejects_another_picture_and_mono() {
    let s = [vid("hevc"), aud("aac", Some(48_000), Some(2))];
    assert!(!check_stream_shape(&s).pass);
    let s = [vid("h264"), aud("aac", Some(48_000), Some(1))];
    assert!(!check_stream_shape(&s).pass);
}

/// A time in seconds, in whole microseconds.
fn us(s: f64) -> i64 {
    (s * 1e6).round() as i64
}

#[test]
fn monotonic_accepts_increasing() {
    let pts = [us(0.0), us(0.016667), us(0.033333), us(0.05)];
    assert!(check_monotonic("v", &pts).pass);
}

#[test]
fn monotonic_rejects_backward_step() {
    let pts = [us(0.0), us(0.016667), us(0.016667), us(0.05)];
    assert!(!check_monotonic("v", &pts).pass);
    let pts2 = [us(0.0), us(0.02), us(0.01)];
    assert!(!check_monotonic("v", &pts2).pass);
}

#[test]
fn monotonic_rejects_empty() {
    assert!(!check_monotonic("v", &[]).pass);
}

const D60: Delta = Delta {
    num: 1_000_000,
    den: 60,
};

#[test]
fn cfr_accepts_constant_60fps() {
    let d = 1.0 / 60.0;
    let pts: Vec<i64> = (0..120).map(|k| us(k as f64 * d)).collect();
    assert!(check_cfr(&pts, D60).pass);
}

#[test]
fn cfr_accepts_microsecond_rounding() {
    let d = 1.0 / 60.0;
    let pts: Vec<i64> = (0..120)
        .map(|k| us(((k as f64 * d) * 1e6).round() / 1e6))
        .collect();
    assert!(check_cfr(&pts, D60).pass);
}

#[test]
fn cfr_rejects_dropped_frame() {
    let d = 1.0 / 60.0;
    let mut pts: Vec<f64> = (0..60).map(|k| k as f64 * d).collect();
    for p in pts.iter_mut().skip(30) {
        *p += d;
    }
    let pts: Vec<i64> = pts.iter().map(|p| us(*p)).collect();
    assert!(!check_cfr(&pts, D60).pass);
}

#[test]
fn cfr_rejects_duplicate_pts() {
    let d = 1.0 / 60.0;
    let pts = [us(0.0), us(d), us(d), us(2.0 * d)];
    assert!(!check_cfr(&pts, D60).pass);
}

#[test]
fn the_spacing_is_the_stated_one_or_the_median() {
    assert_eq!(
        expected_delta(Some(FrameRate { num: 60, den: 1 }), &[]),
        Delta {
            num: 1_000_000,
            den: 60
        }
    );
    assert_eq!(median_delta(&[0, 10, 30, 35, 135]), 20);
    assert_eq!(median_delta(&[7]), 0);
}

/// What is added to a track's last time to get its end, in whole microseconds.
const AAC_FRAME_US: i64 = 21_333;

const AAC_FRAME_S: f64 = 1024.0 / 48_000.0;

/// A track that ends at a time.
fn ends(label: &str, end_s: f64) -> TrackTime {
    TrackTime {
        label: label.to_string(),
        time: us(end_s) - AAC_FRAME_US,
    }
}

/// A picture whose last frame lasts no time.
const AT_ONCE: Delta = Delta { num: 0, den: 1 };

#[test]
fn end_alignment_accepts_within_one_frame() {
    let a = [ends("desktop", 30.010), ends("mic", 29.995)];
    assert!(check_end_alignment(us(30.0), AT_ONCE, &a).pass);
}

#[test]
fn end_alignment_rejects_two_frames_off() {
    let a = [ends("desktop", 30.045)];
    assert!(!check_end_alignment(us(30.0), AT_ONCE, &a).pass);
}

#[test]
fn end_alignment_boundary_just_inside() {
    let a = [ends("desktop", 30.0 + AAC_FRAME_S - 0.0005)];
    assert!(check_end_alignment(us(30.0), AT_ONCE, &a).pass);
}

#[test]
fn the_last_frame_lasts_as_long_as_the_others() {
    let a = [TrackTime {
        label: "desktop".to_string(),
        time: 30_000_000,
    }];
    assert!(check_end_alignment(30_000_000, AT_ONCE, &a).pass);
    let late = Delta {
        num: 50_000,
        den: 1,
    };
    assert!(!check_end_alignment(30_000_000, late, &a).pass);
}

fn starts(label: &str, head_s: f64) -> TrackTime {
    TrackTime {
        label: label.to_string(),
        time: us(head_s),
    }
}

#[test]
fn rebase_origin_accepts_zero_video_and_small_head() {
    let a = [starts("desktop", 0.005), starts("mic", 0.0)];
    assert!(check_rebase_origin(us(0.0), &a).pass);
}

#[test]
fn rebase_origin_accepts_head_at_frame_boundary() {
    let a = [starts("desktop", AAC_FRAME_S - 0.0005)];
    assert!(check_rebase_origin(us(0.0), &a).pass);
}

#[test]
fn rebase_origin_rejects_nonzero_video() {
    let a = [starts("desktop", 0.0)];
    assert!(!check_rebase_origin(us(0.5), &a).pass);
}

#[test]
fn rebase_origin_rejects_excessive_head_silence() {
    let a = [starts("desktop", 0.050)];
    assert!(!check_rebase_origin(us(0.0), &a).pass);
}

#[test]
fn rational_parses_and_handles_na() {
    assert_eq!(parse_rational("60/1"), Some(FrameRate { num: 60, den: 1 }));
    assert_eq!(
        parse_rational("60000/1001"),
        Some(FrameRate {
            num: 60000,
            den: 1001
        })
    );
    assert_eq!(parse_rational("0/0"), None);
    assert_eq!(parse_rational("garbage"), None);
}

#[test]
fn times_are_read_and_shown() {
    assert_eq!(split("a,b,,c", ','), vec!["a", "b", "", "c"]);
    assert_eq!(parse_micros("1.5"), Some(1_500_000));
    assert_eq!(parse_micros("-0.000001"), Some(-1));
    assert_eq!(parse_micros("N/A"), None);
    assert_eq!(parse_micros("1.2345678"), Some(1_234_568));
    assert_eq!(parse_micros("0.0000005"), Some(1));
    assert_eq!(parse_micros("5e-05"), Some(50));
    assert_eq!(parse_micros("1.5E+3"), Some(1_500_000_000));
    assert_eq!(parse_micros("3e-9"), Some(0));
    assert_eq!(parse_micros(" .5 "), Some(500_000));
    assert_eq!(parse_micros("+2."), Some(2_000_000));
    assert_eq!(parse_micros("1e30"), None);
    assert_eq!(parse_micros("1.5e0003"), Some(1_500_000_000));
    assert_eq!(parse_micros("25e-00000000001"), Some(2_500_000));
    assert_eq!(parse_micros("1e-99999999999999999999999999999999999"), Some(0));
    assert_eq!(parse_micros("0e99999999999999999999999999999999999"), Some(0));
    assert_eq!(parse_micros("1e99999999999999999999999999999999999"), None);
    assert_eq!(parse_micros("0e30"), Some(0));
    assert_eq!(parse_micros("."), None);
    assert_eq!(parse_micros("1e"), None);
    assert_eq!(parse_micros("1x"), None);
    assert_eq!(parse_times("0.000000,\nN/A\n0.016667\n"), vec![0, 16_667]);
    let mut s = String::new();
    push_seconds6(&mut s, 16_667);
    s.push(' ');
    push_millis3(&mut s, -1_234);
    assert_eq!(s, "0.016667 -1.234");
}

const LISTING: &str = "[STREAM]\ncodec_name=h264\ncodec_type=video\navg_frame_rate=60/1\n[/STREAM]\n\
[STREAM]\ncodec_name=aac\ncodec_type=audio\nsample_rate=48000\nchannels=2\navg_frame_rate=0/0\n[/STREAM]\n";

#[test]
fn a_listing_of_streams_is_read() {
    let streams: Vec<RawStream> = parse_streams(LISTING);
    assert_eq!(streams.len(), 2);
    assert_eq!(streams[0].info, vid("h264"));
    assert_eq!(
        streams[0].avg_frame_rate,
        Some(FrameRate { num: 60, den: 1 })
    );
    assert_eq!(streams[1].info, aud("aac", Some(48_000), Some(2)));
    assert_eq!(streams[1].avg_frame_rate, None);
    assert!(has_video(&streams));
    assert_eq!(audio_tracks(&streams), 1);
    let infos = [vid("h264"), aud("aac", None, None), vid("h264")];
    assert_eq!(find_kind(&infos, "video"), vec![0, 2]);
    assert!(parse_streams("").is_empty());
}

fn good_findings() -> Findings {
    Findings {
        streams: Ok(parse_streams(LISTING)),
        video: Ok((0..60).map(|k| us(k as f64 / 60.0)).collect()),
        audio: vec![Ok((0..46).map(|k| us(k as f64 * AAC_FRAME_S)).collect())],
        decoded: Ok(()),
    }
}

#[test]
fn a_good_clip_passes_and_a_broken_one_does_not() {
    let checks = verify_clip(&good_findings());
    for c in &checks {
        assert!(c.pass, "{}: {}", c.name, c.detail);
    }
    assert!(all_pass(&checks));

    let mut f = good_findings();
    f.decoded = Err("moov atom not found".to_string());
    assert!(!all_pass(&verify_clip(&f)));
    let mut f = good_findings();
    f.video = Err("ffprobe failed".to_string());
    assert!(!all_pass(&verify_clip(&f)));
    let mut f = good_findings();
    f.video = Ok(vec![0, 16_667, 16_667]);
    assert!(!all_pass(&verify_clip(&f)));
    assert!(!probe_error("why".to_string()).pass);
    let mut f = good_findings();
    f.streams = Err("ffprobe is not there".to_string());
    let checks = verify_clip(&f);
    assert_eq!(checks.len(), 1);
    assert_eq!((checks[0].name.as_str(), checks[0].pass), ("probe", false));
    assert_eq!(checks[0].detail, "ffprobe is not there");
    assert_eq!(listed_streams("a.mp4", LISTING).unwrap().len(), parse_streams(LISTING).len());
    assert_eq!(
        listed_streams("a.mp4", "").unwrap_err(),
        "ffprobe found no streams in 'a.mp4' (is it a valid clip and ffprobe on PATH?)"
    );
    assert_eq!(track_label(1), "a:1");
}

fn square_series(
    pulses: usize,
    period_s: f64,
    pulse_s: f64,
    dt: f64,
    low: f64,
    high: f64,
    phase_s: f64,
) -> Vec<(f64, f64)> {
    let end = pulses as f64 * period_s + 1.0;
    let mut out = Vec::new();
    let mut t = 0.0;
    while t < end {
        let mut v = low;
        for k in 0..pulses {
            let start = phase_s + k as f64 * period_s;
            if t >= start && t < start + pulse_s {
                v = high;
            }
        }
        out.push((t, v));
        t += dt;
    }
    out
}

/// Samples in whole microseconds and whole units.
fn whole(s: &[(f64, f64)]) -> Vec<(i64, i64)> {
    s.iter().map(|(t, v)| (us(*t), *v as i64)).collect()
}

#[test]
fn rising_edges_finds_each_pulse_once() {
    let s = square_series(5, 2.0, 0.05, 1.0 / 60.0, 0.0, 255.0, 0.5);
    let edges = rising_edges(&whole(&s), 128, us(0.5));
    assert_eq!(edges.len(), 5, "one edge per flash");
    for (k, e) in edges.iter().enumerate() {
        let expect = 0.5 + k as f64 * 2.0;
        assert!(
            (*e as f64 / 1e6 - expect).abs() < 0.05,
            "edge {k} at {e}, expected ~{expect}"
        );
    }
}

#[test]
fn rising_edges_refractory_suppresses_double_counts() {
    let mut s = square_series(1, 2.0, 0.2, 1.0 / 240.0, 0.0, 255.0, 0.5);
    if let Some(mid) = s.iter_mut().find(|(t, _)| (*t - 0.6).abs() < 1.0 / 480.0) {
        mid.1 = 0.0;
    }
    let edges = rising_edges(&whole(&s), 128, us(0.3));
    assert_eq!(edges.len(), 1, "flicker within refractory counts once");
}

#[test]
fn pairing_matches_nearest_and_drops_unpaired() {
    let flashes = [us(1.0), us(3.0), us(5.0)];
    let clicks = [us(1.008), us(3.009), us(5.5)];
    let pairs = pair_events(&flashes, &clicks, us(0.05));
    assert_eq!(pairs.len(), 2, "the far click is not paired");
    assert_eq!(pairs[0].offset_us, us(0.008));
    assert_eq!(pairs[1].offset_us, us(0.009));
}

#[test]
fn summarize_constant_offset_passes_av1_and_av2() {
    let pairs: Vec<Pairing> = (0..300)
        .map(|k| {
            let f = k as f64 * 2.0;
            Pairing {
                flash_us: us(f),
                offset_us: us(0.008),
            }
        })
        .collect();
    let r = summarize(&pairs).unwrap();
    let mean_ms = r.sum_us as f64 / r.n as f64 / 1000.0;
    assert!((mean_ms - 8.0).abs() < 1e-6);
    let drift_ms = r.drift_num as f64 / r.drift_den as f64 / 1000.0;
    assert!(drift_ms.abs() < 1e-6);
    assert_eq!((r.min_us, r.max_us, r.spread), (8_000, 8_000, 0));
    assert!(r.av1_pass && r.av2_pass);
}

#[test]
fn summarize_flags_a_linear_drift() {
    let n = 300;
    let span = 600.0;
    let pairs: Vec<Pairing> = (0..n)
        .map(|k| {
            let f = k as f64 / (n - 1) as f64 * span;
            let off = 0.012 * (f / span);
            Pairing {
                flash_us: us(f),
                offset_us: us(off),
            }
        })
        .collect();
    let r = summarize(&pairs).unwrap();
    let drift_ms = r.drift_num as f64 / r.drift_den as f64 / 1000.0;
    assert!(
        (drift_ms - 12.0).abs() < 0.1,
        "drift ~12 ms, got {drift_ms}"
    );
    assert!(r.av1_pass, "12 ms peak is within AV-1");
    assert!(!r.av2_pass, "12 ms drift must fail AV-2");
}

#[test]
fn summarize_flags_av1_violation() {
    let pairs: Vec<Pairing> = (0..10)
        .map(|k| {
            let f = k as f64;
            Pairing {
                flash_us: us(f),
                offset_us: us(0.020),
            }
        })
        .collect();
    let r = summarize(&pairs).unwrap();
    assert!(!r.av1_pass, "20 ms exceeds AV-1 ±16.7 ms");
    assert_eq!(summarize(&[]), None);
}

#[test]
fn a_recording_is_measured() {
    let luma: Vec<(i64, i64)> = (0..400)
        .map(|k| (k * 16_667, if k % 120 == 60 { 200_000_000 } else { 0 }))
        .collect();
    let audio: Vec<(i64, i64)> = (0..1400)
        .map(|k| (k * 5_000, if k % 400 == 202 { 20_000 } else { 0 }))
        .collect();
    let m = run_measure(&luma, &audio).expect("pairs");
    assert_eq!((m.flashes, m.clicks), (3, 3));
    assert_eq!(m.report.n, 3);
    assert_eq!(m.report.min_us, 9_980 - 80);
    let fault = run_measure(&[], &audio).err().unwrap();
    assert!(fault.starts_with("no video luma samples"), "{fault}");
    let fault = run_measure(&luma, &[]).err().unwrap();
    assert!(fault.starts_with("no audio samples"), "{fault}");
    let quiet = vec![(0, 0)];
    let fault = run_measure(&luma, &quiet).err().unwrap();
    assert!(fault.contains("flashes=3, clicks=0"), "{fault}");
}

#[test]
fn sound_is_looked_at_in_windows() {
    let mut raw = vec![0u8; 960];
    raw[482] = 0x00;
    raw[483] = 0x80;
    let series = click_series(&raw);
    assert_eq!(series, vec![(0, 0), (5_000, 32_768)]);
    assert_eq!(
        parse_luma("0.000000,16.5\nbad\n0.016667,235\n"),
        vec![(0, 16_500_000), (16_667, 235_000_000)]
    );
    assert_eq!(ff_escape("C:\\clips\\a.mp4"), "C\\:/clips/a.mp4");
    assert_eq!(ff_escape("it's.mp4"), "it\\'s.mp4");
}

#[test]
fn flashes_keep_their_times() {
    let args: Vec<String> = ["--seconds", "10", "--interval-ms", "500"]
        .iter()
        .map(|s| s.to_string())
        .collect();
    let a = parse_flash(&args).unwrap();
    assert_eq!(
        a,
        FlashArgs {
            seconds: 10,
            interval_ms: 500,
            flash_ms: 16
        }
    );
    assert_eq!(
        parse_flash(&["--bogus".to_string()]),
        Err("--bogus".to_string())
    );
    let mut s = Schedule::new(a);
    assert!(!s.due(499_999));
    assert!(!s.darken(499_999));
    assert!(s.due(530_000));
    s.light(533_000);
    assert_eq!(s.next, 1_000_000);
    assert!(!s.due(1_000_000), "a flash is shown");
    assert!(!s.darken(548_999), "it counts from when it is on the screen");
    assert!(s.darken(549_000));
    assert!(!s.darken(549_000));
    assert_eq!((s.events, s.lit_since), (1, None));
    assert_eq!(splice(0, 1000, 480), (480, Some(480)));
    assert_eq!(splice(480, 1000, 600), (520, None));
}

fn packet(pts: i64, frames: u32) -> ProbePacket {
    ProbePacket {
        pts,
        frames,
        sample_rate: 48_000,
        silent: false,
        timestamp_error: false,
    }
}

#[test]
fn a_stream_is_counted_with_its_gaps() {
    let mut s = StreamStat::new();
    s.count(packet(0, 480));
    s.count(packet(100_000, 480));
    assert_eq!(s.max_gap_ticks, 0);
    s.count(packet(250_000, 480));
    assert_eq!(s.max_gap_ticks, 50_000);
    s.count(ProbePacket {
        silent: true,
        timestamp_error: true,
        ..packet(350_000, 480)
    });
    assert_eq!((s.packets, s.frames), (4, 1920));
    assert_eq!((s.silent, s.timestamp_errors), (1, 1));
    assert_eq!(s.span_ticks(), 350_000);
}

#[test]
fn the_loopback_probe_knows_its_arguments() {
    let of = |args: &[&str]| {
        let args: Vec<String> = args.iter().map(|s| s.to_string()).collect();
        parse_loopback(&args, 77)
    };
    let a = of(&["--pid", "42", "--seconds", "3", "--out", "x.wav"]).unwrap();
    assert_eq!((a.pid, a.seconds, a.out.as_deref()), (42, 3, Some("x.wav")));
    assert_eq!(of(&["--help"]), Err(LoopbackFault::Help));
    assert_eq!(
        of(&["--pid"]),
        Err(LoopbackFault::NeedsValue("--pid"))
    );
    assert!(matches!(
        of(&["--pid", "x"]),
        Err(LoopbackFault::BadNumber(_, _))
    ));
    assert_eq!(loopback_file(42), "audio_probe_42.wav");
}

#[test]
fn probes_count_what_comes() {
    assert_eq!(frame_pts(60, 60), 10_000_000);
    assert_eq!(frame_pts(1, 60), 166_666);
    let mut done = 0;
    let mut blocks = Vec::new();
    while done < 2500 {
        let n = next_block(2500, done);
        blocks.push(n);
        done += n;
    }
    assert_eq!(blocks.iter().sum::<u64>(), 2500);
    let mut c = PacketCount::new();
    c.count(100, true);
    c.count(50, false);
    assert_eq!((c.packets, c.bytes, c.keyframes), (2, 150, 1));
    let mut w = WindowWatch::new((640, 480));
    assert_eq!(w.resize((640, 480)), None);
    assert_eq!(w.resize((800, 600)), Some((640, 480)));
    assert_eq!(w.resizes, 1);
    assert!(!w.close(false));
    assert!(w.close(true));
    assert!(!w.close(true));
}

#[test]
fn a_binding_lasts_as_long_as_its_process() {
    let b = Some(Binding {
        pid: 7,
        include_tree: true,
    });
    assert_eq!(live_binding(b, &[1, 7]), b);
    assert_eq!(live_binding(b, &[1, 2]), None);
    assert_eq!(live_binding(None, &[7]), None);
    assert_ne!(binding_text(b), binding_text(None));
    assert!(binding_text(b).contains('7'));
}

#[test]
fn a_report_names_each_check() {
    let checks = vec![
        probe_error("no ffprobe".to_string()),
        check_monotonic("v:0", &[0, 1]),
    ];
    let text = clip_report("a.mp4", &checks);
    assert!(
        text.starts_with("\n── a.mp4 — FAIL ──\n  [FAIL] probe\n         no ffprobe\n  [PASS] "),
        "{text}"
    );
    assert!(clip_report("b.mp4", &checks[1..].to_vec()).starts_with("\n── b.mp4 — PASS ──\n"));
    assert_eq!(tally(3, 1), "\n═══ 2/3 clip(s) passed ═══");
    assert_eq!(
        (exit_status(0, 0), exit_status(3, 0), exit_status(3, 1)),
        (2, 0, 1)
    );
}

#[test]
fn a_complaint_of_the_decoder_is_a_fault() {
    assert_eq!(full_decode_ok(true, "exit status: 0", " \n"), Ok(()));
    assert_eq!(
        full_decode_ok(true, "exit status: 0", "bad NAL\n"),
        Err("decode errors: bad NAL".to_string())
    );
    assert_eq!(
        full_decode_ok(false, "exit status: 1", " no file "),
        Err("ffmpeg exited exit status: 1: no file".to_string())
    );
}

#[test]
fn a_scan_is_shown_only_where_it_found_something_else() {
    let b = Some(Binding {
        pid: 7,
        include_tree: true,
    });
    let mut watch = BindingWatch::new();
    assert!(watch.take(None, None));
    assert!(!watch.take(None, None));
    assert!(watch.take(b, None));
    assert!(watch.take(b, b));
    assert!(!watch.take(b, b));
    assert!(watch.take(None, b));
    assert_eq!(
        scan_line(42, Some(7), b, None),
        "  processes=  42  foreground=Some(7)  game=pid 7 (include_tree=true)  voice-chat=none"
    );
    assert_eq!(
        scan_line(12345, None, None, None),
        "  processes=12345  foreground=None  game=none  voice-chat=none"
    );
    for n in [0, 9, 10, 99, 100, 999, 1000, 9999] {
        let expected = format!("  processes={n:4}  foreground=None  game=none  voice-chat=none");
        assert_eq!(scan_line(n, None, None, None), expected);
    }
}

#[test]
fn only_enabled_programs_are_looked_for_and_in_order() {
    let app = |name: &str, enabled| VcApp {
        name: name.to_string(),
        enabled,
    };
    let apps = vec![app("c.exe", true), app("a.exe", false), app("b.exe", true)];
    assert_eq!(enabled_apps(&apps), ["c.exe", "b.exe"]);
    assert!(enabled_apps(&Vec::new()).is_empty());
}

#[test]
fn microphones_are_listed_with_their_ids() {
    let mic = AudioDevice {
        id: "{0.0.1}".to_string(),
        name: "Mic".to_string(),
    };
    assert_eq!(
        list_devices(&[mic]),
        "active capture (microphone) endpoints:\n  {0.0.1}\tMic\n\n\
         pin one by setting [audio].mic = \"<id>\" in config.toml \
         (or use Settings → Microphone).\n"
    );
    assert_eq!(
        list_devices(&[]),
        "no active capture (microphone) endpoints found \
         (or enumeration failed — check the log)\n"
    );
}

#[test]
fn a_series_that_begins_high_has_no_edge_there() {
    let s = [(0, 255), (1_000_000, 0), (2_000_000, 255)];
    assert_eq!(rising_edges(&s, 128, 500_000), vec![2_000_000]);
    assert!(rising_edges(&[(0, 255), (1_000_000, 255)], 128, 500_000).is_empty());
}

#[test]
fn a_track_may_not_begin_before_zero() {
    let c = check_rebase_origin(us(0.0), &[starts("desktop", -0.0005)]);
    assert!(!c.pass);
    assert_eq!(
        c.name,
        "save rebase origin (video@0, audio head ≤ 1 AAC frame, §4.3/§4.4)"
    );
    assert_eq!(
        c.detail,
        "audio [desktop] head-silence -0.500 ms outside [0, 21.33 ms] (§4.4)"
    );
    assert!(check_rebase_origin(us(-0.0005), &[]).pass);
}

#[test]
fn the_encoder_gets_a_fresh_frame_or_the_last_one_again() {
    assert_eq!(next_input(60, 60, true, true), PullStep::Stop);
    assert_eq!(next_input(59, 60, true, true), PullStep::Fresh);
    assert_eq!(next_input(59, 60, false, true), PullStep::Reuse);
    assert_eq!(next_input(0, 60, false, false), PullStep::Wait);
}

#[test]
fn probes_say_what_they_counted() {
    let mut c = PacketCount::new();
    c.count(250_000, true);
    c.count(250_000, false);
    assert_eq!(
        encode_line(3, &c, 2),
        "done: 3 in / 2 out, 1 keyframes, 500000 bytes (~2000 kbps avg)"
    );
    assert_eq!(
        aac_line(2, &c),
        "encoded 2s tone: 2 access units (~93 expected), 500000 bytes (~2000 kbps avg)"
    );
    assert!(no_packets_note(0).is_some() && no_packets_note(1).is_none());
    assert_eq!((probe_status(true), probe_status(false)), (0, 1));
    assert_eq!(stream_of(AudioTrackKind::Mic), ProbeStream::Mic);
    assert_eq!(stream_of(AudioTrackKind::Game), ProbeStream::Desktop);
    let mut s = StreamStat::new();
    s.count_captured(packet(0, 0));
    assert_eq!(s, StreamStat::new());
    s.count_captured(packet(0, 480));
    assert_eq!((s.packets, s.frames), (1, 480));
}
