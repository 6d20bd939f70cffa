//! The packet ring.

use clipd::constants::ring::AUDIO_EVICTION_SLACK_MS;
use clipd::constants::units::TICKS_PER_MILLISECOND;
use clipd::encode::{EncodedAudioPacket, EncodedPacket};
use clipd::ring::{Ring, RingCaps};
use clipd::audio::AudioTrackKind;
use std::sync::Arc;

fn vpkt(pts: i64, dur: i64, keyframe: bool, size: usize) -> EncodedPacket {
    EncodedPacket {
        data: Arc::from(vec![0u8; size]),
        pts,
        duration: dur,
        is_keyframe: keyframe,
        epoch_id: 0,
    }
}

fn apkt(pts: i64, dur: i64, size: usize) -> EncodedAudioPacket {
    EncodedAudioPacket {
        stream: AudioTrackKind::Mix,
        data: Arc::from(vec![0u8; size]),
        pts,
        duration: dur,
    }
}

fn push_gops(ring: &mut Ring, gops: usize, frames: usize, d: i64, size: usize) {
    let mut pts = 0i64;
    for _ in 0..gops {
        for f in 0..frames {
            ring.push_video(vpkt(pts, d, f == 0, size));
            pts += d;
        }
    }
}

fn keyframe_ptss(ring: &Ring) -> Vec<i64> {
    ring.video()
        .iter()
        .filter(|p| p.is_keyframe)
        .map(|p| p.pts)
        .collect()
}

fn caps(max_duration_ticks: i64, max_bytes: u64, tracks: usize) -> RingCaps {
    RingCaps {
        max_duration_ticks,
        max_bytes,
        num_audio_tracks: tracks,
    }
}

#[test]
fn duration_cap_evicts_oldest_whole_gop() {
    let mut ring = Ring::new(caps(8_000, u64::MAX, 0));
    push_gops(&mut ring, 4, 4, 1_000, 10);
    assert!(ring.duration_ticks() <= 8_000);
    assert!(ring.video().front().unwrap().is_keyframe);
    assert_eq!(keyframe_ptss(&ring), vec![8_000, 12_000]);
}

#[test]
fn eviction_never_exposes_a_partial_gop() {
    let mut ring = Ring::new(caps(4_000, u64::MAX, 0));
    let (d, frames, size) = (1_000i64, 4usize, 10usize);
    let mut pts = 0i64;
    for g in 0..10 {
        for f in 0..frames {
            ring.push_video(vpkt(pts, d, f == 0, size));
            pts += d;
            if !ring.is_empty() {
                assert!(
                    ring.video().front().unwrap().is_keyframe,
                    "front not a keyframe after GOP {g} frame {f}"
                );
            }
        }
    }
}

#[test]
fn byte_cap_pressure_still_evicts_whole_gops() {
    let mut ring = Ring::new(caps(i64::MAX, 900, 0));
    push_gops(&mut ring, 5, 4, 1_000, 100);
    assert!(ring.total_bytes() <= 900);
    assert!(ring.video().front().unwrap().is_keyframe);
    assert_eq!(ring.video().len(), 8);
}

#[test]
fn never_evicts_the_last_gop() {
    let mut ring = Ring::new(caps(1_000, 1, 0));
    push_gops(&mut ring, 1, 4, 1_000, 100);
    assert_eq!(ring.video().len(), 4);
    assert!(ring.video().front().unwrap().is_keyframe);
    assert!(ring.duration_ticks() > 1_000);
    assert!(ring.total_bytes() > 1);
}

#[test]
fn audio_evicted_below_video_front_minus_500ms() {
    let slack = AUDIO_EVICTION_SLACK_MS * TICKS_PER_MILLISECOND;
    let mut ring = Ring::new(caps(8_000, u64::MAX, 1));
    for (pts, key) in [
        (0, true),
        (3_000_000, false),
        (6_000_000, true),
        (9_000_000, false),
    ] {
        ring.push_video(vpkt(pts, 3_000_000, key, 10));
    }
    assert_eq!(ring.video().front().unwrap().pts, 6_000_000);
    let threshold = 6_000_000 - slack;
    for pts in (0..=2_000_000).step_by(500_000) {
        ring.push_audio(0, apkt(pts, 213_333, 5));
    }
    let remaining: Vec<i64> = ring.audio_track(0).unwrap().iter().map(|p| p.pts).collect();
    assert_eq!(remaining, vec![1_000_000, 1_500_000, 2_000_000]);
    assert_eq!(threshold, 1_000_000);
}

#[test]
fn audio_retained_when_no_video() {
    let mut ring = Ring::new(caps(8_000, u64::MAX, 1));
    for pts in (0..10_000_000).step_by(1_000_000) {
        ring.push_audio(0, apkt(pts, 213_333, 5));
    }
    assert_eq!(ring.audio_track(0).unwrap().len(), 10);
}

#[test]
fn push_audio_to_missing_track_is_dropped() {
    let mut ring = Ring::new(caps(8_000, u64::MAX, 1));
    assert!(ring.push_audio(0, apkt(0, 213_333, 5)));
    assert!(!ring.push_audio(1, apkt(0, 213_333, 5)));
    assert_eq!(ring.num_audio_tracks(), 1);
    assert_eq!(ring.total_bytes(), 5);
}

#[test]
fn byte_and_duration_accounting_track_evictions() {
    let mut ring = Ring::new(caps(8_000, u64::MAX, 1));
    push_gops(&mut ring, 4, 4, 1_000, 100);
    ring.push_audio(0, apkt(7_000, 213_333, 40));
    assert_eq!(ring.total_bytes(), 840);
    assert_eq!(ring.duration_ticks(), 8_000);
}

#[test]
fn clear_empties_everything() {
    let mut ring = Ring::new(caps(8_000, u64::MAX, 2));
    push_gops(&mut ring, 2, 4, 1_000, 100);
    ring.push_audio(0, apkt(0, 213_333, 5));
    ring.push_audio(1, apkt(0, 213_333, 5));
    ring.clear();
    assert!(ring.is_empty());
    assert_eq!(ring.total_bytes(), 0);
    assert_eq!(ring.duration_ticks(), 0);
    assert_eq!(ring.audio_track(0).unwrap().len(), 0);
}

#[test]
fn single_gop_under_caps_is_fully_retained() {
    let mut ring = Ring::new(caps(1_000_000, u64::MAX, 0));
    push_gops(&mut ring, 1, 4, 1_000, 100);
    assert_eq!(ring.video().len(), 4);
    assert_eq!(keyframe_ptss(&ring), vec![0]);
}

#[test]
fn a_ring_holds_the_newest_part_of_what_it_was_given() {
    let mut ring = Ring::new(caps(8_000_000, u64::MAX, 1));
    let mut video: Vec<i64> = Vec::new();
    let mut audio: Vec<i64> = Vec::new();
    for i in 0..30i64 {
        let pts = i * 1_000_000;
        ring.push_video(vpkt(pts, 1_000_000, i % 4 == 0, 10));
        video.push(pts);
        assert!(ring.push_audio(0, apkt(pts + 7, 213_333, 5)));
        audio.push(pts + 7);
        assert!(!ring.push_audio(1, apkt(pts + 9, 213_333, 5)));
        let kept: Vec<i64> = ring.video().iter().map(|p| p.pts).collect();
        assert!(video.ends_with(&kept));
        let heard: Vec<i64> = ring.audio_track(0).unwrap().iter().map(|p| p.pts).collect();
        assert!(audio.ends_with(&heard));
    }
    assert_eq!(ring.video().front().unwrap().pts, 24_000_000);
    assert_eq!(ring.audio_track(0).unwrap().front().unwrap().pts, 19_000_007);
}
