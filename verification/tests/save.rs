//! What a save takes from the ring.

use clipd::audio::AudioTrackKind;
use clipd::encode::{EncodedAudioPacket, EncodedPacket};
use clipd::ring::{Ring, RingCaps};
use clipd::save::feed::{merged_feed, Feed};
use clipd::save::window::{select_window, SaveError, SaveWindow};
use std::sync::Arc;

fn vpkt(pts: i64, dur: i64, keyframe: bool, epoch: u32) -> EncodedPacket {
    EncodedPacket {
        data: Arc::from(vec![0u8; 8]),
        pts,
        duration: dur,
        is_keyframe: keyframe,
        epoch_id: epoch,
    }
}
fn apkt(pts: i64, dur: i64) -> EncodedAudioPacket {
    EncodedAudioPacket {
        stream: AudioTrackKind::Mix,
        data: Arc::from(vec![0u8; 4]),
        pts,
        duration: dur,
    }
}

fn open_ring(tracks: usize) -> Ring {
    Ring::new(RingCaps {
        max_duration_ticks: i64::MAX,
        max_bytes: u64::MAX,
        num_audio_tracks: tracks,
    })
}

fn push_gops(
    ring: &mut Ring,
    start: i64,
    gops: usize,
    frames: usize,
    d: i64,
    epoch: u32,
) -> i64 {
    let mut pts = start;
    for _ in 0..gops {
        for f in 0..frames {
            ring.push_video(vpkt(pts, d, f == 0, epoch));
            pts += d;
        }
    }
    pts
}

fn vptss(w: &SaveWindow) -> Vec<i64> {
    w.video.iter().map(|p| p.pts).collect()
}

#[test]
fn idr_walkback_picks_newest_idr_at_or_before_target() {
    let mut ring = open_ring(0);
    push_gops(&mut ring, 0, 2, 4, 1_000, 0);
    let w = select_window(&ring, 5_500).unwrap();
    assert_eq!(w.origin, 4_000);
    assert!(!w.clamped);
    assert_eq!(vptss(&w), vec![4_000, 5_000, 6_000, 7_000]);
    assert_eq!(w.last_video_pts, 7_000);
}

#[test]
fn idr_walkback_target_before_second_idr_uses_first() {
    let mut ring = open_ring(0);
    push_gops(&mut ring, 0, 2, 4, 1_000, 0);
    let w = select_window(&ring, 3_999).unwrap();
    assert_eq!(w.origin, 0);
    assert!(!w.clamped);
    assert_eq!(vptss(&w).len(), 8);
}

#[test]
fn epoch_clamp_when_target_precedes_newest_epoch_first_idr() {
    let mut ring = open_ring(0);
    ring.push_video(vpkt(0, 1_000, true, 0));
    ring.push_video(vpkt(1_000, 1_000, false, 0));
    ring.push_video(vpkt(2_000, 1_000, true, 1));
    ring.push_video(vpkt(3_000, 1_000, false, 1));
    ring.push_video(vpkt(4_000, 1_000, true, 1));
    ring.push_video(vpkt(5_000, 1_000, false, 1));
    let w = select_window(&ring, 1_500).unwrap();
    assert_eq!(w.epoch_id, 1);
    assert!(w.clamped);
    assert_eq!(w.origin, 2_000);
    assert_eq!(vptss(&w), vec![2_000, 3_000, 4_000, 5_000]);
}

#[test]
fn newest_epoch_only_even_when_older_epoch_has_idr_at_or_before_target() {
    let mut ring = open_ring(0);
    ring.push_video(vpkt(0, 1_000, true, 0));
    ring.push_video(vpkt(1_000, 1_000, false, 0));
    ring.push_video(vpkt(2_000, 1_000, true, 1));
    ring.push_video(vpkt(3_000, 1_000, false, 1));
    let w = select_window(&ring, 2_500).unwrap();
    assert_eq!(w.epoch_id, 1);
    assert!(!w.clamped);
    assert_eq!(w.origin, 2_000);
    assert_eq!(vptss(&w), vec![2_000, 3_000]);
}

#[test]
fn trailing_audio_bounded_to_last_video_plus_d() {
    let mut ring = open_ring(1);
    push_gops(&mut ring, 0, 1, 4, 1_000, 0);
    for pts in (0..=4_500).step_by(500) {
        ring.push_audio(0, apkt(pts, 213_333));
    }
    let w = select_window(&ring, 3_000).unwrap();
    let a: Vec<i64> = w.audio[0].iter().map(|p| p.pts).collect();
    assert_eq!(a, vec![0, 500, 1_000, 1_500, 2_000, 2_500, 3_000, 3_500]);
}

#[test]
fn audio_head_starts_at_first_packet_at_or_after_origin() {
    let mut ring = open_ring(1);
    push_gops(&mut ring, 0, 2, 4, 1_000, 0);
    for pts in (3_000..=7_000).step_by(500) {
        ring.push_audio(0, apkt(pts, 213_333));
    }
    let w = select_window(&ring, 5_500).unwrap();
    let a: Vec<i64> = w.audio[0].iter().map(|p| p.pts).collect();
    assert_eq!(*a.first().unwrap(), 4_000);
    assert!(*a.last().unwrap() < 8_000);
}

#[test]
fn video_trimmed_to_audio_end_when_audio_lags() {
    let mut ring = open_ring(1);
    push_gops(&mut ring, 0, 1, 6, 1_000, 0);
    for pts in (0..=2_000).step_by(1_000) {
        ring.push_audio(0, apkt(pts, 1_000));
    }
    let w = select_window(&ring, 0).unwrap();
    assert_eq!(vptss(&w), vec![0, 1_000, 2_000]);
    assert_eq!(w.last_video_pts, 2_000);
    let a: Vec<i64> = w.audio[0].iter().map(|p| p.pts).collect();
    assert_eq!(a, vec![0, 1_000, 2_000]);
}

#[test]
fn two_audio_tracks_selected_independently() {
    let mut ring = open_ring(2);
    push_gops(&mut ring, 0, 1, 4, 1_000, 0);
    for pts in (0..=4_000).step_by(1_000) {
        ring.push_audio(0, apkt(pts, 213_333));
        ring.push_audio(1, apkt(pts, 213_333));
    }
    let w = select_window(&ring, 0).unwrap();
    assert_eq!(w.audio.len(), 2);
    for track in &w.audio {
        let a: Vec<i64> = track.iter().map(|p| p.pts).collect();
        assert_eq!(a, vec![0, 1_000, 2_000, 3_000]);
    }
}

#[test]
fn empty_ring_errors() {
    let ring = open_ring(1);
    assert!(matches!(select_window(&ring, 0), Err(SaveError::Empty)));
}

#[test]
fn merged_feed_is_pts_ordered_video_first_on_ties() {
    let mut ring = open_ring(1);
    push_gops(&mut ring, 0, 1, 3, 1_000, 0);
    ring.push_audio(0, apkt(0, 213_333));
    ring.push_audio(0, apkt(1_000, 213_333));
    let w = select_window(&ring, 0).unwrap();
    let feed = merged_feed(&w);
    assert!(matches!(feed[0], Feed::Video(p) if p.pts == 0 && p.is_keyframe));
    assert!(matches!(feed[1], Feed::Audio(0, a) if a.pts == 0));
    let ptss: Vec<i64> = feed.iter().map(Feed::pts).collect();
    assert!(ptss.windows(2).all(|w| w[0] <= w[1]));
}

#[test]
fn an_earlier_target_starts_no_later() {
    let mut ring = open_ring(0);
    push_gops(&mut ring, 1_000, 3, 4, 1_000, 0);
    let mut origins: Vec<i64> = Vec::new();
    for target in [0, 1_000, 4_999, 5_000, 8_999, 9_000, 20_000] {
        origins.push(select_window(&ring, target).unwrap().origin);
    }
    assert_eq!(origins, vec![1_000, 1_000, 1_000, 5_000, 5_000, 9_000, 9_000]);
}
