//! The replay ring: the most recent encoded packets, within a cap on their duration and one on
//! their bytes.
//!
//! Video leaves in whole groups of pictures, so what stays begins with a keyframe that a clip can
//! start from, and the last group never leaves. Audio follows: what lies more than half a second
//! before the oldest video packet is dropped.

pub mod eviction;
pub mod laws;
pub mod model;

use std::collections::VecDeque;

use vstd::prelude::*;

use crate::constants::ring::AUDIO_EVICTION_SLACK_MS;
use crate::constants::units::TICKS_PER_MILLISECOND;
use crate::encode::{EncodedAudioPacket, EncodedPacket};
use crate::ring::model::{
    audio_bytes, audio_slack, kept_from, keyframe_from, lemma_audio_bytes_push,
    lemma_audio_bytes_skip, lemma_drop_gop_fits, lemma_keyframe_from, lemma_tracks_bytes_bound,
    lemma_tracks_bytes_update, lemma_trim_audio_fits, lemma_video_bytes_push,
    lemma_video_bytes_skip, span, tracks_bytes, trimmed, video_bytes, RingView,
};

verus! {

/// The caps of a ring, both kept at every push.
#[derive(Debug, Clone, Copy)]
pub struct RingCaps {
    /// The longest video duration to keep, in ticks.
    pub max_duration_ticks: i64,
    /// The most bytes to keep, video and audio together.
    pub max_bytes: u64,
    /// The number of audio tracks.
    pub num_audio_tracks: usize,
}

/// The packet ring.
pub struct Ring {
    caps: RingCaps,
    video: VecDeque<EncodedPacket>,
    audio: Vec<VecDeque<EncodedAudioPacket>>,
    video_bytes: u64,
    audio_bytes: u64,
}

/// What the tracks hold.
pub open spec fn track_seqs(audio: Seq<VecDeque<EncodedAudioPacket>>) -> Seq<
    Seq<EncodedAudioPacket>,
> {
    audio.map_values(|track: VecDeque<EncodedAudioPacket>| track@)
}

impl View for Ring {
    type V = RingView;

    closed spec fn view(&self) -> RingView {
        RingView {
            max_duration: self.caps.max_duration_ticks as int,
            max_bytes: self.caps.max_bytes as int,
            video: self.video@,
            audio: track_seqs(self.audio@),
        }
    }
}

impl Ring {
    /// The caps the ring was made with.
    pub closed spec fn spec_caps(&self) -> RingCaps {
        self.caps
    }

    /// That the byte counts match what the ring holds.
    closed spec fn counted(&self) -> bool {
        &&& self.video_bytes == video_bytes(self@.video)
        &&& self.audio_bytes == tracks_bytes(self@.audio, self@.audio.len() as int)
        &&& self.audio@.len() == self.caps.num_audio_tracks
        &&& self@.max_duration == self.caps.max_duration_ticks
        &&& self@.max_bytes == self.caps.max_bytes
    }

    /// That the ring is in order.
    pub closed spec fn wf(&self) -> bool {
        self.counted() && self@.fits()
    }

    /// What being in order means of what the ring holds.
    pub proof fn lemma_wf(&self)
        requires
            self.wf(),
        ensures
            self@.fits(),
            self@.max_duration == self.spec_caps().max_duration_ticks,
            self@.max_bytes == self.spec_caps().max_bytes,
            self@.audio.len() == self.spec_caps().num_audio_tracks,
    {
    }

    /// An empty ring.
    pub fn new(caps: RingCaps) -> (ring: Self)
        ensures
            ring.wf(),
            ring.spec_caps() == caps,
            ring@.max_duration == caps.max_duration_ticks,
            ring@.max_bytes == caps.max_bytes,
            ring@.video.len() == 0,
            ring@.audio.len() == caps.num_audio_tracks,
            forall|t: int| 0 <= t < caps.num_audio_tracks ==> (#[trigger] ring@.audio[t]).len() == 0,
    {
        let mut audio: Vec<VecDeque<EncodedAudioPacket>> = Vec::new();
        let mut i: usize = 0;
        while i < caps.num_audio_tracks
            invariant
                i <= caps.num_audio_tracks,
                audio@.len() == i,
                forall|t: int| 0 <= t < i ==> (#[trigger] audio@[t])@.len() == 0,
                tracks_bytes(track_seqs(audio@), i as int) == 0,
            decreases caps.num_audio_tracks - i,
        {
            let ghost before = track_seqs(audio@);
            audio.push(VecDeque::new());
            proof {
                let after = track_seqs(audio@);
                assert(after =~= before.push(Seq::empty()));
                assert(audio_bytes(after[i as int]) == 0);
                lemma_same_bytes(before, after, i as int);
            }
            i = i + 1;
        }
        let ring = Ring { caps, video: VecDeque::new(), audio, video_bytes: 0, audio_bytes: 0 };
        assert(forall|t: int| 0 <= t < ring@.audio.len() ==> ring@.audio[t] == ring.audio@[t]@);
        ring
    }

    /// Take in one video packet, and keep the caps.
    pub fn push_video(&mut self, packet: EncodedPacket)
        requires
            old(self).wf(),
            old(self)@.with_video(packet).fits(),
        ensures
            final(self).wf(),
            final(self)@ == old(self)@.with_video(packet).enforced(),
            final(self).spec_caps() == old(self).spec_caps(),
    {
        let ghost before = self@;
        proof {
            lemma_video_bytes_push(before.video, packet);
            lemma_tracks_bytes_bound(before.audio, before.audio.len() as int, 0);
        }
        self.video_bytes = self.video_bytes + packet.data.len() as u64;
        self.video.push_back(packet);
        assert(self@ =~= before.with_video(packet));
        self.enforce();
    }

    /// Take in one packet of an audio track, and keep the caps. A packet for a track that does not
    /// exist is dropped: the answer says whether there is one.
    pub fn push_audio(&mut self, track: usize, packet: EncodedAudioPacket) -> (taken: bool)
        requires
            old(self).wf(),
            track < old(self)@.audio.len() ==> old(self)@.with_audio(track as int, packet).fits(),
        ensures
            final(self).wf(),
            taken == (track < old(self)@.audio.len()),
            taken ==> final(self)@ == old(self)@.with_audio(track as int, packet).enforced(),
            !taken ==> final(self)@ == old(self)@,
            final(self).spec_caps() == old(self).spec_caps(),
    {
        if track >= self.audio.len() {
            return false;
        }
        let ghost before = self@;
        let ghost next = before.with_audio(track as int, packet);
        let ghost n = before.audio.len() as int;
        proof {
            lemma_audio_bytes_push(before.audio[track as int], packet);
            lemma_tracks_bytes_update(
                before.audio,
                n,
                track as int,
                before.audio[track as int].push(packet),
            );
            assert(before.video.skip(0) =~= before.video);
            lemma_video_bytes_skip(before.video, 0);
        }
        self.audio_bytes = self.audio_bytes + packet.data.len() as u64;
        self.audio[track].push_back(packet);
        assert(self@.audio =~= next.audio);
        assert(self@ =~= next);
        self.enforce();
        true
    }

    /// Drop everything.
    pub fn clear(&mut self)
        requires
            old(self).wf(),
        ensures
            final(self).wf(),
            final(self)@ == old(self)@.cleared(),
            final(self)@.video.len() == 0,
            final(self)@.audio.len() == old(self)@.audio.len(),
            forall|t: int|
                0 <= t < final(self)@.audio.len() ==> (#[trigger] final(self)@.audio[t]).len() == 0,
            final(self)@.max_duration == old(self)@.max_duration,
            final(self)@.max_bytes == old(self)@.max_bytes,
            final(self).spec_caps() == old(self).spec_caps(),
    {
        let ghost before = self@;
        self.video.clear();
        let mut i: usize = 0;
        while i < self.audio.len()
            invariant
                i <= self.audio@.len(),
                self.audio@.len() == before.audio.len(),
                self.caps == old(self).caps,
                self.video@.len() == 0,
                forall|t: int| 0 <= t < i ==> (#[trigger] self.audio@[t])@.len() == 0,
            decreases self.audio@.len() - i,
        {
            self.audio[i].clear();
            i = i + 1;
        }
        self.video_bytes = 0;
        self.audio_bytes = 0;
        proof {
            assert forall|t: int| 0 <= t < self@.audio.len() implies self@.audio[t]
                == before.cleared().audio[t] by {
                assert(self.audio@[t]@ =~= Seq::empty());
            }
            assert(self@.audio =~= before.cleared().audio);
            assert(self@ =~= before.cleared());
            lemma_no_bytes(self@.audio, self@.audio.len() as int);
        }
    }

    /// The video packets, oldest first.
    pub fn video(&self) -> (v: &VecDeque<EncodedPacket>)
        ensures
            v@ == self@.video,
    {
        &self.video
    }

    /// The packets of an audio track, oldest first.
    pub fn audio_track(&self, track: usize) -> (r: Option<&VecDeque<EncodedAudioPacket>>)
        ensures
            r is Some <==> track < self@.audio.len(),
            r matches Some(v) ==> v@ == self@.audio[track as int],
    {
        if track < self.audio.len() {
            Some(&self.audio[track])
        } else {
            None
        }
    }

    /// The number of audio tracks.
    pub fn num_audio_tracks(&self) -> (n: usize)
        ensures
            n == self@.audio.len(),
    {
        self.audio.len()
    }

    /// The caps the ring was made with.
    pub fn caps(&self) -> (caps: RingCaps)
        ensures
            caps == self.spec_caps(),
    {
        self.caps
    }

    /// The duration of the video in the ring, in ticks.
    pub fn duration_ticks(&self) -> (ticks: i64)
        requires
            self.wf(),
        ensures
            ticks == span(self@.video),
            self@.video.len() == 0 ==> ticks == 0,
            self@.video.len() > 0 ==> ticks == self@.video.last().pts + self@.video.last().duration
                - self@.video[0].pts,
    {
        self.current_span()
    }

    /// The duration of the video in the ring.
    fn current_span(&self) -> (ticks: i64)
        requires
            self@.fits(),
        ensures
            ticks == span(self@.video),
    {
        let n: usize = self.video.len();
        if n == 0 {
            0
        } else {
            assert(i64::MIN <= self@.video[0].pts - audio_slack());
            let back: &EncodedPacket = &self.video[n - 1];
            (back.pts + back.duration) - self.video[0].pts
        }
    }

    /// All bytes in the ring.
    pub fn total_bytes(&self) -> (n: u64)
        requires
            self.wf(),
        ensures
            n == self@.bytes(),
    {
        self.video_bytes + self.audio_bytes
    }

    /// Whether the ring holds no video.
    pub fn is_empty(&self) -> (b: bool)
        ensures
            b == (self@.video.len() == 0),
    {
        self.video.len() == 0
    }

    /// Keep both caps.
    fn enforce(&mut self)
        requires
            old(self).counted(),
            old(self)@.fits(),
        ensures
            final(self).counted(),
            final(self)@.fits(),
            final(self)@ == old(self)@.enforced(),
            final(self).caps == old(self).caps,
    {
        while self.over_cap()
            invariant
                self.counted(),
                self@.fits(),
                self@.enforced() == old(self)@.enforced(),
                self.caps == old(self).caps,
            ensures
                !(self@.over_cap() && self@.has_spare()),
            decreases self@.video.len(),
        {
            let ghost before = self@;
            proof {
                lemma_keyframe_from(before.video, 1);
            }
            if !self.evict_oldest_gop() {
                break;
            }
            self.evict_audio();
        }
        self.evict_audio();
    }

    /// Whether a cap is exceeded.
    fn over_cap(&self) -> (b: bool)
        requires
            self.counted(),
            self@.fits(),
        ensures
            b == self@.over_cap(),
    {
        self.current_span() > self.caps.max_duration_ticks || self.video_bytes + self.audio_bytes
            > self.caps.max_bytes
    }

    /// Whether more than one group of pictures is left.
    fn has_spare_gop(&self) -> (b: bool)
        ensures
            b == self@.has_spare(),
    {
        let mut i: usize = 1;
        while i < self.video.len()
            invariant
                1 <= i,
                i <= self.video@.len() || self.video@.len() < 1,
                keyframe_from(self@.video, 1) == keyframe_from(self@.video, i as int),
            decreases self.video@.len() - i,
        {
            if self.video[i].is_keyframe {
                return true;
            }
            i = i + 1;
        }
        false
    }

    /// Drop the leading group of pictures, unless it is the only one. The answer says whether one
    /// was dropped.
    fn evict_oldest_gop(&mut self) -> (dropped: bool)
        requires
            old(self).counted(),
            old(self)@.fits(),
        ensures
            final(self).counted(),
            final(self)@.fits(),
            dropped == old(self)@.has_spare(),
            dropped ==> final(self)@ == old(self)@.drop_gop(),
            !dropped ==> final(self)@ == old(self)@,
            final(self).caps == old(self).caps,
    {
        if !self.has_spare_gop() {
            return false;
        }
        let ghost before = self@;
        let ghost cut = keyframe_from(before.video, 1);
        let ghost mut k: int = 1;
        proof {
            lemma_keyframe_from(before.video, 1);
            lemma_video_bytes_skip(before.video, 0);
            lemma_video_bytes_skip(before.video, 1);
        }
        self.pop_video();
        while !self.video[0].is_keyframe
            invariant
                1 <= k <= cut,
                cut < before.video.len(),
                before.video[cut].is_keyframe,
                forall|j: int| 1 <= j < cut ==> !(#[trigger] before.video[j]).is_keyframe,
                self.counted(),
                self@.video == before.video.skip(k),
                self@ == (RingView { video: before.video.skip(k), ..before }),
                self.caps == old(self).caps,
                self.video@.len() > 0,
            decreases self.video@.len(),
        {
            assert(before.video.skip(k)[0] == before.video[k]);
            self.pop_video();
            proof {
                assert(before.video.skip(k).skip(1) =~= before.video.skip(k + 1));
                k = k + 1;
            }
        }
        proof {
            assert(before.video.skip(k)[0] == before.video[k]);
            assert(k == cut);
            lemma_drop_gop_fits(before);
        }
        true
    }

    /// Drop the oldest video packet.
    fn pop_video(&mut self)
        requires
            old(self).counted(),
            old(self)@.video.len() > 0,
        ensures
            final(self).counted(),
            final(self)@ == (RingView { video: old(self)@.video.skip(1), ..old(self)@ }),
            final(self).caps == old(self).caps,
    {
        let ghost before = self@;
        proof {
            lemma_video_bytes_skip(before.video, 1);
        }
        if let Some(p) = self.video.pop_front() {
            self.video_bytes = self.video_bytes - p.data.len() as u64;
        }
        assert(self@.video =~= before.video.skip(1));
        assert(self@ =~= (RingView { video: before.video.skip(1), ..before }));
    }

    /// Drop the audio that lies too far before the oldest video packet.
    fn evict_audio(&mut self)
        requires
            old(self).counted(),
            old(self)@.fits(),
        ensures
            final(self).counted(),
            final(self)@.fits(),
            final(self)@ == old(self)@.trim_audio(),
            final(self).caps == old(self).caps,
    {
        if self.video.len() == 0 {
            return;
        }
        let ghost before = self@;
        assert(i64::MIN <= before.video[0].pts - audio_slack());
        let threshold: i64 = self.video[0].pts - AUDIO_EVICTION_SLACK_MS * TICKS_PER_MILLISECOND;
        let mut t: usize = 0;
        while t < self.audio.len()
            invariant
                t <= self.audio@.len(),
                threshold == before.video[0].pts - audio_slack(),
                self.counted(),
                self.caps == old(self).caps,
                self.audio@.len() == before.audio.len(),
                self@.video == before.video,
                self@.max_duration == before.max_duration,
                self@.max_bytes == before.max_bytes,
                forall|u: int|
                    0 <= u < t ==> #[trigger] self@.audio[u] == trimmed(
                        before.audio[u],
                        threshold as int,
                    ),
                forall|u: int| t <= u < before.audio.len() ==> #[trigger] self@.audio[u] == before.audio[u],
            decreases self.audio@.len() - t,
        {
            self.trim_track(t, threshold);
            t = t + 1;
        }
        proof {
            assert(self@.audio =~= before.trim_audio().audio);
            assert(self@ =~= before.trim_audio());
            lemma_trim_audio_fits(before);
        }
    }

    /// Drop the leading packets of a track that lie before `threshold`.
    fn trim_track(&mut self, t: usize, threshold: i64)
        requires
            old(self).counted(),
            t < old(self)@.audio.len(),
        ensures
            final(self).counted(),
            final(self)@ == (RingView {
                audio: old(self)@.audio.update(
                    t as int,
                    trimmed(old(self)@.audio[t as int], threshold as int),
                ),
                ..old(self)@
            }),
            final(self).caps == old(self).caps,
    {
        let ghost before = self@;
        let ghost track = before.audio[t as int];
        let ghost mut k: int = 0;
        proof {
            assert(track.skip(0) =~= track);
            assert(before.audio.update(t as int, track.skip(0)) =~= before.audio);
        }
        while self.audio[t].len() > 0 && self.audio[t][0].pts < threshold
            invariant
                t < self.audio@.len(),
                self.audio@.len() == before.audio.len(),
                self.counted(),
                self.caps == old(self).caps,
                0 <= k <= track.len(),
                track == before.audio[t as int],
                kept_from(track, threshold as int, 0) == kept_from(track, threshold as int, k),
                self@.audio[t as int] == track.skip(k),
                self@ == (RingView {
                    audio: before.audio.update(t as int, track.skip(k)),
                    ..before
                }),
            decreases track.len() - k,
        {
            let ghost now = self@;
            let ghost rest = track.skip(k);
            assert(self.audio@[t as int]@ == rest);
            assert(rest[0] == track[k]);
            proof {
                lemma_audio_bytes_skip(rest, 1);
                lemma_tracks_bytes_bound(now.audio, now.audio.len() as int, t as int);
                lemma_tracks_bytes_update(
                    now.audio,
                    now.audio.len() as int,
                    t as int,
                    rest.skip(1),
                );
            }
            if let Some(p) = self.audio[t].pop_front() {
                self.audio_bytes = self.audio_bytes - p.data.len() as u64;
            }
            proof {
                assert(self@.audio =~= now.audio.update(t as int, rest.skip(1)));
                assert(rest.skip(1) =~= track.skip(k + 1));
                assert(now.audio.update(t as int, rest.skip(1)) =~= before.audio.update(
                    t as int,
                    track.skip(k + 1),
                ));
                k = k + 1;
            }
        }
        proof {
            assert(self.audio@[t as int]@ == track.skip(k));
            if k < track.len() {
                assert(track.skip(k)[0] == track[k]);
            }
        }
    }
}

/// Tracks that agree hold the same bytes.
proof fn lemma_same_bytes(
    a: Seq<Seq<EncodedAudioPacket>>,
    b: Seq<Seq<EncodedAudioPacket>>,
    n: int,
)
    requires
        n <= a.len(),
        n <= b.len(),
        forall|t: int| 0 <= t < n ==> a[t] == b[t],
    ensures
        tracks_bytes(a, n) == tracks_bytes(b, n),
    decreases n,
{
    if n > 0 {
        lemma_same_bytes(a, b, n - 1);
    }
}

/// Empty tracks hold no bytes.
proof fn lemma_no_bytes(tracks: Seq<Seq<EncodedAudioPacket>>, n: int)
    requires
        n <= tracks.len(),
        forall|t: int| 0 <= t < n ==> (#[trigger] tracks[t]).len() == 0,
    ensures
        tracks_bytes(tracks, n) == 0,
    decreases n,
{
    if n > 0 {
        lemma_no_bytes(tracks, n - 1);
        assert(audio_bytes(tracks[n - 1]) == 0);
    }
}

} // verus!
