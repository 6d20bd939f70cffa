//! Which packets of the ring belong to a clip.
//!
//! A clip that is asked to start at some time starts at the newest keyframe at or before that
//! time, within the newest run of the capture pipeline; where that run began later, at its first
//! keyframe, and the clip is shorter than asked for. It ends where every track still has data:
//! audio lags behind video, and a clip that took all the video would leave the audio short.

use std::collections::VecDeque;

use vstd::prelude::*;

use crate::encode::{EncodedAudioPacket, EncodedPacket};
use crate::mux::error::MuxError;
use crate::ring::model::RingView;
use crate::ring::Ring;
use crate::seqs::{lemma_filter_item, lemma_filter_keeps, lemma_filter_none, lemma_filter_take};

verus! {

/// Why a clip could not be saved.
#[derive(Debug, Clone, Copy)]
pub enum SaveError {
    /// The ring holds no video.
    Empty,
    /// There is no keyframe to start from.
    NoKeyframe,
    /// The stream cannot be muxed.
    Mux(MuxError),
}

/// The packets of a clip. Their times are those of the ring; the muxer rebases them.
#[derive(Debug)]
pub struct SaveWindow {
    /// The time at which the clip starts.
    pub origin: i64,
    /// The run of the pipeline that the clip is from.
    pub epoch_id: u32,
    /// Whether the clip is shorter than asked for.
    pub clamped: bool,
    /// Video packets, in order.
    pub video: Vec<EncodedPacket>,
    /// The packets of each audio track, in order.
    pub audio: Vec<Vec<EncodedAudioPacket>>,
    /// The time of the last video packet.
    pub last_video_pts: i64,
}

/// The packets of each track.
pub open spec fn window_tracks(audio: Seq<Vec<EncodedAudioPacket>>) -> Seq<
    Seq<EncodedAudioPacket>,
> {
    audio.map_values(|track: Vec<EncodedAudioPacket>| track@)
}

/// The number of packets in the first `n` tracks.
pub open spec fn tracks_len(audio: Seq<Vec<EncodedAudioPacket>>, n: int) -> int
    decreases n,
{
    if n <= 0 {
        0
    } else {
        tracks_len(audio, n - 1) + audio[n - 1]@.len()
    }
}

impl SaveWindow {
    /// The number of packets in the window.
    pub fn packet_count(&self) -> (n: usize)
        requires
            self.video@.len() + tracks_len(self.audio@, self.audio@.len() as int) <= usize::MAX,
        ensures
            n == self.video@.len() + tracks_len(self.audio@, self.audio@.len() as int),
    {
        let mut n: usize = self.video.len();
        let mut t: usize = 0;
        while t < self.audio.len()
            invariant
                t <= self.audio@.len(),
                n == self.video@.len() + tracks_len(self.audio@, t as int),
                self.video@.len() + tracks_len(self.audio@, self.audio@.len() as int)
                    <= usize::MAX,
            decreases self.audio@.len() - t,
        {
            proof {
                lemma_tracks_len_grows(self.audio@, t + 1, self.audio@.len() as int);
            }
            n = n + self.audio[t].len();
            t = t + 1;
        }
        n
    }
}

/// More tracks hold no fewer packets.
proof fn lemma_tracks_len_grows(audio: Seq<Vec<EncodedAudioPacket>>, a: int, b: int)
    requires
        a <= b <= audio.len(),
    ensures
        tracks_len(audio, a) <= tracks_len(audio, b),
    decreases b,
{
    if a < b && b > 0 {
        lemma_tracks_len_grows(audio, a, b - 1);
    }
}

/// The keyframes of a run.
pub open spec fn keyframe_of(epoch: u32) -> spec_fn(EncodedPacket) -> bool {
    |p: EncodedPacket| p.epoch_id == epoch && p.is_keyframe
}

/// The keyframes of a run up to a time.
pub open spec fn keyframe_until(epoch: u32, target: int) -> spec_fn(EncodedPacket) -> bool {
    |p: EncodedPacket| p.epoch_id == epoch && p.is_keyframe && p.pts <= target
}

/// The video packets of a run from a time on.
pub open spec fn video_from(epoch: u32, origin: int) -> spec_fn(EncodedPacket) -> bool {
    |p: EncodedPacket| p.epoch_id == epoch && p.pts >= origin
}

/// The video packets of a run from one time until another.
pub open spec fn video_between(epoch: u32, origin: int, end: int) -> spec_fn(EncodedPacket) -> bool {
    |p: EncodedPacket| p.epoch_id == epoch && p.pts >= origin && p.pts < end
}

/// The audio packets from a time on.
pub open spec fn audio_from(origin: int) -> spec_fn(EncodedAudioPacket) -> bool {
    |p: EncodedAudioPacket| p.pts >= origin
}

/// The audio packets from one time until another.
pub open spec fn audio_between(origin: int, end: int) -> spec_fn(EncodedAudioPacket) -> bool {
    |p: EncodedAudioPacket| p.pts >= origin && p.pts < end
}

/// The newest run: that of the newest video packet.
pub open spec fn newest_epoch(video: Seq<EncodedPacket>) -> u32 {
    video.last().epoch_id
}

/// Whether the clip starts later than asked for: no keyframe of the newest run lies at or before
/// the target.
pub open spec fn is_clamped(video: Seq<EncodedPacket>, target: int) -> bool {
    video.filter(keyframe_until(newest_epoch(video), target)).len() == 0
}

/// Whether the newest run has a keyframe at all.
pub open spec fn has_keyframe(video: Seq<EncodedPacket>) -> bool {
    video.filter(keyframe_of(newest_epoch(video))).len() > 0
}

/// Where the clip starts: at the newest keyframe of the newest run at or before the target, or at
/// the run's first keyframe.
pub open spec fn clip_origin(video: Seq<EncodedPacket>, target: int) -> int {
    let epoch = newest_epoch(video);
    if is_clamped(video, target) {
        video.filter(keyframe_of(epoch))[0].pts as int
    } else {
        video.filter(keyframe_until(epoch, target)).last().pts as int
    }
}

/// Where the video that the clip could take ends.
pub open spec fn video_end(video: Seq<EncodedPacket>, origin: int) -> int {
    let last = video.filter(video_from(newest_epoch(video), origin)).last();
    last.pts + last.duration
}

/// The earlier of `end` and the end of the audio that the clip could take of the first `n` tracks.
/// A track without any does not shorten the clip.
pub open spec fn earliest_end(
    audio: Seq<Seq<EncodedAudioPacket>>,
    origin: int,
    end: int,
    n: int,
) -> int
    decreases n,
{
    if n <= 0 {
        end
    } else {
        let before = earliest_end(audio, origin, end, n - 1);
        let kept = audio[n - 1].filter(audio_from(origin));
        if kept.len() > 0 && kept.last().pts + kept.last().duration < before {
            kept.last().pts + kept.last().duration
        } else {
            before
        }
    }
}

/// Where the clip ends: where the first of its tracks does.
pub open spec fn clip_end(ring: RingView, target: int) -> int {
    let origin = clip_origin(ring.video, target);
    earliest_end(ring.audio, origin, video_end(ring.video, origin), ring.audio.len() as int)
}

/// The clip's video.
pub open spec fn clip_video(ring: RingView, target: int) -> Seq<EncodedPacket> {
    ring.video.filter(
        video_between(
            newest_epoch(ring.video),
            clip_origin(ring.video, target),
            clip_end(ring, target),
        ),
    )
}

/// The clip's audio.
pub open spec fn clip_audio(ring: RingView, target: int) -> Seq<Seq<EncodedAudioPacket>> {
    ring.audio.map_values(
        |track: Seq<EncodedAudioPacket>|
            track.filter(
                audio_between(clip_origin(ring.video, target), clip_end(ring, target)),
            ),
    )
}

/// Why there is no clip, if there is none.
pub open spec fn clip_fault(ring: RingView, target: int) -> Option<SaveError> {
    if ring.video.len() == 0 {
        Some(SaveError::Empty)
    } else if !has_keyframe(ring.video) || clip_video(ring, target).len() == 0 {
        Some(SaveError::NoKeyframe)
    } else {
        None
    }
}

/// Whether the ends of the clip's tracks can be computed in 64 bits.
pub open spec fn ends_fit(ring: RingView, target: int) -> bool {
    let origin = clip_origin(ring.video, target);
    &&& i64::MIN <= video_end(ring.video, origin) <= i64::MAX
    &&& forall|t: int|
        0 <= t < ring.audio.len() && (#[trigger] ring.audio[t]).filter(audio_from(origin)).len()
            > 0 ==> {
            let last = ring.audio[t].filter(audio_from(origin)).last();
            i64::MIN <= last.pts + last.duration <= i64::MAX
        }
}

/// Find where the clip starts: the newest keyframe of the run at or before the target, and the
/// run's first keyframe.
fn find_origin(video: &VecDeque<EncodedPacket>, epoch: u32, target: i64) -> (r: (
    Option<i64>,
    Option<i64>,
))
    ensures
        r.0 is Some <==> video@.filter(keyframe_until(epoch, target as int)).len() > 0,
        r.0 matches Some(pts) ==> pts == video@.filter(
            keyframe_until(epoch, target as int),
        ).last().pts,
        r.1 is Some <==> video@.filter(keyframe_of(epoch)).len() > 0,
        r.1 matches Some(pts) ==> pts == video@.filter(keyframe_of(epoch))[0].pts,
{
    let ghost until = keyframe_until(epoch, target as int);
    let ghost of = keyframe_of(epoch);
    let mut origin: Option<i64> = None;
    let mut first: Option<i64> = None;
    let mut i: usize = 0;
    proof {
        lemma_filter_none(video@, until);
        lemma_filter_none(video@, of);
    }
    while i < video.len()
        invariant
            i <= video@.len(),
            until == keyframe_until(epoch, target as int),
            of == keyframe_of(epoch),
            origin is Some <==> video@.take(i as int).filter(until).len() > 0,
            origin matches Some(pts) ==> pts == video@.take(i as int).filter(until).last().pts,
            first is Some <==> video@.take(i as int).filter(of).len() > 0,
            first matches Some(pts) ==> pts == video@.take(i as int).filter(of)[0].pts,
        decreases video@.len() - i,
    {
        proof {
            lemma_filter_take(video@, until, i as int);
            lemma_filter_take(video@, of, i as int);
        }
        let p: &EncodedPacket = &video[i];
        if p.epoch_id == epoch && p.is_keyframe {
            if first.is_none() {
                first = Some(p.pts);
            }
            if p.pts <= target {
                origin = Some(p.pts);
            }
        }
        i = i + 1;
    }
    assert(video@.take(video@.len() as int) =~= video@);
    (origin, first)
}

/// Find where the video of a run ends, from a time on.
fn find_video_end(video: &VecDeque<EncodedPacket>, epoch: u32, origin: i64) -> (r: Option<i64>)
    requires
        video@.filter(video_from(epoch, origin as int)).len() > 0 ==> i64::MIN <= video@.filter(
            video_from(epoch, origin as int),
        ).last().pts + video@.filter(video_from(epoch, origin as int)).last().duration <= i64::MAX,
    ensures
        r is Some <==> video@.filter(video_from(epoch, origin as int)).len() > 0,
        r matches Some(end) ==> {
            let last = video@.filter(video_from(epoch, origin as int)).last();
            end == last.pts + last.duration
        },
{
    let ghost from = video_from(epoch, origin as int);
    let mut last: Option<usize> = None;
    let mut i: usize = 0;
    proof {
        lemma_filter_none(video@, from);
    }
    while i < video.len()
        invariant
            i <= video@.len(),
            from == video_from(epoch, origin as int),
            last is Some <==> video@.take(i as int).filter(from).len() > 0,
            last matches Some(k) ==> k < i && video@[k as int] == video@.take(i as int).filter(
                from,
            ).last(),
        decreases video@.len() - i,
    {
        proof {
            lemma_filter_take(video@, from, i as int);
        }
        if video[i].epoch_id == epoch && video[i].pts >= origin {
            last = Some(i);
        }
        i = i + 1;
    }
    assert(video@.take(video@.len() as int) =~= video@);
    match last {
        Some(k) => Some(video[k].pts + video[k].duration),
        None => None,
    }
}

/// Find where a track's audio ends, from a time on.
fn find_audio_end(track: &VecDeque<EncodedAudioPacket>, origin: i64) -> (r: Option<i64>)
    requires
        track@.filter(audio_from(origin as int)).len() > 0 ==> i64::MIN <= track@.filter(
            audio_from(origin as int),
        ).last().pts + track@.filter(audio_from(origin as int)).last().duration <= i64::MAX,
    ensures
        r is Some <==> track@.filter(audio_from(origin as int)).len() > 0,
        r matches Some(end) ==> {
            let last = track@.filter(audio_from(origin as int)).last();
            end == last.pts + last.duration
        },
{
    let ghost from = audio_from(origin as int);
    let mut last: Option<usize> = None;
    let mut i: usize = 0;
    proof {
        lemma_filter_none(track@, from);
    }
    while i < track.len()
        invariant
            i <= track@.len(),
            from == audio_from(origin as int),
            last is Some <==> track@.take(i as int).filter(from).len() > 0,
            last matches Some(k) ==> k < i && track@[k as int] == track@.take(i as int).filter(
                from,
            ).last(),
        decreases track@.len() - i,
    {
        proof {
            lemma_filter_take(track@, from, i as int);
        }
        if track[i].pts >= origin {
            last = Some(i);
        }
        i = i + 1;
    }
    assert(track@.take(track@.len() as int) =~= track@);
    match last {
        Some(k) => Some(track[k].pts + track[k].duration),
        None => None,
    }
}

/// Take the video packets of a run from one time until another.
fn take_video(video: &VecDeque<EncodedPacket>, epoch: u32, origin: i64, end: i64) -> (r: Vec<
    EncodedPacket,
>)
    ensures
        r@ == video@.filter(video_between(epoch, origin as int, end as int)),
{
    let ghost between = video_between(epoch, origin as int, end as int);
    let mut r: Vec<EncodedPacket> = Vec::new();
    let mut i: usize = 0;
    proof {
        lemma_filter_none(video@, between);
    }
    while i < video.len()
        invariant
            i <= video@.len(),
            between == video_between(epoch, origin as int, end as int),
            r@ == video@.take(i as int).filter(between),
        decreases video@.len() - i,
    {
        proof {
            lemma_filter_take(video@, between, i as int);
        }
        if video[i].epoch_id == epoch && video[i].pts >= origin && video[i].pts < end {
            r.push(video[i].clone());
        }
        i = i + 1;
    }
    assert(video@.take(video@.len() as int) =~= video@);
    r
}

/// Take the packets of a track from one time until another.
fn take_audio(track: &VecDeque<EncodedAudioPacket>, origin: i64, end: i64) -> (r: Vec<
    EncodedAudioPacket,
>)
    ensures
        r@ == track@.filter(audio_between(origin as int, end as int)),
{
    let ghost between = audio_between(origin as int, end as int);
    let mut r: Vec<EncodedAudioPacket> = Vec::new();
    let mut i: usize = 0;
    proof {
        lemma_filter_none(track@, between);
    }
    while i < track.len()
        invariant
            i <= track@.len(),
            between == audio_between(origin as int, end as int),
            r@ == track@.take(i as int).filter(between),
        decreases track@.len() - i,
    {
        proof {
            lemma_filter_take(track@, between, i as int);
        }
        if track[i].pts >= origin && track[i].pts < end {
            r.push(track[i].clone());
        }
        i = i + 1;
    }
    assert(track@.take(track@.len() as int) =~= track@);
    r
}

/// Select the clip that starts at `target_ticks`.
pub fn select_window(ring: &Ring, target_ticks: i64) -> (r: Result<SaveWindow, SaveError>)
    requires
        ring@.video.len() > 0 && has_keyframe(ring@.video) ==> ends_fit(
            ring@,
            target_ticks as int,
        ),
    ensures
        r is Ok <==> clip_fault(ring@, target_ticks as int) is None,
        r matches Err(e) ==> clip_fault(ring@, target_ticks as int) == Some(e),
        r matches Ok(w) ==> {
            &&& w.origin == clip_origin(ring@.video, target_ticks as int)
            &&& w.epoch_id == newest_epoch(ring@.video)
            &&& w.clamped == is_clamped(ring@.video, target_ticks as int)
            &&& w.video@ == clip_video(ring@, target_ticks as int)
            &&& window_tracks(w.audio@) == clip_audio(ring@, target_ticks as int)
            &&& w.last_video_pts == clip_video(ring@, target_ticks as int).last().pts
        },
{
    let video: &VecDeque<EncodedPacket> = ring.video();
    let ghost target = target_ticks as int;
    if video.len() == 0 {
        return Err(SaveError::Empty);
    }
    let epoch_id: u32 = video[video.len() - 1].epoch_id;
    let (newest, first) = find_origin(video, epoch_id, target_ticks);
    let (origin, clamped): (i64, bool) = match newest {
        Some(pts) => (pts, false),
        None => match first {
            Some(pts) => (pts, true),
            None => {
                return Err(SaveError::NoKeyframe);
            },
        },
    };
    proof {
        lemma_has_keyframe(ring@.video, target);
        assert(origin == clip_origin(ring@.video, target));
    }
    let end_of_video: i64 = match find_video_end(video, epoch_id, origin) {
        Some(end) => end,
        None => {
            proof {
                lemma_origin_is_candidate(ring@.video, target);
            }
            return Err(SaveError::NoKeyframe);
        },
    };
    let mut end: i64 = end_of_video;
    let mut t: usize = 0;
    while t < ring.num_audio_tracks()
        invariant
            t <= ring@.audio.len(),
            origin == clip_origin(ring@.video, target),
            ends_fit(ring@, target),
            end_of_video == video_end(ring@.video, origin as int),
            end == earliest_end(ring@.audio, origin as int, end_of_video as int, t as int),
        decreases ring@.audio.len() - t,
    {
        if let Some(track) = ring.audio_track(t) {
            if let Some(audio_end) = find_audio_end(track, origin) {
                if audio_end < end {
                    end = audio_end;
                }
            }
        }
        t = t + 1;
    }
    let window: Vec<EncodedPacket> = take_video(video, epoch_id, origin, end);
    if window.len() == 0 {
        return Err(SaveError::NoKeyframe);
    }
    let last_video_pts: i64 = window[window.len() - 1].pts;
    let mut audio: Vec<Vec<EncodedAudioPacket>> = Vec::new();
    let mut u: usize = 0;
    while u < ring.num_audio_tracks()
        invariant
            u <= ring@.audio.len(),
            audio@.len() == u,
            forall|k: int|
                0 <= k < u ==> (#[trigger] audio@[k])@ == ring@.audio[k].filter(
                    audio_between(origin as int, end as int),
                ),
        decreases ring@.audio.len() - u,
    {
        if let Some(track) = ring.audio_track(u) {
            audio.push(take_audio(track, origin, end));
        }
        u = u + 1;
    }
    assert(window_tracks(audio@) =~= clip_audio(ring@, target));
    Ok(SaveWindow { origin, epoch_id, clamped, video: window, audio, last_video_pts })
}

/// A keyframe up to the target is a keyframe of the run.
proof fn lemma_has_keyframe(video: Seq<EncodedPacket>, target: int)
    requires
        video.len() > 0,
    ensures
        !is_clamped(video, target) ==> has_keyframe(video),
{
    let epoch = newest_epoch(video);
    if !is_clamped(video, target) {
        let k = lemma_filter_item(video, keyframe_until(epoch, target), 0);
        let i = lemma_filter_keeps(video, keyframe_of(epoch), k);
    }
}

/// The packet that a clip starts at, with its place in the ring.
pub proof fn lemma_origin_packet(video: Seq<EncodedPacket>, target: int) -> (k: int)
    requires
        video.len() > 0,
        has_keyframe(video),
    ensures
        0 <= k < video.len(),
        video[k].is_keyframe,
        video[k].epoch_id == newest_epoch(video),
        video[k].pts == clip_origin(video, target),
        !is_clamped(video, target) ==> video[k].pts <= target,
{
    let epoch = newest_epoch(video);
    if is_clamped(video, target) {
        lemma_filter_item(video, keyframe_of(epoch), 0)
    } else {
        let until = keyframe_until(epoch, target);
        lemma_filter_item(video, until, video.filter(until).len() - 1)
    }
}

/// The packet that a clip starts at is one that the clip could take.
proof fn lemma_origin_is_candidate(video: Seq<EncodedPacket>, target: int)
    requires
        video.len() > 0,
        has_keyframe(video),
    ensures
        video.filter(video_from(newest_epoch(video), clip_origin(video, target))).len() > 0,
{
    let k = lemma_origin_packet(video, target);
    let i = lemma_filter_keeps(
        video,
        video_from(newest_epoch(video), clip_origin(video, target)),
        k,
    );
}

} // verus!
