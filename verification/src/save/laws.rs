//! What holds of every clip.

use vstd::prelude::*;

use crate::encode::{EncodedAudioPacket, EncodedPacket};
use crate::mux::content::{
    lemma_audio_packet_shows_nothing, lemma_finished_movie_is_complete, lemma_packet_is_shown,
    shown,
};
use crate::mux::fragment::SampleView;
use crate::mux::nal::avcc_sample;
use crate::mux::timeline::MovieView;
use crate::ring::model::RingView;
use crate::save::clip::{clip_movie, fed};
use crate::save::feed::Feed;
use crate::save::window::{
    audio_between, audio_from, clip_audio, clip_end, clip_origin, clip_video, earliest_end,
    has_keyframe, is_clamped, keyframe_of, keyframe_until, lemma_origin_packet, newest_epoch,
    video_between, video_end, video_from,
};
use crate::seqs::{lemma_filter_begins, lemma_filter_item, lemma_filter_keeps};

verus! {

/// Law: a clip does not span runs of the pipeline, and its packets lie between its origin and its
/// end.
pub proof fn lemma_clip_is_of_one_run(ring: RingView, target: int, i: int)
    requires
        0 <= i < clip_video(ring, target).len(),
    ensures
        clip_video(ring, target)[i].epoch_id == newest_epoch(ring.video),
        clip_origin(ring.video, target) <= clip_video(ring, target)[i].pts < clip_end(
            ring,
            target,
        ),
        ring.video.contains(clip_video(ring, target)[i]),
{
    let between = video_between(
        newest_epoch(ring.video),
        clip_origin(ring.video, target),
        clip_end(ring, target),
    );
    let k = lemma_filter_item(ring.video, between, i);
    assert(ring.video[k] == clip_video(ring, target)[i]);
}

/// Law: a clip's audio lies between its origin and its end.
pub proof fn lemma_clip_audio_lies_within(ring: RingView, target: int, t: int, i: int)
    requires
        0 <= t < ring.audio.len(),
        0 <= i < clip_audio(ring, target)[t].len(),
    ensures
        clip_origin(ring.video, target) <= clip_audio(ring, target)[t][i].pts < clip_end(
            ring,
            target,
        ),
        ring.audio[t].contains(clip_audio(ring, target)[t][i]),
{
    let between = audio_between(clip_origin(ring.video, target), clip_end(ring, target));
    let k = lemma_filter_item(ring.audio[t], between, i);
    assert(ring.audio[t][k] == clip_audio(ring, target)[t][i]);
}

/// The earliest end is no later than any.
proof fn lemma_earliest_end(
    audio: Seq<Seq<EncodedAudioPacket>>,
    origin: int,
    end: int,
    n: int,
    t: int,
)
    requires
        0 <= n <= audio.len(),
    ensures
        earliest_end(audio, origin, end, n) <= end,
        0 <= t < n && audio[t].filter(audio_from(origin)).len() > 0 ==> earliest_end(
            audio,
            origin,
            end,
            n,
        ) <= audio[t].filter(audio_from(origin)).last().pts + audio[t].filter(
            audio_from(origin),
        ).last().duration,
    decreases n,
{
    if n > 0 {
        lemma_earliest_end(audio, origin, end, n - 1, t);
    }
}

/// Law: a clip ends where every track still has data: no later than its video, and no later than
/// the audio of any track that has some.
pub proof fn lemma_tracks_reach_the_end(ring: RingView, target: int, t: int)
    ensures
        ({
            let origin = clip_origin(ring.video, target);
            &&& clip_end(ring, target) <= video_end(ring.video, origin)
            &&& 0 <= t < ring.audio.len() && ring.audio[t].filter(audio_from(origin)).len() > 0
                ==> clip_end(ring, target) <= ring.audio[t].filter(audio_from(origin)).last().pts
                + ring.audio[t].filter(audio_from(origin)).last().duration
        }),
{
    let origin = clip_origin(ring.video, target);
    lemma_earliest_end(
        ring.audio,
        origin,
        video_end(ring.video, origin),
        ring.audio.len() as int,
        t,
    );
}

/// Whether times only go forward.
pub open spec fn times_increase(video: Seq<EncodedPacket>) -> bool {
    forall|i: int, j: int| 0 <= i < j < video.len() ==> video[i].pts < video[j].pts
}

/// Law: a clip starts at a keyframe, the newest of the newest run at or before the target; only
/// where that run has none so early does it start later than asked for.
pub proof fn lemma_clip_starts_at_keyframe(ring: RingView, target: int)
    requires
        ring.video.len() > 0,
        times_increase(ring.video),
        has_keyframe(ring.video),
        clip_origin(ring.video, target) < clip_end(ring, target),
    ensures
        clip_video(ring, target).len() > 0,
        clip_video(ring, target)[0].is_keyframe,
        clip_video(ring, target)[0].pts == clip_origin(ring.video, target),
        !is_clamped(ring.video, target) ==> clip_origin(ring.video, target) <= target,
        is_clamped(ring.video, target) ==> clip_origin(ring.video, target) > target,
        forall|j: int|
            0 <= j < ring.video.len() && ring.video[j].epoch_id == newest_epoch(ring.video)
                && ring.video[j].is_keyframe && ring.video[j].pts <= target ==> (
            #[trigger] ring.video[j]).pts <= clip_origin(ring.video, target),
{
    let video = ring.video;
    let epoch = newest_epoch(video);
    let origin = clip_origin(video, target);
    let k = lemma_origin_packet(video, target);
    let between = video_between(epoch, origin, clip_end(ring, target));
    assert forall|j: int| 0 <= j < k implies !between(#[trigger] video[j]) by {}
    lemma_filter_begins(video, between, k);
    let until = keyframe_until(epoch, target);
    if is_clamped(video, target) {
        if video[k].pts <= target {
            let i = lemma_filter_keeps(video, until, k);
        }
        assert forall|j: int|
            0 <= j < video.len() && video[j].epoch_id == epoch && video[j].is_keyframe
                && video[j].pts <= target implies (#[trigger] video[j]).pts <= origin by {
            let i = lemma_filter_keeps(video, until, j);
        }
    } else {
        assert forall|j: int|
            0 <= j < video.len() && video[j].epoch_id == epoch && video[j].is_keyframe
                && video[j].pts <= target implies (#[trigger] video[j]).pts <= origin by {
            lemma_filter_last_is_latest(video, until, j);
        }
    }
}

/// Where times only go forward, the last packet that a filter keeps is the latest.
proof fn lemma_filter_last_is_latest(
    video: Seq<EncodedPacket>,
    pred: spec_fn(EncodedPacket) -> bool,
    j: int,
)
    requires
        times_increase(video),
        0 <= j < video.len(),
        pred(video[j]),
    ensures
        video.filter(pred).len() > 0,
        video[j].pts <= video.filter(pred).last().pts,
    decreases video.len(),
{
    reveal(Seq::filter);
    let n = video.len() - 1;
    if pred(video[n]) {
        if j < n {
            assert(video[j].pts < video[n].pts);
        }
    } else {
        lemma_filter_last_is_latest(video.drop_last(), pred, j);
    }
}

/// Where times only go forward, the first packet that a filter keeps is the earliest.
proof fn lemma_filter_first_is_earliest(
    video: Seq<EncodedPacket>,
    pred: spec_fn(EncodedPacket) -> bool,
    j: int,
)
    requires
        times_increase(video),
        0 <= j < video.len(),
        pred(video[j]),
    ensures
        video.filter(pred).len() > 0,
        video.filter(pred)[0].pts <= video[j].pts,
    decreases video.len(),
{
    reveal(Seq::filter);
    let before = video.drop_last();
    if j < before.len() {
        lemma_filter_first_is_earliest(before, pred, j);
    } else if before.filter(pred).len() > 0 {
        let k = lemma_filter_item(before, pred, 0);
        assert(video[k].pts < video[j].pts);
    }
}

/// Law: an earlier target never gives a later start.
pub proof fn lemma_earlier_target_starts_no_later(
    video: Seq<EncodedPacket>,
    earlier: int,
    later: int,
)
    requires
        video.len() > 0,
        times_increase(video),
        has_keyframe(video),
        earlier <= later,
    ensures
        clip_origin(video, earlier) <= clip_origin(video, later),
{
    let epoch = newest_epoch(video);
    if is_clamped(video, earlier) {
        let k = lemma_origin_packet(video, later);
        lemma_filter_first_is_earliest(video, keyframe_of(epoch), k);
    } else {
        let k = lemma_origin_packet(video, earlier);
        lemma_filter_last_is_latest(video, keyframe_until(epoch, later), k);
    }
}

/// The earliest end lies behind the origin.
proof fn lemma_earliest_end_after_origin(
    audio: Seq<Seq<EncodedAudioPacket>>,
    origin: int,
    end: int,
    n: int,
)
    requires
        0 <= n <= audio.len(),
        origin < end,
        forall|t: int, i: int|
            0 <= t < audio.len() && 0 <= i < audio[t].len() ==> (#[trigger] audio[t][i]).duration
                > 0,
    ensures
        origin < earliest_end(audio, origin, end, n),
    decreases n,
{
    if n > 0 {
        lemma_earliest_end_after_origin(audio, origin, end, n - 1);
        let kept = audio[n - 1].filter(audio_from(origin));
        if kept.len() > 0 {
            let k = lemma_filter_item(audio[n - 1], audio_from(origin), kept.len() - 1);
            assert(audio[n - 1][k].duration > 0);
        }
    }
}

/// Law: the keyframe that a clip starts at is always part of it. Where packets last for some time,
/// a ring whose newest run has a keyframe gives a clip.
pub proof fn lemma_origin_survives(ring: RingView, target: int)
    requires
        ring.video.len() > 0,
        has_keyframe(ring.video),
        forall|i: int| 0 <= i < ring.video.len() ==> (#[trigger] ring.video[i]).duration > 0,
        forall|t: int, i: int|
            0 <= t < ring.audio.len() && 0 <= i < ring.audio[t].len() ==> (
            #[trigger] ring.audio[t][i]).duration > 0,
    ensures
        clip_origin(ring.video, target) < clip_end(ring, target),
        clip_video(ring, target).len() > 0,
{
    let video = ring.video;
    let epoch = newest_epoch(video);
    let origin = clip_origin(video, target);
    let k = lemma_origin_packet(video, target);
    let from = video_from(epoch, origin);
    let i = lemma_filter_keeps(video, from, k);
    let last = lemma_filter_item(video, from, video.filter(from).len() - 1);
    assert(video[last].duration > 0);
    lemma_earliest_end_after_origin(
        ring.audio,
        origin,
        video_end(video, origin),
        ring.audio.len() as int,
    );
    let between = video_between(epoch, origin, clip_end(ring, target));
    let j = lemma_filter_keeps(video, between, k);
}

/// The video samples of the first `n` packets of a feed.
pub open spec fn fed_samples(feed: Seq<Feed>, n: int) -> Seq<SampleView>
    decreases n,
{
    if n <= 0 {
        Seq::empty()
    } else {
        let before = fed_samples(feed, n - 1);
        match feed[n - 1] {
            Feed::Video(p) => if avcc_sample(p.data@).len() == 0 {
                before
            } else {
                before.push((avcc_sample(p.data@), p.is_keyframe))
            },
            Feed::Audio(_, _) => before,
        }
    }
}

/// A feed's video packets are shown, one after the other.
proof fn lemma_feed_is_shown(movie: MovieView, feed: Seq<Feed>, n: int)
    requires
        0 <= n <= feed.len(),
    ensures
        shown(fed(movie, feed, n)) == shown(movie) + fed_samples(feed, n),
    decreases n,
{
    if n > 0 {
        lemma_feed_is_shown(movie, feed, n - 1);
        let before = fed(movie, feed, n - 1);
        match feed[n - 1] {
            Feed::Video(p) => {
                lemma_packet_is_shown(before, p.data@, p.pts as int, p.is_keyframe);
            },
            Feed::Audio(t, a) => {
                lemma_audio_packet_shows_nothing(before, t as int, a.pts as int, a.data@);
            },
        }
        assert(shown(fed(movie, feed, n)) =~= shown(movie) + fed_samples(feed, n));
    } else {
        assert(shown(movie) =~= shown(movie) + fed_samples(feed, 0));
    }
}

/// Law: the samples that a clip's file holds are those of the video packets that were fed, in the
/// order in which they were fed, each as its length-prefixed sample.
pub proof fn lemma_clip_shows_its_packets(movie: MovieView, feed: Seq<Feed>)
    requires
        shown(movie).len() == 0,
    ensures
        clip_movie(movie, feed).video_written == fed_samples(feed, feed.len() as int),
{
    let n = feed.len() as int;
    lemma_feed_is_shown(movie, feed, n);
    lemma_finished_movie_is_complete(fed(movie, feed, n));
    assert(shown(movie) + fed_samples(feed, n) =~= fed_samples(feed, n));
}

} // verus!
