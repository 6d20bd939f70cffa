//! Which packets a clip takes, told by the packets alone.

use vstd::prelude::*;

use crate::encode::{EncodedAudioPacket, EncodedPacket};
use crate::ring::model::RingView;
use crate::save::laws::lemma_origin_survives;
use crate::save::window::{
    audio_between, audio_from, clip_audio, clip_end, clip_fault, clip_origin, clip_video,
    earliest_end, has_keyframe, is_clamped, keyframe_of, keyframe_until, video_between, video_end,
    video_from, SaveError,
};
use crate::seqs::{lemma_filter_head, lemma_filter_keeps, lemma_filter_last};

verus! {

/// Whether a clip could start at packet `k`: a keyframe of the run that the newest packet is of.
pub open spec fn is_start(video: Seq<EncodedPacket>, k: int) -> bool {
    &&& 0 <= k < video.len()
    &&& video[k].is_keyframe
    &&& video[k].epoch_id == video.last().epoch_id
}

/// Whether packet `k` is where a clip from `target` on starts: the last start at or before the
/// target; and where there is none, which makes the clip shorter than asked for, the first start.
pub open spec fn starts_at(video: Seq<EncodedPacket>, target: int, k: int, clamped: bool) -> bool {
    &&& is_start(video, k)
    &&& clamped <==> forall|j: int| #[trigger] is_start(video, j) ==> video[j].pts > target
    &&& clamped ==> forall|j: int| #[trigger] is_start(video, j) ==> k <= j
    &&& !clamped ==> video[k].pts <= target && forall|j: int|
        #[trigger] is_start(video, j) && video[j].pts <= target ==> j <= k
}

/// Whether packet `k` is the last of the newest run from `origin` on.
pub open spec fn is_last_picture(video: Seq<EncodedPacket>, origin: int, k: int) -> bool {
    &&& 0 <= k < video.len()
    &&& video[k].epoch_id == video.last().epoch_id
    &&& video[k].pts >= origin
    &&& forall|j: int|
        k < j < video.len() ==> (#[trigger] video[j]).epoch_id != video.last().epoch_id
            || video[j].pts < origin
}

/// Whether packet `k` is a track's last from `origin` on.
pub open spec fn is_last_unit(track: Seq<EncodedAudioPacket>, origin: int, k: int) -> bool {
    &&& 0 <= k < track.len()
    &&& track[k].pts >= origin
    &&& forall|j: int| k < j < track.len() ==> (#[trigger] track[j]).pts < origin
}

/// Whether the video's last packet ends at `end`.
pub open spec fn picture_ends_at(video: Seq<EncodedPacket>, origin: int, end: int) -> bool {
    exists|k: int|
        #[trigger] is_last_picture(video, origin, k) && end == video[k].pts + video[k].duration
}

/// Whether a track's last packet ends at `end`.
pub open spec fn sound_ends_at(track: Seq<EncodedAudioPacket>, origin: int, end: int) -> bool {
    exists|k: int|
        #[trigger] is_last_unit(track, origin, k) && end == track[k].pts + track[k].duration
}

/// Whether `end` is where the first of a clip's tracks ends: no later than any that has packets, and
/// one of them ends there.
pub open spec fn ends_at(
    video: Seq<EncodedPacket>,
    audio: Seq<Seq<EncodedAudioPacket>>,
    origin: int,
    end: int,
) -> bool {
    &&& forall|k: int|
        #[trigger] is_last_picture(video, origin, k) ==> end <= video[k].pts + video[k].duration
    &&& forall|t: int, k: int|
        0 <= t < audio.len() && #[trigger] is_last_unit(audio[t], origin, k) ==> end
            <= audio[t][k].pts + audio[t][k].duration
    &&& picture_ends_at(video, origin, end) || exists|t: int|
        0 <= t < audio.len() && sound_ends_at(#[trigger] audio[t], origin, end)
}

/// There is only one last packet.
proof fn lemma_one_last_picture(video: Seq<EncodedPacket>, origin: int, a: int, b: int)
    requires
        is_last_picture(video, origin, a),
        is_last_picture(video, origin, b),
    ensures
        a == b,
{
    if a < b {
        assert(video[b].pts >= origin);
    } else if b < a {
        assert(video[a].pts >= origin);
    }
}

/// There is only one last packet.
proof fn lemma_one_last_unit(track: Seq<EncodedAudioPacket>, origin: int, a: int, b: int)
    requires
        is_last_unit(track, origin, a),
        is_last_unit(track, origin, b),
    ensures
        a == b,
{
    if a < b {
        assert(track[b].pts >= origin);
    } else if b < a {
        assert(track[a].pts >= origin);
    }
}

/// The earliest end is one of the ends, and no later than any.
proof fn lemma_earliest_end(
    audio: Seq<Seq<EncodedAudioPacket>>,
    origin: int,
    end: int,
    n: int,
)
    requires
        0 <= n <= audio.len(),
    ensures
        earliest_end(audio, origin, end, n) <= end,
        forall|t: int, k: int|
            0 <= t < n && #[trigger] is_last_unit(audio[t], origin, k) ==> earliest_end(
                audio,
                origin,
                end,
                n,
            ) <= audio[t][k].pts + audio[t][k].duration,
        earliest_end(audio, origin, end, n) == end || exists|t: int|
            0 <= t < n && sound_ends_at(
                #[trigger] audio[t],
                origin,
                earliest_end(audio, origin, end, n),
            ),
    decreases n,
{
    if n > 0 {
        lemma_earliest_end(audio, origin, end, n - 1);
        let track = audio[n - 1];
        let from = audio_from(origin);
        let all = earliest_end(audio, origin, end, n);
        if track.filter(from).len() > 0 {
            let last = lemma_filter_last(track, from);
            assert(is_last_unit(track, origin, last));
            assert forall|k: int| #[trigger] is_last_unit(track, origin, k) implies k == last by {
                lemma_one_last_unit(track, origin, k, last);
            }
            if all == track[last].pts + track[last].duration {
                assert(sound_ends_at(audio[n - 1], origin, all));
            }
        } else {
            assert forall|k: int| !#[trigger] is_last_unit(track, origin, k) by {
                if is_last_unit(track, origin, k) {
                    let i = lemma_filter_keeps(track, from, k);
                }
            }
        }
    }
}

/// Law: what a clip is. It starts at the newest keyframe of the newest run at or before the target,
/// or else at the run's first keyframe; it ends where the first of its tracks does, so at the end of
/// its video's last packet or of the last packet of one of its tracks; and it takes every packet of
/// the run, and every packet of each track, from its start until its end, in their order.
pub proof fn lemma_clip_is_all_between_start_and_end(ring: RingView, target: int)
    requires
        exists|k: int| #[trigger] is_start(ring.video, k),
    ensures
        ({
            let origin = clip_origin(ring.video, target);
            let end = clip_end(ring, target);
            let run = ring.video.last().epoch_id;
            &&& exists|k: int|
                #[trigger] starts_at(ring.video, target, k, is_clamped(ring.video, target))
                    && ring.video[k].pts == origin
            &&& ends_at(ring.video, ring.audio, origin, end)
            &&& clip_video(ring, target) == ring.video.filter(
                |p: EncodedPacket| p.epoch_id == run && origin <= p.pts && p.pts < end,
            )
            &&& clip_audio(ring, target).len() == ring.audio.len()
            &&& forall|t: int|
                0 <= t < ring.audio.len() ==> #[trigger] clip_audio(ring, target)[t]
                    == ring.audio[t].filter(
                    |p: EncodedAudioPacket| origin <= p.pts && p.pts < end,
                )
        }),
{
    let video = ring.video;
    let run = video.last().epoch_id;
    let origin = clip_origin(video, target);
    let end = clip_end(ring, target);
    let until = keyframe_until(run, target);
    let of = keyframe_of(run);
    let some = choose|k: int| #[trigger] is_start(video, k);
    let i = lemma_filter_keeps(video, of, some);
    let clamped = is_clamped(video, target);
    assert forall|j: int| #[trigger] is_start(video, j) && video[j].pts <= target implies !clamped by {
        let i = lemma_filter_keeps(video, until, j);
    }
    let start = if clamped {
        lemma_filter_head(video, of)
    } else {
        lemma_filter_last(video, until)
    };
    assert(is_start(video, start));
    if clamped {
        assert forall|j: int| #[trigger] is_start(video, j) implies start <= j by {
            assert(of(video[j]));
        }
    } else {
        assert forall|j: int| #[trigger] is_start(video, j) && video[j].pts <= target implies j
            <= start by {
            assert(until(video[j]));
        }
    }
    assert(starts_at(video, target, start, clamped));
    let from = video_from(run, origin);
    let kept = lemma_filter_keeps(video, from, start);
    let last = lemma_filter_last(video, from);
    assert forall|j: int| last < j < video.len() implies (#[trigger] video[j]).epoch_id != run
        || video[j].pts < origin by {
        assert(!from(video[j]));
    }
    assert(is_last_picture(video, origin, last));
    assert(video_end(video, origin) == video[last].pts + video[last].duration);
    lemma_earliest_end(ring.audio, origin, video_end(video, origin), ring.audio.len() as int);
    assert forall|k: int| #[trigger] is_last_picture(video, origin, k) implies k == last by {
        lemma_one_last_picture(video, origin, k, last);
    }
    if end == video_end(video, origin) {
        assert(picture_ends_at(video, origin, end));
    }
    let between = |p: EncodedPacket| p.epoch_id == run && origin <= p.pts && p.pts < end;
    assert(between =~= video_between(run, origin, end));
    let heard = |p: EncodedAudioPacket| origin <= p.pts && p.pts < end;
    assert(heard =~= audio_between(origin, end));
}

/// Law: when there is a clip. A ring without video gives none; nor does one whose newest run has no
/// keyframe; and every other one does, where packets last for some time.
pub proof fn lemma_when_there_is_a_clip(ring: RingView, target: int)
    requires
        forall|i: int| 0 <= i < ring.video.len() ==> (#[trigger] ring.video[i]).duration > 0,
        forall|t: int, i: int|
            0 <= t < ring.audio.len() && 0 <= i < ring.audio[t].len() ==> (
            #[trigger] ring.audio[t][i]).duration > 0,
    ensures
        clip_fault(ring, target) == if ring.video.len() == 0 {
            Some(SaveError::Empty)
        } else if forall|k: int| !#[trigger] is_start(ring.video, k) {
            Some(SaveError::NoKeyframe)
        } else {
            None
        },
{
    let video = ring.video;
    if video.len() > 0 {
        let of = keyframe_of(video.last().epoch_id);
        if has_keyframe(video) {
            let k = lemma_filter_head(video, of);
            assert(is_start(video, k));
            lemma_origin_survives(ring, target);
        } else {
            assert forall|k: int| !#[trigger] is_start(video, k) by {
                if is_start(video, k) {
                    let i = lemma_filter_keeps(video, of, k);
                }
            }
        }
    }
}

} // verus!
