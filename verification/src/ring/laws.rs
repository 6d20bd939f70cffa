//! What holds of a ring after every push.

use vstd::prelude::*;

use crate::encode::{EncodedAudioPacket, EncodedPacket};
use crate::ring::model::{
    audio_slack, kept_from, keyframe_from, lemma_kept_from, lemma_keyframe_from,
    lemma_trim_audio_bytes, trimmed, RingView,
};

verus! {

/// Whether `rest` is what is left of `all` after its first packets.
pub open spec fn is_suffix<T>(rest: Seq<T>, all: Seq<T>) -> bool {
    rest.len() <= all.len() && rest == all.skip(all.len() - rest.len())
}

/// Suffixes of suffixes are suffixes.
proof fn lemma_suffix_trans<T>(a: Seq<T>, b: Seq<T>, c: Seq<T>)
    requires
        is_suffix(a, b),
        is_suffix(b, c),
    ensures
        is_suffix(a, c),
{
    assert(a =~= c.skip(c.len() - a.len()));
}

/// Law: pushing never reorders or changes what is kept. The video that stays, and each audio track
/// that stays, is the newest part of what was there.
pub proof fn lemma_keeps_newest(ring: RingView)
    ensures
        is_suffix(ring.enforced().video, ring.video),
        ring.enforced().audio.len() == ring.audio.len(),
        forall|t: int|
            0 <= t < ring.audio.len() ==> is_suffix(
                #[trigger] ring.enforced().audio[t],
                ring.audio[t],
            ),
        ring.enforced().max_duration == ring.max_duration,
        ring.enforced().max_bytes == ring.max_bytes,
    decreases ring.video.len(),
{
    if ring.over_cap() && ring.has_spare() {
        lemma_keyframe_from(ring.video, 1);
        let dropped = ring.drop_gop();
        let next = dropped.trim_audio();
        lemma_trim_keeps_newest(dropped);
        lemma_keeps_newest(next);
        assert(is_suffix(dropped.video, ring.video));
        lemma_suffix_trans(ring.enforced().video, next.video, ring.video);
        assert forall|t: int| 0 <= t < ring.audio.len() implies is_suffix(
            #[trigger] ring.enforced().audio[t],
            ring.audio[t],
        ) by {
            assert(is_suffix(next.audio[t], ring.audio[t]));
            lemma_suffix_trans(ring.enforced().audio[t], next.audio[t], ring.audio[t]);
        }
    } else {
        lemma_trim_keeps_newest(ring);
        assert(ring.video =~= ring.video.skip(0));
    }
}

/// Trimming audio keeps the newest part of each track.
proof fn lemma_trim_keeps_newest(ring: RingView)
    ensures
        ring.trim_audio().video == ring.video,
        ring.trim_audio().audio.len() == ring.audio.len(),
        forall|t: int|
            0 <= t < ring.audio.len() ==> is_suffix(
                #[trigger] ring.trim_audio().audio[t],
                ring.audio[t],
            ),
{
    assert forall|t: int| 0 <= t < ring.audio.len() implies is_suffix(
        #[trigger] ring.trim_audio().audio[t],
        ring.audio[t],
    ) by {
        if ring.video.len() > 0 {
            lemma_kept_from(ring.audio[t], ring.video[0].pts - audio_slack(), 0);
        } else {
            assert(ring.audio[t] =~= ring.audio[t].skip(0));
        }
    }
}

/// Law: once any video has been evicted, the oldest packet is a keyframe. Eviction never leaves
/// part of a group of pictures.
pub proof fn lemma_eviction_leaves_keyframe(ring: RingView)
    ensures
        ring.enforced().video.len() > 0 <==> ring.video.len() > 0,
        ring.enforced().video != ring.video ==> ring.enforced().video[0].is_keyframe,
        ring.video.len() > 0 && ring.video[0].is_keyframe ==> ring.enforced().video[0].is_keyframe,
    decreases ring.video.len(),
{
    if ring.over_cap() && ring.has_spare() {
        lemma_keyframe_from(ring.video, 1);
        let next = ring.drop_gop().trim_audio();
        assert(next.video[0] == ring.video[keyframe_from(ring.video, 1)]);
        lemma_eviction_leaves_keyframe(next);
    }
}

/// Law: after a push the ring is within both caps, or only one group of pictures is left.
pub proof fn lemma_within_caps_or_one_gop(ring: RingView)
    ensures
        ring.enforced().has_spare() ==> !ring.enforced().over_cap(),
        !ring.over_cap() || !ring.has_spare() ==> ring.enforced().video == ring.video,
    decreases ring.video.len(),
{
    if ring.over_cap() && ring.has_spare() {
        lemma_keyframe_from(ring.video, 1);
        lemma_within_caps_or_one_gop(ring.drop_gop().trim_audio());
    } else {
        lemma_trim_audio_bytes(ring);
    }
}

/// Law: the last group of pictures is never evicted: the newest packet always stays, and so does
/// every packet from the last keyframe on.
pub proof fn lemma_last_gop_stays(ring: RingView, k: int)
    requires
        0 <= k < ring.video.len(),
        forall|j: int| k < j < ring.video.len() ==> !(#[trigger] ring.video[j]).is_keyframe,
    ensures
        ring.enforced().video.len() >= ring.video.len() - k,
    decreases ring.video.len(),
{
    if ring.over_cap() && ring.has_spare() {
        lemma_keyframe_from(ring.video, 1);
        let cut = keyframe_from(ring.video, 1);
        let next = ring.drop_gop().trim_audio();
        assert(cut <= k);
        assert forall|j: int| k - cut < j < next.video.len() implies !(
        #[trigger] next.video[j]).is_keyframe by {
            assert(next.video[j] == ring.video[j + cut]);
        }
        lemma_last_gop_stays(next, k - cut);
    }
}

/// One packet on its way into a ring: of the video, or of a track.
pub enum Push {
    Video(EncodedPacket),
    Audio(usize, EncodedAudioPacket),
}

/// The ring after one push.
pub open spec fn pushed(ring: RingView, push: Push) -> RingView {
    match push {
        Push::Video(packet) => ring.with_video(packet).enforced(),
        Push::Audio(t, packet) => if t < ring.audio.len() {
            ring.with_audio(t as int, packet).enforced()
        } else {
            ring
        },
    }
}

/// The ring after some pushes.
pub open spec fn after_pushes(ring: RingView, pushes: Seq<Push>) -> RingView
    decreases pushes.len(),
{
    if pushes.len() == 0 {
        ring
    } else {
        pushed(after_pushes(ring, pushes.drop_last()), pushes.last())
    }
}

/// The video packets among some pushes.
pub open spec fn video_pushed(pushes: Seq<Push>) -> Seq<EncodedPacket>
    decreases pushes.len(),
{
    if pushes.len() == 0 {
        Seq::empty()
    } else {
        match pushes.last() {
            Push::Video(packet) => video_pushed(pushes.drop_last()).push(packet),
            Push::Audio(_, _) => video_pushed(pushes.drop_last()),
        }
    }
}

/// The packets of track `t` among some pushes.
pub open spec fn audio_pushed(pushes: Seq<Push>, t: int) -> Seq<EncodedAudioPacket>
    decreases pushes.len(),
{
    if pushes.len() == 0 {
        Seq::empty()
    } else {
        match pushes.last() {
            Push::Audio(u, packet) if u == t => audio_pushed(pushes.drop_last(), t).push(packet),
            _ => audio_pushed(pushes.drop_last(), t),
        }
    }
}

/// A packet behind both leaves a suffix a suffix.
proof fn lemma_suffix_push<T>(rest: Seq<T>, all: Seq<T>, item: T)
    requires
        is_suffix(rest, all),
    ensures
        is_suffix(rest.push(item), all.push(item)),
{
    assert(rest.push(item) =~= all.push(item).skip(all.len() - rest.len()));
}

/// Law: after any run of pushes a ring holds the newest part of all that it was given: of the
/// video, and of each track.
pub proof fn lemma_ring_holds_newest(ring: RingView, pushes: Seq<Push>)
    ensures
        is_suffix(after_pushes(ring, pushes).video, ring.video + video_pushed(pushes)),
        after_pushes(ring, pushes).audio.len() == ring.audio.len(),
        forall|t: int|
            0 <= t < ring.audio.len() ==> is_suffix(
                #[trigger] after_pushes(ring, pushes).audio[t],
                ring.audio[t] + audio_pushed(pushes, t),
            ),
    decreases pushes.len(),
{
    let last = after_pushes(ring, pushes);
    if pushes.len() == 0 {
        assert(ring.video + video_pushed(pushes) =~= ring.video);
        assert(ring.video =~= ring.video.skip(0));
        assert forall|t: int| 0 <= t < ring.audio.len() implies is_suffix(
            #[trigger] last.audio[t],
            ring.audio[t] + audio_pushed(pushes, t),
        ) by {
            assert(ring.audio[t] + audio_pushed(pushes, t) =~= ring.audio[t]);
            assert(ring.audio[t] =~= ring.audio[t].skip(0));
        }
    } else {
        let before = pushes.drop_last();
        let earlier = after_pushes(ring, before);
        lemma_ring_holds_newest(ring, before);
        let given = match pushes.last() {
            Push::Video(packet) => earlier.with_video(packet),
            Push::Audio(t, packet) => if t < earlier.audio.len() {
                earlier.with_audio(t as int, packet)
            } else {
                earlier
            },
        };
        let all_video = ring.video + video_pushed(pushes);
        assert(is_suffix(given.video, all_video)) by {
            if let Push::Video(packet) = pushes.last() {
                lemma_suffix_push(earlier.video, ring.video + video_pushed(before), packet);
                assert(all_video =~= (ring.video + video_pushed(before)).push(packet));
            }
        }
        assert forall|t: int| 0 <= t < ring.audio.len() implies is_suffix(
            #[trigger] given.audio[t],
            ring.audio[t] + audio_pushed(pushes, t),
        ) by {
            let was = ring.audio[t] + audio_pushed(before, t);
            assert(is_suffix(earlier.audio[t], was));
            if let Push::Audio(u, packet) = pushes.last() {
                if u == t {
                    lemma_suffix_push(earlier.audio[t], was, packet);
                    assert(ring.audio[t] + audio_pushed(pushes, t) =~= was.push(packet));
                }
            }
        }
        lemma_keeps_newest(given);
        if last != given {
            lemma_suffix_trans(last.video, given.video, all_video);
            assert forall|t: int| 0 <= t < ring.audio.len() implies is_suffix(
                #[trigger] last.audio[t],
                ring.audio[t] + audio_pushed(pushes, t),
            ) by {
                assert(is_suffix(given.enforced().audio[t], given.audio[t]));
                lemma_suffix_trans(
                    last.audio[t],
                    given.audio[t],
                    ring.audio[t] + audio_pushed(pushes, t),
                );
            }
        }
    }
}

/// Whether video times never go back.
pub open spec fn in_time_order(video: Seq<EncodedPacket>) -> bool {
    forall|i: int, j: int| 0 <= i <= j < video.len() ==> video[i].pts <= video[j].pts
}

/// Law: audio covers the video that stays. Every audio packet that was dropped lies more than the
/// slack before the oldest video packet that stayed, and each track begins at the slack or later.
pub proof fn lemma_audio_covers_video(ring: RingView, t: int)
    requires
        0 <= t < ring.audio.len(),
        ring.video.len() > 0,
        in_time_order(ring.video),
    ensures
        ({
            let kept = ring.enforced().audio[t];
            let threshold = ring.enforced().video[0].pts - 5_000_000;
            &&& kept.len() <= ring.audio[t].len()
            &&& forall|i: int|
                0 <= i < ring.audio[t].len() - kept.len() ==> (#[trigger] ring.audio[t][i]).pts
                    < threshold
            &&& kept.len() > 0 ==> kept[0].pts >= threshold
        }),
    decreases ring.video.len(),
{
    lemma_keeps_newest(ring);
    lemma_eviction_leaves_keyframe(ring);
    let last = ring.enforced();
    if ring.over_cap() && ring.has_spare() {
        lemma_keyframe_from(ring.video, 1);
        let cut = keyframe_from(ring.video, 1);
        let dropped = ring.drop_gop();
        let next = dropped.trim_audio();
        assert(next.video =~= ring.video.skip(cut));
        lemma_audio_covers_video(next, t);
        lemma_trim_keeps_newest(dropped);
        lemma_keeps_newest(next);
        lemma_eviction_leaves_keyframe(next);
        let threshold = last.video[0].pts - audio_slack();
        let first = dropped.video[0].pts - audio_slack();
        assert(first <= threshold) by {
            let gone = ring.video.len() - last.video.len();
            assert(last.video[0] == ring.video[gone]);
            assert(next.video.len() - last.video.len() >= 0);
            assert(gone >= cut);
        }
        lemma_kept_from(ring.audio[t], first, 0);
        let k = kept_from(ring.audio[t], first, 0);
        assert(next.audio[t] == trimmed(ring.audio[t], first));
        assert forall|i: int| 0 <= i < ring.audio[t].len() - last.audio[t].len() implies (
        #[trigger] ring.audio[t][i]).pts < threshold by {
            if i >= k {
                assert(next.audio[t][i - k] == ring.audio[t][i]);
            }
        }
    } else {
        let threshold = ring.video[0].pts - audio_slack();
        lemma_kept_from(ring.audio[t], threshold, 0);
        assert(last.audio[t] == trimmed(ring.audio[t], threshold));
    }
}

} // verus!
