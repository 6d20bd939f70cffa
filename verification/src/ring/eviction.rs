//! What a push takes out of a ring, told by the packets alone: how long they last, and how many
//! bytes they hold.

use vstd::prelude::*;

use crate::encode::{EncodedAudioPacket, EncodedPacket};
use crate::ring::laws::{is_suffix, lemma_eviction_leaves_keyframe, lemma_keeps_newest};
use crate::ring::model::{
    audio_bytes, audio_slack, keyframe_from, lemma_audio_bytes_push, lemma_kept_from,
    lemma_keyframe_from, lemma_trim_audio_bytes, lemma_video_bytes_push, tracks_bytes, trimmed,
    video_bytes, RingView,
};

verus! {

/// The bytes of some video packets, one after the other.
pub open spec fn video_size(video: Seq<EncodedPacket>) -> int {
    video.fold_left(0int, |n: int, p: EncodedPacket| n + p.data@.len())
}

/// The bytes of a track's packets, one after the other.
pub open spec fn track_size(track: Seq<EncodedAudioPacket>) -> int {
    track.fold_left(0int, |n: int, p: EncodedAudioPacket| n + p.data@.len())
}

/// The bytes of all tracks' packets.
pub open spec fn audio_size(audio: Seq<Seq<EncodedAudioPacket>>) -> int {
    audio.fold_left(0int, |n: int, track: Seq<EncodedAudioPacket>| n + track_size(track))
}

/// Whether packets are within two caps: the video lasts no longer, from the oldest packet's time to
/// the newest one's end, and all packets together hold no more bytes.
pub open spec fn within(
    max_duration: int,
    max_bytes: int,
    video: Seq<EncodedPacket>,
    audio: Seq<Seq<EncodedAudioPacket>>,
) -> bool {
    &&& video.len() > 0 ==> video.last().pts + video.last().duration - video[0].pts
        <= max_duration
    &&& video_size(video) + audio_size(audio) <= max_bytes
}

/// A video packet's bytes are counted once each.
proof fn lemma_video_size(video: Seq<EncodedPacket>)
    ensures
        video_bytes(video) == video_size(video),
    decreases video.len(),
{
    if video.len() > 0 {
        lemma_video_size(video.drop_last());
        assert(video =~= video.drop_last().push(video.last()));
        lemma_video_bytes_push(video.drop_last(), video.last());
    }
}

/// A track's bytes are counted once each.
proof fn lemma_track_size(track: Seq<EncodedAudioPacket>)
    ensures
        audio_bytes(track) == track_size(track),
    decreases track.len(),
{
    if track.len() > 0 {
        lemma_track_size(track.drop_last());
        assert(track =~= track.drop_last().push(track.last()));
        lemma_audio_bytes_push(track.drop_last(), track.last());
    }
}

/// The tracks' bytes are counted once each.
proof fn lemma_audio_size(audio: Seq<Seq<EncodedAudioPacket>>, n: int)
    requires
        0 <= n <= audio.len(),
    ensures
        tracks_bytes(audio, n) == audio_size(audio.take(n)),
    decreases n,
{
    if n > 0 {
        lemma_audio_size(audio, n - 1);
        lemma_track_size(audio[n - 1]);
        assert(audio.take(n).drop_last() =~= audio.take(n - 1));
        assert(audio.take(n).last() == audio[n - 1]);
    }
}

/// Law: a ring counts the bytes of every packet that it holds, each once.
pub proof fn lemma_every_byte_counts(ring: RingView)
    ensures
        ring.bytes() == video_size(ring.video) + audio_size(ring.audio),
{
    lemma_video_size(ring.video);
    lemma_audio_size(ring.audio, ring.audio.len() as int);
    assert(ring.audio.take(ring.audio.len() as int) =~= ring.audio);
}

/// A cap is exceeded exactly where packets are not within the caps.
proof fn lemma_over_cap(ring: RingView)
    ensures
        ring.video.len() > 0 ==> ring.over_cap() == !within(
            ring.max_duration,
            ring.max_bytes,
            ring.video,
            ring.audio,
        ),
{
    lemma_every_byte_counts(ring);
}

/// Trimmed audio, over what it was trimmed from.
pub open spec fn trimmed_to(
    kept: Seq<Seq<EncodedAudioPacket>>,
    audio: Seq<Seq<EncodedAudioPacket>>,
    threshold: int,
) -> bool {
    &&& kept.len() == audio.len()
    &&& forall|t: int|
        0 <= t < audio.len() ==> is_suffix(#[trigger] kept[t], audio[t]) && (kept[t].len() > 0
            ==> kept[t][0].pts >= threshold)
}

/// What is left of some packets in a ring with these caps: the newest of them, from a keyframe on
/// where any left; no fewer than the caps allow; and no more, where more than one group of pictures
/// is left. The last group never leaves.
pub open spec fn left_over(
    max_duration: int,
    max_bytes: int,
    video: Seq<EncodedPacket>,
    audio: Seq<Seq<EncodedAudioPacket>>,
    after: RingView,
) -> bool {
    let gone = video.len() - after.video.len();
    &&& after.max_duration == max_duration
    &&& after.max_bytes == max_bytes
    &&& 0 <= gone
    &&& after.video == video.skip(gone)
    &&& video.len() > 0 ==> gone < video.len()
    &&& gone > 0 ==> video[gone].is_keyframe
    &&& forall|j: int|
        0 <= j < video.len() && (j == 0 || (#[trigger] video[j]).is_keyframe) && within(
            max_duration,
            max_bytes,
            video.skip(j),
            audio,
        ) ==> gone <= j
    &&& forall|k: int|
        gone < k < video.len() && (#[trigger] video[k]).is_keyframe ==> within(
            max_duration,
            max_bytes,
            after.video,
            after.audio,
        )
    &&& video.len() > 0 ==> trimmed_to(after.audio, audio, after.video[0].pts - 5_000_000)
    &&& video.len() == 0 ==> after.audio == audio
}

/// Less audio is no less within the caps.
proof fn lemma_less_audio(ring: RingView, j: int)
    requires
        0 <= j < ring.video.len(),
    ensures
        within(ring.max_duration, ring.max_bytes, ring.video.skip(j), ring.audio) ==> within(
            ring.max_duration,
            ring.max_bytes,
            ring.video.skip(j),
            ring.trim_audio().audio,
        ),
{
    lemma_trim_audio_bytes(ring);
    lemma_every_byte_counts(ring);
    lemma_every_byte_counts(ring.trim_audio());
}

/// The audio that is left is trimmed to the video that is left.
proof fn lemma_audio_left(ring: RingView)
    requires
        ring.video.len() > 0,
    ensures
        trimmed_to(
            ring.enforced().audio,
            ring.audio,
            ring.enforced().video[0].pts - 5_000_000,
        ),
    decreases ring.video.len(),
{
    lemma_keeps_newest(ring);
    if ring.over_cap() && ring.has_spare() {
        lemma_keyframe_from(ring.video, 1);
        lemma_audio_left(ring.drop_gop().trim_audio());
    } else {
        let threshold = ring.video[0].pts - audio_slack();
        assert(audio_slack() == 5_000_000);
        assert forall|t: int| 0 <= t < ring.audio.len() implies is_suffix(
            #[trigger] ring.enforced().audio[t],
            ring.audio[t],
        ) && (ring.enforced().audio[t].len() > 0 ==> ring.enforced().audio[t][0].pts
            >= threshold) by {
            lemma_kept_from(ring.audio[t], threshold, 0);
            assert(ring.enforced().audio[t] == trimmed(ring.audio[t], threshold));
        }
    }
}

/// What stays is no less than the caps allow.
proof fn lemma_no_more_than_needed(ring: RingView, j: int)
    requires
        0 <= j < ring.video.len(),
        j == 0 || ring.video[j].is_keyframe,
        within(ring.max_duration, ring.max_bytes, ring.video.skip(j), ring.audio),
    ensures
        ring.video.len() - ring.enforced().video.len() <= j,
    decreases ring.video.len(),
{
    lemma_over_cap(ring);
    if j == 0 {
        assert(ring.video.skip(0) =~= ring.video);
    } else if ring.over_cap() && ring.has_spare() {
        lemma_keyframe_from(ring.video, 1);
        let cut = keyframe_from(ring.video, 1);
        let dropped = ring.drop_gop();
        let next = dropped.trim_audio();
        assert(cut <= j);
        assert(next.video =~= ring.video.skip(cut));
        assert(next.video.skip(j - cut) =~= ring.video.skip(j));
        lemma_less_audio(dropped, j - cut);
        lemma_no_more_than_needed(next, j - cut);
    }
}

/// What stays is within the caps, or only one group of pictures is left.
proof fn lemma_no_less_than_needed(ring: RingView, k: int)
    requires
        1 <= k < ring.enforced().video.len(),
        ring.enforced().video[k].is_keyframe,
    ensures
        within(
            ring.max_duration,
            ring.max_bytes,
            ring.enforced().video,
            ring.enforced().audio,
        ),
    decreases ring.video.len(),
{
    if ring.over_cap() && ring.has_spare() {
        lemma_keyframe_from(ring.video, 1);
        lemma_no_less_than_needed(ring.drop_gop().trim_audio(), k);
    } else {
        lemma_keyframe_from(ring.video, 1);
        lemma_over_cap(ring);
        lemma_less_audio(ring, 0);
        assert(ring.video.skip(0) =~= ring.video);
    }
}

/// What enforcing the caps leaves of a ring.
proof fn lemma_enforced(ring: RingView)
    ensures
        left_over(ring.max_duration, ring.max_bytes, ring.video, ring.audio, ring.enforced()),
{
    let after = ring.enforced();
    let gone = ring.video.len() - after.video.len();
    lemma_keeps_newest(ring);
    lemma_eviction_leaves_keyframe(ring);
    if gone > 0 {
        assert(after.video[0] == ring.video[gone]);
    }
    assert forall|j: int|
        0 <= j < ring.video.len() && (j == 0 || (#[trigger] ring.video[j]).is_keyframe) && within(
            ring.max_duration,
            ring.max_bytes,
            ring.video.skip(j),
            ring.audio,
        ) implies gone <= j by {
        lemma_no_more_than_needed(ring, j);
    }
    assert forall|k: int|
        gone < k < ring.video.len() && (#[trigger] ring.video[k]).is_keyframe implies within(
        ring.max_duration,
        ring.max_bytes,
        after.video,
        after.audio,
    ) by {
        assert(after.video[k - gone] == ring.video[k]);
        lemma_no_less_than_needed(ring, k - gone);
    }
    if ring.video.len() > 0 {
        lemma_audio_left(ring);
    } else {
        lemma_keyframe_from(ring.video, 1);
        assert(!ring.has_spare());
    }
}

/// Law: after a video packet came in, a ring holds that packet and the packets before it, as many as
/// its caps allow. Whole groups of pictures leave, the oldest first: none where the packets from
/// some group on, and the audio, are within both caps; and enough that the rest is within them,
/// unless a single group is left.
pub proof fn lemma_video_push_keeps_what_fits(ring: RingView, packet: EncodedPacket)
    ensures
        left_over(
            ring.max_duration,
            ring.max_bytes,
            ring.video.push(packet),
            ring.audio,
            ring.with_video(packet).enforced(),
        ),
        ring.with_video(packet).enforced().video.last() == packet,
{
    lemma_enforced(ring.with_video(packet));
}

/// Law: after an audio packet came in, a ring holds what it held before and that packet, as far as
/// its caps allow.
pub proof fn lemma_audio_push_keeps_what_fits(ring: RingView, t: int, packet: EncodedAudioPacket)
    requires
        0 <= t < ring.audio.len(),
    ensures
        left_over(
            ring.max_duration,
            ring.max_bytes,
            ring.video,
            ring.audio.update(t, ring.audio[t].push(packet)),
            ring.with_audio(t, packet).enforced(),
        ),
{
    lemma_enforced(ring.with_audio(t, packet));
}

/// Law: a group of pictures leaves only because the ring with it exceeds a cap. The last group that
/// left begins at `r.0`, right before the packets that stayed; with it, and with the audio `r.1` that
/// the ring held then, one of the two caps was exceeded.
pub proof fn lemma_eviction_has_a_reason(ring: RingView) -> (r: (int, Seq<Seq<EncodedAudioPacket>>))
    requires
        ring.enforced().video.len() < ring.video.len(),
    ensures
        ({
            let gone = ring.video.len() - ring.enforced().video.len();
            &&& 0 <= r.0 < gone
            &&& r.0 == 0 || ring.video[r.0].is_keyframe
            &&& forall|j: int| r.0 < j < gone ==> !(#[trigger] ring.video[j]).is_keyframe
            &&& r.0 == 0 ==> r.1 == ring.audio
            &&& r.0 > 0 ==> trimmed_to(r.1, ring.audio, ring.video[r.0].pts - 5_000_000)
            &&& !within(ring.max_duration, ring.max_bytes, ring.video.skip(r.0), r.1)
        }),
    decreases ring.video.len(),
{
    lemma_keeps_newest(ring);
    lemma_over_cap(ring);
    lemma_keyframe_from(ring.video, 1);
    let cut = keyframe_from(ring.video, 1);
    let dropped = ring.drop_gop();
    let next = dropped.trim_audio();
    assert(next.video =~= ring.video.skip(cut));
    assert(ring.over_cap() && ring.has_spare());
    lemma_keeps_newest(next);
    assert(ring.video.skip(0) =~= ring.video);
    if next.enforced().video.len() == next.video.len() {
        assert(ring.video.len() - ring.enforced().video.len() == cut);
        (0, ring.audio)
    } else {
        let (j, audio) = lemma_eviction_has_a_reason(next);
        assert(next.video.skip(j) =~= ring.video.skip(cut + j));
        assert(next.video[j] == ring.video[cut + j]);
        assert(audio_slack() == 5_000_000);
        let threshold = dropped.video[0].pts - audio_slack();
        assert(dropped.video[0] == ring.video[cut]);
        assert forall|t: int| 0 <= t < ring.audio.len() implies is_suffix(
            #[trigger] next.audio[t],
            ring.audio[t],
        ) && (next.audio[t].len() > 0 ==> next.audio[t][0].pts >= threshold) by {
            lemma_kept_from(ring.audio[t], threshold, 0);
            assert(next.audio[t] == trimmed(ring.audio[t], threshold));
        }
        if j > 0 {
            assert forall|t: int| 0 <= t < ring.audio.len() implies is_suffix(
                #[trigger] audio[t],
                ring.audio[t],
            ) by {
                assert(is_suffix(audio[t], next.audio[t]));
                assert(is_suffix(next.audio[t], ring.audio[t]));
                assert(audio[t] =~= ring.audio[t].skip(ring.audio[t].len() - audio[t].len()));
            }
        }
        let gone = ring.video.len() - ring.enforced().video.len();
        assert forall|i: int| cut + j < i < gone implies !(#[trigger] ring.video[i]).is_keyframe by {
            assert(next.video[i - cut] == ring.video[i]);
        }
        (cut + j, audio)
    }
}

} // verus!
