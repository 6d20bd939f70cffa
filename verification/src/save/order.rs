//! In which order a clip's packets go to the muxer.

use vstd::prelude::*;

use crate::encode::{EncodedAudioPacket, EncodedPacket};
use crate::save::feed::{has_key, key_le, stably_sorted, tracks_feed, window_feed, Feed};

verus! {

/// The time of a packet.
pub open spec fn time_of(f: Feed) -> int {
    match f {
        Feed::Video(p) => p.pts as int,
        Feed::Audio(_, a) => a.pts as int,
    }
}

/// Filters that take the same keep the same.
proof fn lemma_same_filter<'a>(
    s: Seq<Feed<'a>>,
    p: spec_fn(Feed<'a>) -> bool,
    q: spec_fn(Feed<'a>) -> bool,
)
    requires
        forall|f: Feed<'a>| #[trigger] p(f) == q(f),
    ensures
        s.filter(p) == s.filter(q),
    decreases s.len(),
{
    reveal(Seq::filter);
    if s.len() > 0 {
        lemma_same_filter(s.drop_last(), p, q);
        assert(p(s.last()) == q(s.last()));
    }
}

/// Law: packets go out by their time: none goes before an earlier one, and at the same time pictures go
/// before sound. Those of one kind and one time go as they came, none is left out and none is doubled.
pub proof fn lemma_packets_go_out_by_time<'a>(sorted: Seq<Feed<'a>>, items: Seq<Feed<'a>>, t: int)
    requires
        stably_sorted(sorted, items),
    ensures
        forall|i: int, j: int|
            0 <= i < j < sorted.len() ==> time_of(#[trigger] sorted[i]) <= time_of(
                #[trigger] sorted[j],
            ),
        forall|i: int, j: int|
            0 <= i < j < sorted.len() && time_of(#[trigger] sorted[i]) == time_of(
                #[trigger] sorted[j],
            ) && sorted[j] is Video ==> sorted[i] is Video,
        sorted.filter(|f: Feed<'a>| f is Video && time_of(f) == t) == items.filter(
            |f: Feed<'a>| f is Video && time_of(f) == t,
        ),
        sorted.filter(|f: Feed<'a>| f is Audio && time_of(f) == t) == items.filter(
            |f: Feed<'a>| f is Audio && time_of(f) == t,
        ),
{
    assert forall|i: int, j: int| 0 <= i < j < sorted.len() implies time_of(#[trigger] sorted[i])
        <= time_of(#[trigger] sorted[j]) && (time_of(sorted[i]) == time_of(sorted[j]) && sorted[j] is Video
        ==> sorted[i] is Video) by {
        assert(key_le(sorted[i].key(), sorted[j].key()));
    }
    let pictures = |f: Feed<'a>| f is Video && time_of(f) == t;
    let sounds = |f: Feed<'a>| f is Audio && time_of(f) == t;
    assert(sorted.filter(has_key((t, 0int))) == items.filter(has_key((t, 0int))));
    assert(sorted.filter(has_key((t, 1int))) == items.filter(has_key((t, 1int))));
    lemma_same_filter(sorted, has_key((t, 0int)), pictures);
    lemma_same_filter(items, has_key((t, 0int)), pictures);
    lemma_same_filter(sorted, has_key((t, 1int)), sounds);
    lemma_same_filter(items, has_key((t, 1int)), sounds);
}

/// Law: what goes out of a window is all of it: each of its pictures, and each packet of each track, with
/// its track's number.
pub proof fn lemma_all_of_a_window_goes_out(
    video: Seq<EncodedPacket>,
    audio: Seq<Seq<EncodedAudioPacket>>,
    t: int,
    i: int,
)
    requires
        audio.len() <= usize::MAX,
    ensures
        0 <= i < video.len() ==> window_feed(video, audio)[i] == Feed::Video(&video[i]),
        0 <= t < audio.len() && 0 <= i < audio[t].len() ==> exists|k: int|
            0 <= k < window_feed(video, audio).len() && #[trigger] window_feed(
                video,
                audio,
            )[k] == Feed::Audio(t as usize, &audio[t][i]),
        window_feed(video, audio).len() == video.len() + packets_in(audio, audio.len() as int),
{
    let n = audio.len() as int;
    lemma_tracks_len(audio, n);
    if 0 <= t < audio.len() && 0 <= i < audio[t].len() {
        let k = lemma_track_goes_out(audio, n, t, i);
        assert(window_feed(video, audio)[video.len() + k] == Feed::Audio(
            t as usize,
            &audio[t][i],
        ));
    }
}

/// How many packets the first tracks have.
pub open spec fn packets_in(audio: Seq<Seq<EncodedAudioPacket>>, n: int) -> int
    decreases n,
{
    if n <= 0 {
        0
    } else {
        packets_in(audio, n - 1) + audio[n - 1].len()
    }
}

/// As many packets go out of the tracks as they have.
proof fn lemma_tracks_len(audio: Seq<Seq<EncodedAudioPacket>>, n: int)
    requires
        0 <= n <= audio.len(),
    ensures
        tracks_feed(audio, n).len() == packets_in(audio, n),
    decreases n,
{
    if n > 0 {
        lemma_tracks_len(audio, n - 1);
    }
}

/// A packet of a track goes out.
proof fn lemma_track_goes_out(
    audio: Seq<Seq<EncodedAudioPacket>>,
    n: int,
    t: int,
    i: int,
) -> (k: int)
    requires
        0 <= t < n <= audio.len(),
        0 <= i < audio[t].len(),
    ensures
        0 <= k < tracks_feed(audio, n).len(),
        tracks_feed(audio, n)[k] == Feed::Audio(
            t as usize,
            &audio[t][i],
        ),
    decreases n,
{
    let before = tracks_feed(audio, n - 1);
    if t < n - 1 {
        lemma_track_goes_out(audio, n - 1, t, i)
    } else {
        before.len() + i
    }
}

} // verus!
