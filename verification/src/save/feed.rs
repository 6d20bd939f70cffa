//! The order in which a clip's packets go to the muxer.

use vstd::prelude::*;

use crate::encode::{EncodedAudioPacket, EncodedPacket};
use crate::save::window::{window_tracks, SaveWindow};
use crate::seqs::{lemma_filter_first, lemma_filter_none, lemma_filter_take};

verus! {

/// One packet on its way to the muxer.
#[derive(Clone, Copy)]
pub enum Feed<'a> {
    Video(&'a EncodedPacket),
    Audio(usize, &'a EncodedAudioPacket),
}

impl<'a> Feed<'a> {
    /// What a packet is ordered by: its time, and at the same time video before audio.
    pub open spec fn key(self) -> (int, int) {
        match self {
            Feed::Video(p) => (p.pts as int, 0),
            Feed::Audio(_, a) => (a.pts as int, 1),
        }
    }

    /// The packet's time.
    pub fn pts(&self) -> (pts: i64)
        ensures
            pts == self.key().0,
    {
        match self {
            Feed::Video(p) => p.pts,
            Feed::Audio(_, a) => a.pts,
        }
    }

    /// Video before audio: at the same time, the keyframe that a clip starts at comes first, and
    /// fixes the origin before any audio.
    pub fn rank(&self) -> (rank: u8)
        ensures
            rank == self.key().1,
    {
        match self {
            Feed::Video(_) => 0,
            Feed::Audio(_, _) => 1,
        }
    }
}

/// The order of keys.
pub open spec fn key_le(a: (int, int), b: (int, int)) -> bool {
    a.0 < b.0 || (a.0 == b.0 && a.1 <= b.1)
}

/// Whether packets come in order.
pub open spec fn in_order(feed: Seq<Feed>) -> bool {
    forall|i: int, j: int| 0 <= i <= j < feed.len() ==> key_le(feed[i].key(), feed[j].key())
}

/// The packets with a key.
pub open spec fn has_key<'a>(key: (int, int)) -> spec_fn(Feed<'a>) -> bool {
    |f: Feed<'a>| f.key() == key
}

/// Whether `sorted` is `items` in order, with packets of the same key in the order they had.
pub open spec fn stably_sorted<'a>(sorted: Seq<Feed<'a>>, items: Seq<Feed<'a>>) -> bool {
    &&& in_order(sorted)
    &&& forall|key: (int, int)|
        #[trigger] sorted.filter(has_key(key)) == items.filter(has_key(key))
}

/// A track's packets.
pub open spec fn track_feed<'a>(t: int, track: Seq<EncodedAudioPacket>) -> Seq<Feed<'a>> {
    Seq::new(track.len(), |i: int| Feed::Audio(t as usize, &track[i]))
}

/// The packets of the first `n` tracks, one track after the other.
pub open spec fn tracks_feed<'a>(audio: Seq<Seq<EncodedAudioPacket>>, n: int) -> Seq<Feed<'a>>
    decreases n,
{
    if n <= 0 {
        Seq::empty()
    } else {
        tracks_feed(audio, n - 1) + track_feed(n - 1, audio[n - 1])
    }
}

/// The packets of a window: video, then the tracks.
pub open spec fn window_feed<'a>(
    video: Seq<EncodedPacket>,
    audio: Seq<Seq<EncodedAudioPacket>>,
) -> Seq<Feed<'a>> {
    Seq::new(video.len(), |i: int| Feed::Video(&video[i])) + tracks_feed(
        audio,
        audio.len() as int,
    )
}

/// Merge two ordered lists; of packets with the same key, those of `a` come first.
fn merge<'a>(a: &Vec<Feed<'a>>, b: &Vec<Feed<'a>>) -> (r: Vec<Feed<'a>>)
    requires
        in_order(a@),
        in_order(b@),
    ensures
        stably_sorted(r@, a@ + b@),
{
    let mut r: Vec<Feed<'a>> = Vec::new();
    let mut i: usize = 0;
    let mut j: usize = 0;
    proof {
        assert forall|key: (int, int)|
            #[trigger] r@.filter(has_key(key)) == a@.take(0).filter(has_key(key)) + b@.take(
                0,
            ).filter(has_key(key)) by {
            lemma_filter_none(r@, has_key(key));
            lemma_filter_none(a@, has_key(key));
            lemma_filter_none(b@, has_key(key));
            assert(r@.take(0) =~= r@);
        }
    }
    while i < a.len() || j < b.len()
        invariant
            i <= a@.len(),
            j <= b@.len(),
            in_order(a@),
            in_order(b@),
            in_order(r@),
            forall|x: int, y: int|
                0 <= x < r@.len() && i <= y < a@.len() ==> key_le(
                    #[trigger] r@[x].key(),
                    #[trigger] a@[y].key(),
                ),
            forall|x: int, y: int|
                0 <= x < r@.len() && j <= y < b@.len() ==> key_le(
                    #[trigger] r@[x].key(),
                    #[trigger] b@[y].key(),
                ),
            forall|x: int, y: int|
                0 <= x < j && i <= y < a@.len() ==> !key_le(
                    #[trigger] a@[y].key(),
                    #[trigger] b@[x].key(),
                ),
            forall|key: (int, int)|
                #[trigger] r@.filter(has_key(key)) == a@.take(i as int).filter(has_key(key))
                    + b@.take(j as int).filter(has_key(key)),
        decreases a@.len() - i + b@.len() - j,
    {
        let from_a: bool = if i >= a.len() {
            false
        } else if j >= b.len() {
            true
        } else {
            let x: i64 = a[i].pts();
            let y: i64 = b[j].pts();
            x < y || (x == y && a[i].rank() <= b[j].rank())
        };
        let ghost before = r@;
        if from_a {
            r.push(a[i]);
            proof {
                assert forall|x: int, y: int|
                    0 <= x < r@.len() && i + 1 <= y < a@.len() implies key_le(
                    #[trigger] r@[x].key(),
                    #[trigger] a@[y].key(),
                ) by {
                    if x < before.len() {
                        assert(r@[x] == before[x]);
                        assert(key_le(before[x].key(), a@[y].key()));
                    } else if i < a@.len() {
                        assert(key_le(a@[i as int].key(), a@[y].key()));
                    }
                }
                assert forall|x: int, y: int|
                    0 <= x < r@.len() && j <= y < b@.len() implies key_le(
                    #[trigger] r@[x].key(),
                    #[trigger] b@[y].key(),
                ) by {
                    if x < before.len() {
                        assert(r@[x] == before[x]);
                        assert(key_le(before[x].key(), b@[y].key()));
                    } else if j < b@.len() {
                        assert(key_le(b@[j as int].key(), b@[y].key()));
                    }
                }
                assert forall|key: (int, int)|
                    #[trigger] r@.filter(has_key(key)) == a@.take(i + 1).filter(has_key(key))
                        + b@.take(j as int).filter(has_key(key)) by {
                    lemma_filter_take(a@, has_key(key), i as int);
                    lemma_push_filter(before, a@[i as int], key);
                    if a@[i as int].key() == key {
                        lemma_no_key(b@, j as int, key);
                    }
                    assert(before.filter(has_key(key)) == a@.take(i as int).filter(has_key(key))
                        + b@.take(j as int).filter(has_key(key)));
                }
            }
            i = i + 1;
        } else {
            r.push(b[j]);
            proof {
                assert forall|x: int, y: int| 0 <= x < j + 1 && i <= y < a@.len() implies !key_le(
                    #[trigger] a@[y].key(),
                    #[trigger] b@[x].key(),
                ) by {
                    if x == j {
                        assert(key_le(a@[i as int].key(), a@[y].key()));
                    }
                }
                assert forall|x: int, y: int|
                    0 <= x < r@.len() && i <= y < a@.len() implies key_le(
                    #[trigger] r@[x].key(),
                    #[trigger] a@[y].key(),
                ) by {
                    if x < before.len() {
                        assert(r@[x] == before[x]);
                        assert(key_le(before[x].key(), a@[y].key()));
                    } else if i < a@.len() {
                        assert(key_le(a@[i as int].key(), a@[y].key()));
                    }
                }
                assert forall|x: int, y: int|
                    0 <= x < r@.len() && j + 1 <= y < b@.len() implies key_le(
                    #[trigger] r@[x].key(),
                    #[trigger] b@[y].key(),
                ) by {
                    if x < before.len() {
                        assert(r@[x] == before[x]);
                        assert(key_le(before[x].key(), b@[y].key()));
                    } else if j < b@.len() {
                        assert(key_le(b@[j as int].key(), b@[y].key()));
                    }
                }
                assert forall|key: (int, int)|
                    #[trigger] r@.filter(has_key(key)) == a@.take(i as int).filter(has_key(key))
                        + b@.take(j + 1).filter(has_key(key)) by {
                    lemma_filter_take(b@, has_key(key), j as int);
                    lemma_push_filter(before, b@[j as int], key);
                    assert(before.filter(has_key(key)) == a@.take(i as int).filter(has_key(key))
                        + b@.take(j as int).filter(has_key(key)));
                }
            }
            j = j + 1;
        }
    }
    proof {
        assert(a@.take(a@.len() as int) =~= a@);
        assert(b@.take(b@.len() as int) =~= b@);
        assert forall|key: (int, int)|
            #[trigger] r@.filter(has_key(key)) == (a@ + b@).filter(has_key(key)) by {
            Seq::filter_distributes_over_add(a@, b@, has_key(key));
        }
    }
    r
}

/// Filtering with one packet more.
proof fn lemma_push_filter<'a>(s: Seq<Feed<'a>>, f: Feed<'a>, key: (int, int))
    ensures
        s.push(f).filter(has_key(key)) == if f.key() == key {
            s.filter(has_key(key)).push(f)
        } else {
            s.filter(has_key(key))
        },
{
    reveal(Seq::filter);
    assert(s.push(f).drop_last() =~= s);
}

/// Where no packet has a key, a filter for it keeps none.
proof fn lemma_no_key<'a>(s: Seq<Feed<'a>>, n: int, key: (int, int))
    requires
        0 <= n <= s.len(),
        forall|x: int| 0 <= x < n ==> (#[trigger] s[x]).key() != key,
    ensures
        s.take(n).filter(has_key(key)) == Seq::<Feed<'a>>::empty(),
    decreases n,
{
    if n > 0 {
        lemma_no_key(s, n - 1, key);
        lemma_filter_take(s, has_key(key), n - 1);
    } else {
        lemma_filter_none(s, has_key(key));
    }
}

/// Sort packets by their keys, keeping the order of those with the same key.
fn sort_feed<'a>(items: &[Feed<'a>]) -> (r: Vec<Feed<'a>>)
    ensures
        stably_sorted(r@, items@),
    decreases items@.len(),
{
    let n: usize = items.len();
    if n <= 1 {
        let mut r: Vec<Feed<'a>> = Vec::new();
        if n == 1 {
            r.push(items[0]);
        }
        assert(r@ =~= items@);
        return r;
    }
    let mid: usize = n / 2;
    let left: Vec<Feed<'a>> = sort_feed(&items[0..mid]);
    let right: Vec<Feed<'a>> = sort_feed(&items[mid..n]);
    let r: Vec<Feed<'a>> = merge(&left, &right);
    proof {
        let l = items@.subrange(0, mid as int);
        let h = items@.subrange(mid as int, n as int);
        assert(items@ =~= l + h);
        assert forall|key: (int, int)|
            #[trigger] r@.filter(has_key(key)) == items@.filter(has_key(key)) by {
            Seq::filter_distributes_over_add(l, h, has_key(key));
            Seq::filter_distributes_over_add(left@, right@, has_key(key));
            assert(left@.filter(has_key(key)) == l.filter(has_key(key)));
            assert(right@.filter(has_key(key)) == h.filter(has_key(key)));
        }
    }
    r
}

/// The window's packets in the order in which they go to the muxer: by time, video first at the
/// same time, and otherwise as they stand in the window.
pub fn merged_feed(window: &SaveWindow) -> (r: Vec<Feed<'_>>)
    ensures
        stably_sorted(r@, window_feed(window.video@, window_tracks(window.audio@))),
{
    let ghost audio = window_tracks(window.audio@);
    let ghost whole: Seq<Feed<'_>> = Seq::new(
        window.video@.len(),
        |i: int| Feed::Video(&window.video@[i]),
    );
    let mut items: Vec<Feed<'_>> = Vec::new();
    let mut i: usize = 0;
    while i < window.video.len()
        invariant
            i <= window.video@.len(),
            whole == Seq::<Feed<'_>>::new(
                window.video@.len(),
                |i: int| Feed::Video(&window.video@[i]),
            ),
            items@ == whole.take(i as int),
        decreases window.video@.len() - i,
    {
        items.push(Feed::Video(&window.video[i]));
        assert(items@ =~= whole.take(i + 1));
        i = i + 1;
    }
    assert(items@ =~= whole + tracks_feed(audio, 0));
    let mut t: usize = 0;
    while t < window.audio.len()
        invariant
            t <= window.audio@.len(),
            audio == window_tracks(window.audio@),
            items@ == whole + tracks_feed(audio, t as int),
        decreases window.audio@.len() - t,
    {
        let track: &Vec<EncodedAudioPacket> = &window.audio[t];
        let ghost before = items@;
        let ghost more: Seq<Feed<'_>> = track_feed(t as int, audio[t as int]);
        let mut k: usize = 0;
        assert(items@ =~= before + more.take(0));
        while k < track.len()
            invariant
                k <= track@.len(),
                t < window.audio@.len(),
                audio == window_tracks(window.audio@),
                track@ == audio[t as int],
                more == track_feed::<'_>(t as int, audio[t as int]),
                items@ == before + more.take(k as int),
            decreases track@.len() - k,
        {
            items.push(Feed::Audio(t, &track[k]));
            assert(items@ =~= before + more.take(k + 1));
            k = k + 1;
        }
        assert(more.take(more.len() as int) =~= more);
        assert(items@ =~= whole + tracks_feed(audio, t + 1));
        t = t + 1;
    }
    sort_feed(&items)
}

/// Law: there is only one way to put packets in order and keep the order of those with the same
/// key.
pub proof fn lemma_order_is_unique<'a>(a: Seq<Feed<'a>>, b: Seq<Feed<'a>>)
    requires
        in_order(a),
        in_order(b),
        forall|key: (int, int)| #[trigger] a.filter(has_key(key)) == b.filter(has_key(key)),
    ensures
        a == b,
    decreases a.len(),
{
    if a.len() == 0 {
        if b.len() > 0 {
            let key = b[0].key();
            lemma_filter_first(b, has_key(key));
            assert(a.take(0) =~= a);
            lemma_filter_none(a, has_key(key));
            assert(a.filter(has_key(key)) == b.filter(has_key(key)));
        }
        assert(a =~= b);
    } else {
        let key = a[0].key();
        lemma_filter_first(a, has_key(key));
        assert(a.filter(has_key(key)) == b.filter(has_key(key)));
        if b.len() == 0 {
            assert(b.take(0) =~= b);
            lemma_filter_none(b, has_key(key));
        }
        let i = crate::seqs::lemma_filter_item(b, has_key(key), 0);
        let low = b[0].key();
        lemma_filter_first(b, has_key(low));
        assert(a.filter(has_key(low)) == b.filter(has_key(low)));
        let j = crate::seqs::lemma_filter_item(a, has_key(low), 0);
        assert(key_le(low, key));
        assert(key_le(key, low));
        assert(low == key);
        assert(a.filter(has_key(key))[0] == a[0]);
        assert(b.filter(has_key(key))[0] == b[0]);
        let x = a.skip(1);
        let y = b.skip(1);
        assert forall|k: (int, int)| #[trigger] x.filter(has_key(k)) == y.filter(has_key(k)) by {
            lemma_filter_first(a, has_key(k));
            lemma_filter_first(b, has_key(k));
            assert(a.filter(has_key(k)) == b.filter(has_key(k)));
            if a[0].key() == k {
                assert(x.filter(has_key(k)) =~= a.filter(has_key(k)).skip(1));
                assert(y.filter(has_key(k)) =~= b.filter(has_key(k)).skip(1));
            }
        }
        lemma_order_is_unique(x, y);
        assert(a =~= seq![a[0]] + x);
        assert(b =~= seq![b[0]] + y);
    }
}

} // verus!
