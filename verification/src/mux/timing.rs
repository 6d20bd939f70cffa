//! When the fragments of a movie play.

use vstd::prelude::*;

use crate::constants::mux::{AUDIO_SAMPLE_DELTA, VIDEO_SAMPLE_DELTA};
use crate::mux::boxes::VIDEO_TRACK_ID;
use crate::mux::timeline::{sync_samples, FragmentView, MovieView};

verus! {

/// The number of samples of track `id` in the first `n` fragments.
pub open spec fn samples_before(fragments: Seq<FragmentView>, n: int, id: int) -> int
    decreases n,
{
    if n <= 0 {
        0
    } else if fragments[n - 1].track_id == id {
        samples_before(fragments, n - 1, id) + fragments[n - 1].samples.len()
    } else {
        samples_before(fragments, n - 1, id)
    }
}

/// Whether fragment `i` has the next number, and begins where the track's earlier fragments end:
/// at the track's `offset` and its samples so far, `delta` apart.
pub open spec fn follows_on(
    fragments: Seq<FragmentView>,
    i: int,
    id: int,
    offset: int,
    delta: int,
) -> bool {
    &&& fragments[i].base_decode_time == offset + samples_before(fragments, i, id) * delta
    &&& fragments[i].delta == delta
}

impl MovieView {
    /// Whether the fragments are numbered from one on, and each track's fragments follow on one
    /// another without a gap.
    #[verifier::opaque]
    pub open spec fn timed(self) -> bool {
        let n = self.fragments.len() as int;
        &&& self.sequence == n % 0x1_0000_0000
        &&& forall|i: int|
            0 <= i < n ==> (#[trigger] self.fragments[i]).sequence == (i + 1) % 0x1_0000_0000
        &&& samples_before(self.fragments, n, VIDEO_TRACK_ID as int) == self.video_written.len()
        &&& forall|i: int|
            0 <= i < n && (#[trigger] self.fragments[i]).track_id == VIDEO_TRACK_ID ==> follows_on(
                self.fragments,
                i,
                VIDEO_TRACK_ID as int,
                0,
                VIDEO_SAMPLE_DELTA as int,
            )
        &&& forall|t: int|
            0 <= t < self.audio.len() ==> samples_before(self.fragments, n, t + 2) == (
            #[trigger] self.audio[t]).written.len()
        &&& forall|i: int, t: int|
            0 <= i < n && 0 <= t < self.audio.len() && (#[trigger] self.fragments[i]).track_id == t
                + 2 ==> (#[trigger] self.audio[t]).initial_offset is Some && follows_on(
                self.fragments,
                i,
                t + 2,
                self.audio[t].initial_offset.unwrap(),
                AUDIO_SAMPLE_DELTA as int,
            )
    }
}

/// Earlier counts do not depend on a later fragment.
proof fn lemma_before_push(fragments: Seq<FragmentView>, f: FragmentView, n: int, id: int)
    requires
        n <= fragments.len(),
    ensures
        samples_before(fragments.push(f), n, id) == samples_before(fragments, n, id),
    decreases n,
{
    if n > 0 {
        lemma_before_push(fragments, f, n - 1, id);
    }
}

/// A movie without fragments is in time.
pub proof fn lemma_timed_new(m: MovieView)
    requires
        m.sequence == 0,
        m.fragments.len() == 0,
        m.video_written.len() == 0,
        forall|t: int| 0 <= t < m.audio.len() ==> (#[trigger] m.audio[t]).written.len() == 0,
    ensures
        m.timed(),
{
    reveal(MovieView::timed);
}

/// A movie whose fragments stay the same stays in time, if no track's offset changes.
pub proof fn lemma_timed_kept(m: MovieView, next: MovieView)
    requires
        m.timed(),
        next.fragments == m.fragments,
        next.sequence == m.sequence,
        next.video_written == m.video_written,
        next.audio.len() == m.audio.len(),
        forall|t: int|
            0 <= t < m.audio.len() ==> (#[trigger] next.audio[t]).written == m.audio[t].written && (
            m.audio[t].initial_offset is Some ==> next.audio[t].initial_offset
                == m.audio[t].initial_offset),
    ensures
        next.timed(),
{
    reveal(MovieView::timed);
    assert forall|t: int| 0 <= t < next.audio.len() implies samples_before(
        next.fragments,
        next.fragments.len() as int,
        t + 2,
    ) == (#[trigger] next.audio[t]).written.len() by {
        assert(m.audio[t].written.len() == next.audio[t].written.len());
    }
    assert forall|i: int, t: int|
        0 <= i < next.fragments.len() && 0 <= t < next.audio.len() && (
        #[trigger] next.fragments[i]).track_id == t + 2 implies (
    #[trigger] next.audio[t]).initial_offset is Some && follows_on(
        next.fragments,
        i,
        t + 2,
        next.audio[t].initial_offset.unwrap(),
        AUDIO_SAMPLE_DELTA as int,
    ) by {
        assert(m.audio[t].initial_offset is Some);
    }
}

/// Writing the video fragment keeps the movie in time.
pub proof fn lemma_timed_video(m: MovieView)
    requires
        m.timed(),
    ensures
        m.flush_video().timed(),
{
    reveal(MovieView::timed);
    let next = m.flush_video();
    if m.video_pending.len() > 0 {
        let n = m.fragments.len() as int;
        let f = next.fragments.last();
        lemma_before_push(m.fragments, f, n, VIDEO_TRACK_ID as int);
        assert forall|i: int|
            0 <= i < next.fragments.len() && (#[trigger] next.fragments[i]).track_id
                == VIDEO_TRACK_ID implies follows_on(
            next.fragments,
            i,
            VIDEO_TRACK_ID as int,
            0,
            VIDEO_SAMPLE_DELTA as int,
        ) by {
            lemma_before_push(m.fragments, f, i, VIDEO_TRACK_ID as int);
            if i < n {
                assert(next.fragments[i] == m.fragments[i]);
            }
        }
        assert forall|t: int| 0 <= t < next.audio.len() implies samples_before(
            next.fragments,
            n + 1,
            t + 2,
        ) == (#[trigger] next.audio[t]).written.len() by {
            lemma_before_push(m.fragments, f, n, t + 2);
            assert(m.audio[t] == next.audio[t]);
        }
        assert forall|i: int, t: int|
            0 <= i < next.fragments.len() && 0 <= t < next.audio.len() && (
            #[trigger] next.fragments[i]).track_id == t + 2 implies (
        #[trigger] next.audio[t]).initial_offset is Some && follows_on(
            next.fragments,
            i,
            t + 2,
            next.audio[t].initial_offset.unwrap(),
            AUDIO_SAMPLE_DELTA as int,
        ) by {
            assert(i < n);
            assert(next.fragments[i] == m.fragments[i]);
            assert(m.audio[t] == next.audio[t]);
            lemma_before_push(m.fragments, f, i, t + 2);
        }
    }
}

/// Writing a track's fragment keeps the movie in time.
pub proof fn lemma_timed_audio(m: MovieView, t: int)
    requires
        m.timed(),
        0 <= t < m.audio.len(),
        m.audio[t].track_id == t + 2,
        m.audio[t].pending.len() > 0 ==> m.audio[t].initial_offset is Some,
    ensures
        m.flush_audio(t).timed(),
{
    reveal(MovieView::timed);
    let next = m.flush_audio(t);
    if m.audio[t].pending.len() > 0 {
        let n = m.fragments.len() as int;
        let f = next.fragments.last();
        lemma_before_push(m.fragments, f, n, VIDEO_TRACK_ID as int);
        assert(sync_samples(m.audio[t].pending).len() == m.audio[t].pending.len());
        assert forall|i: int|
            0 <= i < next.fragments.len() && (#[trigger] next.fragments[i]).track_id
                == VIDEO_TRACK_ID implies follows_on(
            next.fragments,
            i,
            VIDEO_TRACK_ID as int,
            0,
            VIDEO_SAMPLE_DELTA as int,
        ) by {
            assert(i < n);
            lemma_before_push(m.fragments, f, i, VIDEO_TRACK_ID as int);
            assert(next.fragments[i] == m.fragments[i]);
        }
        assert forall|u: int| 0 <= u < next.audio.len() implies samples_before(
            next.fragments,
            n + 1,
            u + 2,
        ) == (#[trigger] next.audio[u]).written.len() by {
            lemma_before_push(m.fragments, f, n, u + 2);
            assert(samples_before(m.fragments, n, u + 2) == m.audio[u].written.len());
        }
        assert forall|i: int, u: int|
            0 <= i < next.fragments.len() && 0 <= u < next.audio.len() && (
            #[trigger] next.fragments[i]).track_id == u + 2 implies (
        #[trigger] next.audio[u]).initial_offset is Some && follows_on(
            next.fragments,
            i,
            u + 2,
            next.audio[u].initial_offset.unwrap(),
            AUDIO_SAMPLE_DELTA as int,
        ) by {
            lemma_before_push(m.fragments, f, i, u + 2);
            assert(next.audio[u].initial_offset == m.audio[u].initial_offset);
            if i < n {
                assert(next.fragments[i] == m.fragments[i]);
                assert(m.audio[u].initial_offset is Some);
            } else {
                assert(u == t);
                assert(samples_before(m.fragments, n, t + 2) == m.audio[t].written.len());
            }
        }
    }
}

/// Law: the fragments of a movie are numbered one after the other, and those of the video track
/// follow on one another from zero.
pub proof fn lemma_video_has_no_gaps(m: MovieView, i: int)
    requires
        m.timed(),
        0 <= i < m.fragments.len(),
    ensures
        m.fragments[i].sequence == (i + 1) % 0x1_0000_0000,
        m.fragments[i].track_id == VIDEO_TRACK_ID ==> follows_on(
            m.fragments,
            i,
            VIDEO_TRACK_ID as int,
            0,
            VIDEO_SAMPLE_DELTA as int,
        ),
{
    reveal(MovieView::timed);
}

/// Law: the fragments of an audio track follow on one another from the track's offset.
pub proof fn lemma_audio_has_no_gaps(m: MovieView, i: int, t: int)
    requires
        m.timed(),
        0 <= i < m.fragments.len(),
        0 <= t < m.audio.len(),
        m.fragments[i].track_id == t + 2,
    ensures
        m.audio[t].initial_offset is Some,
        follows_on(
            m.fragments,
            i,
            t + 2,
            m.audio[t].initial_offset.unwrap(),
            AUDIO_SAMPLE_DELTA as int,
        ),
{
    reveal(MovieView::timed);
}

} // verus!
