//! Where the samples of a movie lie in its stream.

use vstd::prelude::*;

use crate::mux::boxes::{box_bytes, joined, lemma_box_len};
use crate::mux::fourcc;
use crate::mux::fragment::{
    lemma_data_offset_points_at_payload, mdat_bytes, moof_bytes, moof_len, payloads, SampleView,
};
use crate::mux::nal::avcc_sample;
use crate::mux::tables::{stored_size, IndexView};
use crate::mux::timeline::{
    gap_units, head_silence, lemma_flush_tracks_grows, lemma_flush_video_ok, lemma_ok_flush_audio,
    lemma_place_ok, lemma_push_sample_ok, lemma_release_grows, lemma_release_ok, FragmentView,
    MovieView, AUDIO_FRAGMENT_AUS, MAX_STREAM_LEN,
};

use crate::mux::timing::{lemma_timed_audio, lemma_timed_kept, lemma_timed_video};

verus! {

/// The sum of the first `n` numbers.
pub open spec fn total(s: Seq<int>, n: int) -> int
    decreases n,
{
    if n <= 0 {
        0
    } else {
        total(s, n - 1) + s[n - 1]
    }
}

/// The number of samples in each chunk.
pub open spec fn chunk_counts(chunks: Seq<(int, int)>) -> Seq<int> {
    chunks.map_values(|c: (int, int)| c.1)
}

/// The number of samples before chunk `c`.
pub open spec fn first_sample(chunks: Seq<(int, int)>, c: int) -> int {
    total(chunk_counts(chunks), c)
}

/// Where a reader of an index looks for sample `k` of chunk `c`: after the chunk's offset and the
/// sizes of the chunk's samples before it.
pub open spec fn looked_up(index: IndexView, c: int, k: int) -> int {
    let first = first_sample(index.chunks, c);
    index.chunks[c].0 + total(index.sizes, first + k) - total(index.sizes, first)
}

/// The length of each sample.
pub open spec fn lengths(samples: Seq<SampleView>) -> Seq<int> {
    samples.map_values(|s: SampleView| s.0.len() as int)
}

/// Where sample `k` of chunk `c` lies.
pub open spec fn sample_start(chunks: Seq<(int, int)>, written: Seq<SampleView>, c: int, k: int) -> int {
    let first = first_sample(chunks, c);
    chunks[c].0 + total(lengths(written), first + k) - total(lengths(written), first)
}

/// Whether `bytes` lie in `stream` from `at` on.
pub open spec fn lies_at(stream: Seq<u8>, at: int, bytes: Seq<u8>) -> bool {
    &&& 0 <= at
    &&& at + bytes.len() <= stream.len()
    &&& stream.subrange(at, at + bytes.len()) == bytes
}

/// Whether sample `k` of chunk `c` lies in the stream where its chunk says.
pub open spec fn sample_in_place(
    chunks: Seq<(int, int)>,
    written: Seq<SampleView>,
    stream: Seq<u8>,
    c: int,
    k: int,
) -> bool {
    let i = first_sample(chunks, c) + k;
    &&& 0 <= i < written.len()
    &&& lies_at(stream, sample_start(chunks, written, c, k), written[i].0)
}

/// Whether an index describes what was written: its sizes and flags are the samples', its chunks
/// hold them all, and each lies in the stream where its chunk says, at `from` or later.
pub open spec fn describes(
    index: IndexView,
    written: Seq<SampleView>,
    stream: Seq<u8>,
    from: int,
) -> bool {
    &&& index.sizes == written.map_values(|s: SampleView| stored_size(s))
    &&& index.sync == written.map_values(|s: SampleView| s.1)
    &&& first_sample(index.chunks, index.chunks.len() as int) == written.len()
    &&& forall|c: int|
        0 <= c < index.chunks.len() ==> from <= (#[trigger] index.chunks[c]).0 && 0
            <= index.chunks[c].1
    &&& forall|c: int, k: int|
        0 <= c < index.chunks.len() && 0 <= k < index.chunks[c].1 ==> #[trigger] sample_in_place(
            index.chunks,
            written,
            stream,
            c,
            k,
        )
}

impl MovieView {
    /// Whether every track's index describes what was written of the track, and the fragments are
    /// in time.
    pub open spec fn indexed(self) -> bool {
        &&& self.timed()
        &&& describes(
            self.video_index,
            self.video_written,
            self.stream,
            self.head.len() as int,
        )
        &&& forall|t: int|
            0 <= t < self.audio.len() ==> describes(
                (#[trigger] self.audio[t]).index,
                self.audio[t].written,
                self.stream,
                self.head.len() as int,
            )
    }
}

/// An empty index describes that nothing was written.
pub proof fn lemma_nothing_described(stream: Seq<u8>, from: int)
    ensures
        describes(IndexView::empty(), Seq::empty(), stream, from),
{
    let none: Seq<SampleView> = Seq::empty();
    assert(IndexView::empty().sizes =~= none.map_values(|s: SampleView| stored_size(s)));
    assert(IndexView::empty().sync =~= none.map_values(|s: SampleView| s.1));
}

/// A sum depends on its terms alone.
proof fn lemma_total_prefix(a: Seq<int>, b: Seq<int>, n: int)
    requires
        n <= a.len(),
        n <= b.len(),
        forall|i: int| 0 <= i < n ==> a[i] == b[i],
    ensures
        total(a, n) == total(b, n),
    decreases n,
{
    if n > 0 {
        lemma_total_prefix(a, b, n - 1);
    }
}

/// The sum of a longer sequence goes on from that of the first part.
proof fn lemma_total_concat(a: Seq<int>, b: Seq<int>, n: int)
    requires
        0 <= n <= b.len(),
    ensures
        total(a + b, a.len() + n) == total(a, a.len() as int) + total(b, n),
    decreases n,
{
    if n > 0 {
        lemma_total_concat(a, b, n - 1);
        assert((a + b)[a.len() + n - 1] == b[n - 1]);
    } else {
        lemma_total_prefix(a + b, a, a.len() as int);
    }
}

/// Sums of non-negative numbers grow.
proof fn lemma_total_grows(s: Seq<int>, a: int, b: int)
    requires
        0 <= a <= b <= s.len(),
        forall|i: int| 0 <= i < s.len() ==> 0 <= s[i],
    ensures
        0 <= total(s, a) <= total(s, b),
    decreases b,
{
    if a < b {
        lemma_total_grows(s, a, b - 1);
    } else if b > 0 {
        lemma_total_grows(s, a - 1, b - 1);
    }
}

/// In the payload of a fragment, each sample lies after the samples before it.
proof fn lemma_payload_places(samples: Seq<SampleView>, k: int)
    requires
        0 <= k < samples.len(),
    ensures
        joined(payloads(samples)).len() == total(lengths(samples), samples.len() as int),
        lies_at(joined(payloads(samples)), total(lengths(samples), k), samples[k].0),
    decreases samples.len(),
{
    let n = samples.len() as int;
    let init = samples.drop_last();
    let last = samples[n - 1].0;
    assert(payloads(samples).drop_last() =~= payloads(init));
    assert(joined(payloads(samples)) == joined(payloads(init)) + last);
    lemma_total_prefix(lengths(samples), lengths(init), n - 1);
    if n == 1 {
        assert(joined(payloads(init)) =~= Seq::empty());
        assert(joined(payloads(samples)) =~= last);
        assert(last.subrange(0, last.len() as int) =~= last);
    } else if k < n - 1 {
        lemma_payload_places(init, k);
        lemma_total_prefix(lengths(samples), lengths(init), k);
        let at = total(lengths(samples), k);
        assert(joined(payloads(samples)).subrange(at, at + samples[k].0.len()) =~= joined(
            payloads(init),
        ).subrange(at, at + samples[k].0.len()));
    } else {
        lemma_payload_places(init, 0);
        let at = total(lengths(samples), k);
        assert(joined(payloads(samples)).subrange(at, at + last.len()) =~= last);
    }
}

/// In a fragment, the samples' bytes lie behind the `moof` box and the header of the `mdat` box.
proof fn lemma_fragment_places(f: FragmentView, k: int)
    requires
        0 <= k < f.samples.len(),
    ensures
        lies_at(
            f.bytes(),
            moof_len(f.samples.len() as int) + 8 + total(lengths(f.samples), k),
            f.samples[k].0,
        ),
{
    let n = f.samples.len() as int;
    let moof = moof_bytes(f.sequence, f.track_id, f.base_decode_time, f.delta, f.samples);
    let mdat = mdat_bytes(f.samples);
    let payload = joined(payloads(f.samples));
    reveal(FragmentView::bytes);
    reveal(mdat_bytes);
    reveal(box_bytes);
    lemma_data_offset_points_at_payload(
        f.sequence,
        f.track_id,
        f.base_decode_time,
        f.delta,
        f.samples,
    );
    assert(moof.len() == moof_len(n));
    lemma_box_len(fourcc::MDAT@, payload);
    lemma_payload_places(f.samples, k);
    assert(mdat.len() == payload.len() + 8);
    assert(mdat.subrange(8, mdat.len() as int) =~= payload);
    let at = total(lengths(f.samples), k);
    let len = f.samples[k].0.len() as int;
    let front = moof + mdat.subrange(0, 8);
    assert(f.bytes() =~= front + payload);
    assert(f.bytes().subrange(moof_len(n) + 8 + at, moof_len(n) + 8 + at + len)
        =~= payload.subrange(at, at + len));
}

/// What lies in a stream lies in every stream that goes on from it.
proof fn lemma_lies_in_longer(stream: Seq<u8>, more: Seq<u8>, at: int, bytes: Seq<u8>)
    requires
        lies_at(stream, at, bytes),
    ensures
        lies_at(stream + more, at, bytes),
{
    assert((stream + more).subrange(at, at + bytes.len()) =~= stream.subrange(
        at,
        at + bytes.len(),
    ));
}

/// An index stays right while the stream goes on.
proof fn lemma_describes_longer(
    index: IndexView,
    written: Seq<SampleView>,
    stream: Seq<u8>,
    from: int,
    more: Seq<u8>,
)
    requires
        describes(index, written, stream, from),
    ensures
        describes(index, written, stream + more, from),
{
    assert forall|c: int, k: int|
        0 <= c < index.chunks.len() && 0 <= k < index.chunks[c].1 implies #[trigger] sample_in_place(
        index.chunks,
        written,
        stream + more,
        c,
        k,
    ) by {
        assert(sample_in_place(index.chunks, written, stream, c, k));
        let i = first_sample(index.chunks, c) + k;
        lemma_lies_in_longer(
            stream,
            more,
            sample_start(index.chunks, written, c, k),
            written[i].0,
        );
    }
}

/// An index is right after one more fragment.
proof fn lemma_describes_fragment(
    index: IndexView,
    written: Seq<SampleView>,
    stream: Seq<u8>,
    from: int,
    f: FragmentView,
)
    requires
        describes(index, written, stream, from),
        from <= stream.len(),
        f.samples.len() <= u32::MAX,
    ensures
        describes(
            index.with_chunk(
                stream.len() + moof_len(f.samples.len() as int) + 8,
                f.samples,
            ),
            written + f.samples,
            stream + f.bytes(),
            from,
        ),
{
    let n = f.samples.len() as int;
    let offset = stream.len() + moof_len(n) + 8;
    let next = index.with_chunk(offset, f.samples);
    let all = written + f.samples;
    let longer = stream + f.bytes();
    let chunks = index.chunks.len() as int;
    assert(next.sizes =~= all.map_values(|s: SampleView| stored_size(s)));
    assert(next.sync =~= all.map_values(|s: SampleView| s.1));
    assert(next.chunks[chunks] == (offset, n));
    lemma_total_prefix(chunk_counts(next.chunks), chunk_counts(index.chunks), chunks);
    lemma_describes_longer(index, written, stream, from, f.bytes());
    assert(lengths(all) =~= lengths(written) + lengths(f.samples));
    assert forall|c: int| 0 <= c < next.chunks.len() implies from <= (
    #[trigger] next.chunks[c]).0 && 0 <= next.chunks[c].1 by {
        if c < chunks {
            assert(next.chunks[c] == index.chunks[c]);
        }
    }
    assert forall|c: int, k: int|
        0 <= c < next.chunks.len() && 0 <= k < next.chunks[c].1 implies #[trigger] sample_in_place(
        next.chunks,
        all,
        longer,
        c,
        k,
    ) by {
        lemma_total_prefix(chunk_counts(next.chunks), chunk_counts(index.chunks), c);
        let first = first_sample(next.chunks, c);
        if c < chunks {
            assert(next.chunks[c] == index.chunks[c]);
            assert(sample_in_place(index.chunks, written, longer, c, k));
            lemma_first_sample_grows(index.chunks, c);
            lemma_total_prefix(lengths(all), lengths(written), first + k);
            lemma_total_prefix(lengths(all), lengths(written), first);
        } else {
            assert(first == written.len());
            lemma_total_concat(lengths(written), lengths(f.samples), k);
            lemma_total_concat(lengths(written), lengths(f.samples), 0);
            lemma_fragment_places(f, k);
            let at = moof_len(n) + 8 + total(lengths(f.samples), k);
            let len = f.samples[k].0.len() as int;
            assert(all[first + k] == f.samples[k]);
            assert(sample_start(next.chunks, all, c, k) == stream.len() + at);
            assert(longer.subrange(stream.len() + at, stream.len() + at + len)
                =~= f.bytes().subrange(at, at + len));
        }
    }
}

/// The number of samples before a chunk is not negative.
proof fn lemma_first_sample_grows(chunks: Seq<(int, int)>, c: int)
    requires
        0 <= c <= chunks.len(),
        forall|i: int| 0 <= i < chunks.len() ==> 0 <= (#[trigger] chunks[i]).1,
    ensures
        0 <= first_sample(chunks, c),
{
    assert forall|i: int| 0 <= i < chunk_counts(chunks).len() implies 0 <= chunk_counts(
        chunks,
    )[i] by {
        assert(0 <= chunks[i].1);
    }
    lemma_total_grows(chunk_counts(chunks), 0, c);
}

impl MovieView {
    /// Whether every track's index is right, and no track holds more than one fragment's samples.
    spec fn in_order(self) -> bool {
        &&& self.indexed()
        &&& self.head.len() <= self.stream.len()
        &&& 0 <= self.frames <= u32::MAX
        &&& self.video_pending.len() <= u32::MAX
        &&& forall|t: int|
            0 <= t < self.audio.len() ==> (#[trigger] self.audio[t]).pending.len()
                <= AUDIO_FRAGMENT_AUS && self.audio[t].track_id == t + 2 && (
            self.audio[t].initial_offset is None ==> self.audio[t].pending.len() == 0)
    }
}

/// Writing the video fragment keeps every index right.
proof fn lemma_flush_video_indexed(m: MovieView)
    requires
        m.in_order(),
    ensures
        m.flush_video().in_order(),
        m.flush_video().audio.len() == m.audio.len(),
{
    let next = m.flush_video();
    lemma_timed_video(m);
    if m.video_pending.len() > 0 {
        let f = next.fragments.last();
        lemma_describes_fragment(m.video_index, m.video_written, m.stream, m.head.len() as int, f);
        assert forall|t: int| 0 <= t < next.audio.len() implies describes(
            (#[trigger] next.audio[t]).index,
            next.audio[t].written,
            next.stream,
            next.head.len() as int,
        ) by {
            lemma_describes_longer(m.audio[t].index, m.audio[t].written, m.stream, m.head.len() as int, f.bytes());
        }
    }
}

/// Writing a track's fragment keeps every index right.
proof fn lemma_flush_audio_indexed(m: MovieView, t: int)
    requires
        m.in_order(),
        0 <= t < m.audio.len(),
    ensures
        m.flush_audio(t).in_order(),
        m.flush_audio(t).audio.len() == m.audio.len(),
        m.flush_audio(t).audio[t].pending.len() == 0,
{
    let next = m.flush_audio(t);
    let track = m.audio[t];
    lemma_timed_audio(m, t);
    if track.pending.len() > 0 {
        let f = next.fragments.last();
        assert(f.samples.len() == track.pending.len());
        lemma_describes_fragment(track.index, track.written, m.stream, m.head.len() as int, f);
        lemma_describes_longer(m.video_index, m.video_written, m.stream, m.head.len() as int, f.bytes());
        assert forall|u: int| 0 <= u < next.audio.len() implies describes(
            (#[trigger] next.audio[u]).index,
            next.audio[u].written,
            next.stream,
            next.head.len() as int,
        ) by {
            if u != t {
                lemma_describes_longer(m.audio[u].index, m.audio[u].written, m.stream, m.head.len() as int, f.bytes());
            }
        }
    }
}

/// Adding a unit keeps every index right.
proof fn lemma_push_unit_indexed(m: MovieView, t: int, unit: Seq<u8>)
    requires
        m.in_order(),
        0 <= t < m.audio.len(),
        m.audio[t].pending.len() < AUDIO_FRAGMENT_AUS,
        m.audio[t].initial_offset is Some,
    ensures
        m.push_unit(t, unit).in_order(),
        m.push_unit(t, unit).audio.len() == m.audio.len(),
        m.push_unit(t, unit).audio[t].initial_offset is Some,
        m.push_unit(t, unit).audio[t].pending.len() < AUDIO_FRAGMENT_AUS,
{
    let next = m.buffer_unit(t, unit);
    lemma_timed_kept(m, next);
    assert forall|u: int| 0 <= u < next.audio.len() implies describes(
        (#[trigger] next.audio[u]).index,
        next.audio[u].written,
        next.stream,
        next.head.len() as int,
    ) && next.audio[u].pending.len() <= AUDIO_FRAGMENT_AUS && next.audio[u].track_id == u + 2 && (
    next.audio[u].initial_offset is None ==> next.audio[u].pending.len() == 0) by {
        assert(describes(m.audio[u].index, m.audio[u].written, m.stream, m.head.len() as int));
    }
    if next.audio[t].pending.len() >= AUDIO_FRAGMENT_AUS {
        lemma_flush_audio_indexed(next, t);
    }
}

/// Adding silence keeps every index right.
proof fn lemma_silence_indexed(m: MovieView, t: int, n: int)
    requires
        m.in_order(),
        0 <= t < m.audio.len(),
        m.audio[t].pending.len() < AUDIO_FRAGMENT_AUS,
        m.audio[t].initial_offset is Some,
    ensures
        m.push_silence(t, n).in_order(),
        m.push_silence(t, n).audio[t].initial_offset is Some,
        m.push_silence(t, n).audio.len() == m.audio.len(),
        m.push_silence(t, n).audio[t].pending.len() < AUDIO_FRAGMENT_AUS,
    decreases n,
{
    if n > 0 {
        lemma_silence_indexed(m, t, n - 1);
        let before = m.push_silence(t, n - 1);
        lemma_push_unit_indexed(before, t, before.audio[t].config.silent_au);
    }
}

/// Placing a unit keeps every index right.
proof fn lemma_place_indexed(m: MovieView, t: int, origin: int, pts: int, unit: Seq<u8>)
    requires
        m.in_order(),
        0 <= t < m.audio.len(),
        m.audio[t].pending.len() < AUDIO_FRAGMENT_AUS,
    ensures
        m.place_audio(t, origin, pts, unit).in_order(),
        m.place_audio(t, origin, pts, unit).audio.len() == m.audio.len(),
        m.place_audio(t, origin, pts, unit).audio[t].pending.len() < AUDIO_FRAGMENT_AUS,
{
    let track = m.audio[t];
    if track.initial_offset is Some {
        lemma_push_unit_indexed(m, t, unit);
    } else if pts >= origin {
        let gap = gap_units(pts, origin);
        let silence = head_silence(gap, track.config.silent_au.len() > 0);
        let started = m.with_offset(t, gap - silence * crate::constants::mux::AUDIO_SAMPLE_DELTA);
        assert forall|u: int| 0 <= u < started.audio.len() implies describes(
            (#[trigger] started.audio[u]).index,
            started.audio[u].written,
            started.stream,
            started.head.len() as int,
        ) && started.audio[u].pending.len() <= AUDIO_FRAGMENT_AUS && started.audio[u].track_id == u
            + 2 && (started.audio[u].initial_offset is None ==> started.audio[u].pending.len()
            == 0) by {
            assert(describes(m.audio[u].index, m.audio[u].written, m.stream, m.head.len() as int));
        }
        lemma_timed_kept(m, started);
        lemma_silence_indexed(started, t, silence);
        lemma_push_unit_indexed(started.push_silence(t, silence), t, unit);
    }
}

/// Placing units keeps every index right.
proof fn lemma_place_units_indexed(
    m: MovieView,
    t: int,
    origin: int,
    units: Seq<(int, Seq<u8>)>,
    n: int,
)
    requires
        m.in_order(),
        0 <= t < m.audio.len(),
        m.audio[t].pending.len() < AUDIO_FRAGMENT_AUS,
    ensures
        m.place_units(t, origin, units, n).in_order(),
        m.place_units(t, origin, units, n).audio.len() == m.audio.len(),
        m.place_units(t, origin, units, n).audio[t].pending.len() < AUDIO_FRAGMENT_AUS,
    decreases n,
{
    if n > 0 {
        lemma_place_units_indexed(m, t, origin, units, n - 1);
        lemma_place_indexed(
            m.place_units(t, origin, units, n - 1),
            t,
            origin,
            units[n - 1].0,
            units[n - 1].1,
        );
    }
}

/// A movie between packets whose indexes are right is in order.
proof fn lemma_in_order(m: MovieView)
    requires
        m.ok(),
        m.indexed(),
    ensures
        m.in_order(),
        forall|t: int|
            0 <= t < m.audio.len() ==> (#[trigger] m.audio[t]).pending.len() < AUDIO_FRAGMENT_AUS,
{
    assert forall|t: int| 0 <= t < m.audio.len() implies (#[trigger] m.audio[t]).pending.len()
        < AUDIO_FRAGMENT_AUS && m.audio[t].track_id == t + 2 && (m.audio[t].initial_offset is None
        ==> m.audio[t].pending.len() == 0) by {
        assert(m.audio[t].ok(m.stream.len() as int));
    }
    assert(m.frames >= 0) by (nonlinear_arith)
        requires
            0 <= m.frames * 1000,
    ;
    assert(m.frames <= u32::MAX) by (nonlinear_arith)
        requires
            m.frames * 1000 <= u32::MAX,
    ;
}

/// Placing the units that were held back keeps every index right.
proof fn lemma_release_indexed(m: MovieView, origin: int, n: int)
    requires
        m.ok(),
        m.indexed(),
        n <= m.audio.len(),
        m.can_release(origin, n),
        m.release_held(origin, n).stream.len() <= MAX_STREAM_LEN,
    ensures
        m.release_held(origin, n).indexed(),
    decreases n,
{
    if n > 0 {
        lemma_release_grows(m, origin, n - 1, n);
        lemma_release_indexed(m, origin, n - 1);
        lemma_release_ok(m, origin, n - 1);
        let before = m.release_held(origin, n - 1);
        let held = before.audio[n - 1].prebuffer;
        let base = before.without_prebuffer(n - 1);
        lemma_in_order(before);
        assert forall|u: int| 0 <= u < base.audio.len() implies describes(
            (#[trigger] base.audio[u]).index,
            base.audio[u].written,
            base.stream,
            base.head.len() as int,
        ) && base.audio[u].pending.len() < AUDIO_FRAGMENT_AUS && base.audio[u].track_id == u + 2 && (
        base.audio[u].initial_offset is None ==> base.audio[u].pending.len() == 0) by {
            assert(describes(before.audio[u].index, before.audio[u].written, before.stream, before.head.len() as int));
        }
        lemma_timed_kept(before, base);
        lemma_place_units_indexed(base, n - 1, origin, held, held.len() as int);
    }
}

/// Taking in a video packet keeps every index right.
pub proof fn lemma_write_video_indexed(m: MovieView, data: Seq<u8>, pts: int, is_keyframe: bool)
    requires
        m.ok(),
        m.indexed(),
        m.can_write_video(data, pts),
        m.write_video(data, pts, is_keyframe).stream.len() <= MAX_STREAM_LEN,
    ensures
        m.write_video(data, pts, is_keyframe).ok(),
        m.write_video(data, pts, is_keyframe).indexed(),
{
    let sample = (avcc_sample(data), is_keyframe);
    if sample.0.len() > 0 {
        if m.origin is None {
            let started = MovieView { origin: Some(pts), ..m };
            let n = m.audio.len() as int;
            let released = started.release_held(pts, n);
            assert(started.ok()) by {
                assert forall|t: int| 0 <= t < started.audio.len() implies (
                #[trigger] started.audio[t]).track_id == t + 2 && started.audio[t].ok(
                    started.stream.len() as int,
                ) by {
                    assert(m.audio[t].ok(m.stream.len() as int));
                }
            }
            assert(started.indexed()) by {
                lemma_timed_kept(m, started);
                assert forall|t: int| 0 <= t < started.audio.len() implies describes(
                    (#[trigger] started.audio[t]).index,
                    started.audio[t].written,
                    started.stream,
                    started.head.len() as int,
                ) by {
                    assert(describes(m.audio[t].index, m.audio[t].written, m.stream, m.head.len() as int));
                }
            }
            lemma_push_sample_grows(released, sample);
            lemma_release_ok(started, pts, n);
            lemma_release_indexed(started, pts, n);
            lemma_push_sample_indexed(released, sample);
        } else {
            lemma_push_sample_indexed(m, sample);
        }
    }
}

/// Adding a video sample makes no shorter a stream.
pub proof fn lemma_push_sample_grows(m: MovieView, sample: SampleView)
    ensures
        m.stream.len() <= m.push_sample(sample).stream.len(),
{
}

/// Adding a video sample keeps every index right.
proof fn lemma_push_sample_indexed(m: MovieView, sample: SampleView)
    requires
        m.ok(),
        m.indexed(),
        m.push_sample(sample).stream.len() <= MAX_STREAM_LEN,
    ensures
        m.push_sample(sample).ok(),
        m.push_sample(sample).indexed(),
{
    lemma_push_sample_ok(m, sample);
    lemma_in_order(m);
    let next = MovieView { video_pending: m.video_pending.push(sample), ..m };
    lemma_timed_kept(m, next);
    assert forall|t: int| 0 <= t < next.audio.len() implies describes(
        (#[trigger] next.audio[t]).index,
        next.audio[t].written,
        next.stream,
        next.head.len() as int,
    ) && next.audio[t].pending.len() <= AUDIO_FRAGMENT_AUS && next.audio[t].track_id == t + 2 && (
    next.audio[t].initial_offset is None ==> next.audio[t].pending.len() == 0) by {
        assert(describes(m.audio[t].index, m.audio[t].written, m.stream, m.head.len() as int));
    }
    if next.video_pending.len() >= m.frames {
        lemma_flush_video_indexed(next);
    }
}

/// Taking in an audio packet keeps every index right.
pub proof fn lemma_write_audio_indexed(m: MovieView, t: int, pts: int, unit: Seq<u8>)
    requires
        m.ok(),
        m.indexed(),
        0 <= t,
        m.can_write_audio(t, pts),
        m.write_audio(t, pts, unit).stream.len() <= MAX_STREAM_LEN,
    ensures
        m.write_audio(t, pts, unit).ok(),
        m.write_audio(t, pts, unit).indexed(),
{
    if t < m.audio.len() {
        lemma_in_order(m);
        match m.origin {
            None => {
                let next = m.write_audio(t, pts, unit);
                lemma_timed_kept(m, next);
                assert forall|u: int| 0 <= u < next.audio.len() implies (
                #[trigger] next.audio[u]).track_id == u + 2 && next.audio[u].ok(
                    next.stream.len() as int,
                ) && describes(next.audio[u].index, next.audio[u].written, next.stream, next.head.len() as int) by {
                    assert(m.audio[u].ok(m.stream.len() as int));
                    assert(describes(m.audio[u].index, m.audio[u].written, m.stream, m.head.len() as int));
                }
            },
            Some(origin) => {
                lemma_place_ok(m, t, origin, pts, unit);
                lemma_place_indexed(m, t, origin, pts, unit);
            },
        }
    }
}

/// Writing the current fragments of the first tracks keeps every index right.
pub proof fn lemma_flush_tracks_indexed(m: MovieView, n: int)
    requires
        m.ok(),
        m.indexed(),
        n <= m.audio.len(),
        m.flush_tracks(n).stream.len() <= MAX_STREAM_LEN,
    ensures
        m.flush_tracks(n).ok(),
        m.flush_tracks(n).indexed(),
        m.flush_tracks(n).audio.len() == m.audio.len(),
        m.flush_tracks(n).video_index == m.video_index,
        m.flush_tracks(n).video_written == m.video_written,
    decreases n,
{
    if n > 0 {
        lemma_flush_tracks_grows(m, n - 1, n);
        lemma_flush_tracks_indexed(m, n - 1);
        let before = m.flush_tracks(n - 1);
        lemma_ok_flush_audio(before, n - 1);
        lemma_in_order(before);
        lemma_flush_audio_indexed(before, n - 1);
    }
}

/// Writing everything that is still held keeps every index right.
pub proof fn lemma_flush_all_indexed(m: MovieView)
    requires
        m.ok(),
        m.indexed(),
        m.flush_all().stream.len() <= MAX_STREAM_LEN,
    ensures
        m.flush_video().ok(),
        m.flush_video().indexed(),
        m.flush_all().ok(),
        m.flush_all().indexed(),
        m.flush_all().audio.len() == m.audio.len(),
{
    let n = m.audio.len() as int;
    let base = m.without_samples();
    assert(base.ok()) by {
        assert forall|t: int| 0 <= t < base.audio.len() implies (
        #[trigger] base.audio[t]).track_id == t + 2 && base.audio[t].ok(
            base.stream.len() as int,
        ) by {
            assert(m.audio[t].ok(m.stream.len() as int));
        }
    }
    lemma_in_order(m);
    lemma_flush_tracks_grows(m.flush_video(), 0, n);
    lemma_flush_video_ok(m);
    lemma_flush_video_indexed(m);
    lemma_flush_tracks_indexed(m.flush_video(), n);
}

/// Law: a reader that follows a track's index finds every sample. For sample `k` of chunk `c`, the
/// bytes that the chunk offsets and the sample sizes point at are those that were written.
pub proof fn lemma_index_finds_samples(
    index: IndexView,
    written: Seq<SampleView>,
    stream: Seq<u8>,
    from: int,
    c: int,
    k: int,
)
    requires
        describes(index, written, stream, from),
        forall|i: int| 0 <= i < written.len() ==> (#[trigger] written[i]).0.len() <= u32::MAX,
        0 <= c < index.chunks.len(),
        0 <= k < index.chunks[c].1,
    ensures
        ({
            let i = first_sample(index.chunks, c) + k;
            &&& 0 <= i < written.len()
            &&& index.sizes[i] == written[i].0.len()
            &&& index.sync[i] == written[i].1
            &&& from <= looked_up(index, c, k)
            &&& lies_at(stream, looked_up(index, c, k), written[i].0)
        }),
{
    assert(sample_in_place(index.chunks, written, stream, c, k));
    let first = first_sample(index.chunks, c);
    lemma_first_sample_grows(index.chunks, c);
    assert forall|i: int| 0 <= i < written.len() implies index.sizes[i] == lengths(written)[i] by {
        assert(written[i].0.len() <= u32::MAX);
    }
    lemma_total_prefix(index.sizes, lengths(written), first + k);
    lemma_total_prefix(index.sizes, lengths(written), first);
    lemma_total_grows(lengths(written), first, first + k);
}

/// The chunk that holds sample `i`.
proof fn lemma_chunk_of(chunks: Seq<(int, int)>, n: int, i: int) -> (r: (int, int))
    requires
        0 <= n <= chunks.len(),
        0 <= i < first_sample(chunks, n),
        forall|c: int| 0 <= c < chunks.len() ==> 0 <= (#[trigger] chunks[c]).1,
    ensures
        0 <= r.0 < n,
        0 <= r.1 < chunks[r.0].1,
        first_sample(chunks, r.0) + r.1 == i,
    decreases n,
{
    if i >= first_sample(chunks, n - 1) {
        assert(chunk_counts(chunks)[n - 1] == chunks[n - 1].1);
        (n - 1, i - first_sample(chunks, n - 1))
    } else {
        lemma_chunk_of(chunks, n - 1, i)
    }
}

/// Law: the chunks of an index hold every sample that was written.
pub proof fn lemma_every_sample_has_a_chunk(
    index: IndexView,
    written: Seq<SampleView>,
    stream: Seq<u8>,
    from: int,
    i: int,
)
    requires
        describes(index, written, stream, from),
        0 <= i < written.len(),
    ensures
        exists|c: int|
            0 <= c < index.chunks.len() && #[trigger] first_sample(index.chunks, c) <= i
                < first_sample(index.chunks, c) + index.chunks[c].1,
{
    let r = lemma_chunk_of(index.chunks, index.chunks.len() as int, i);
    assert(first_sample(index.chunks, r.0) <= i < first_sample(index.chunks, r.0)
        + index.chunks[r.0].1);
}

} // verus!
