//! The sample tables of a finished movie.

use vstd::prelude::*;

use crate::bytes::{append, be32, longs, push_be32, push_be32_low, push_be64, words};
use crate::constants::mux::{AUDIO_SAMPLE_DELTA, MOVIE_TIMESCALE, VIDEO_SAMPLE_DELTA};
use crate::mux::boxes::{
    audio_minf_bytes, avc1_bytes, box_bytes, build_avc1, build_hdlr, build_mdhd, build_mp4a,
    build_stsd, build_tkhd, full_box_bytes, fullbox, hdlr_bytes, mdhd_bytes, mdia_bytes,
    mp4a_bytes, mp4box, stsd_bytes, tkhd_bytes, video_minf_bytes, wrap_audio_minf, wrap_mdia,
    wrap_video_minf, AudioTrackConfig, ConfigView, VIDEO_TRACK_ID,
};
use crate::mux::fourcc;
use crate::mux::fragment::{sample_views, Sample, SampleView};

verus! {

/// What is known of a track's written samples: enough to build its tables without reading the
/// file back.
#[derive(Debug)]
pub struct TrackIndex {
    /// The size of each sample, in order.
    pub sizes: Vec<u32>,
    /// For each fragment, the position in the file of its first sample's bytes, and its number of
    /// samples.
    pub chunks: Vec<(u64, u32)>,
    /// Whether decoding can start at each sample.
    pub sync: Vec<bool>,
}

/// What a [`TrackIndex`] holds.
#[verifier::ext_equal]
pub struct IndexView {
    pub sizes: Seq<int>,
    pub chunks: Seq<(int, int)>,
    pub sync: Seq<bool>,
}

/// The size of a sample as the table holds it.
pub open spec fn stored_size(s: SampleView) -> int {
    s.0.len() as int % 0x1_0000_0000
}

impl IndexView {
    /// The index of a track without samples.
    pub open spec fn empty() -> IndexView {
        IndexView { sizes: Seq::empty(), chunks: Seq::empty(), sync: Seq::empty() }
    }

    /// The index after one more fragment, whose samples' bytes begin at `offset`.
    pub open spec fn with_chunk(self, offset: int, samples: Seq<SampleView>) -> IndexView {
        IndexView {
            sizes: self.sizes + samples.map_values(|s: SampleView| stored_size(s)),
            chunks: self.chunks.push((offset, samples.len() as int % 0x1_0000_0000)),
            sync: self.sync + samples.map_values(|s: SampleView| s.1),
        }
    }
}

impl View for TrackIndex {
    type V = IndexView;

    open spec fn view(&self) -> IndexView {
        IndexView {
            sizes: self.sizes@.map_values(|v: u32| v as int),
            chunks: self.chunks@.map_values(|c: (u64, u32)| (c.0 as int, c.1 as int)),
            sync: self.sync@,
        }
    }
}

impl TrackIndex {
    /// The index of a track without samples.
    pub fn new() -> (index: Self)
        ensures
            index@ == IndexView::empty(),
    {
        let index = TrackIndex { sizes: Vec::new(), chunks: Vec::new(), sync: Vec::new() };
        assert(index@ =~= IndexView::empty());
        index
    }

    /// Record one fragment: the position of its samples' bytes, and its samples.
    pub fn push_chunk(&mut self, payload_offset: u64, samples: &[Sample])
        ensures
            final(self)@ == old(self)@.with_chunk(payload_offset as int, sample_views(samples@)),
    {
        let ghost before = self@;
        let ghost views = sample_views(samples@);
        self.chunks.push((payload_offset, (samples.len() as u64 % 0x1_0000_0000) as u32));
        assert(self@.chunks =~= before.chunks.push(
            (payload_offset as int, samples@.len() as int % 0x1_0000_0000),
        ));
        let ghost chunks = self@.chunks;
        let mut i: usize = 0;
        while i < samples.len()
            invariant
                i <= samples.len(),
                views == sample_views(samples@),
                self@.chunks == chunks,
                self@.sizes == before.sizes + views.take(i as int).map_values(
                    |s: SampleView| stored_size(s),
                ),
                self@.sync == before.sync + views.take(i as int).map_values(
                    |s: SampleView| s.1,
                ),
            decreases samples.len() - i,
        {
            let ghost sizes_before = self@.sizes;
            let ghost sync_before = self@.sync;
            self.sizes.push((samples[i].0.len() as u64 % 0x1_0000_0000) as u32);
            self.sync.push(samples[i].1);
            assert(self@.sizes =~= sizes_before.push(stored_size(views[i as int])));
            assert(self@.sync =~= sync_before.push(views[i as int].1));
            assert(self@.sizes =~= before.sizes + views.take(i + 1).map_values(
                |s: SampleView| stored_size(s),
            ));
            assert(self@.sync =~= before.sync + views.take(i + 1).map_values(
                |s: SampleView| s.1,
            ));
            i = i + 1;
        }
        assert(views.take(views.len() as int) =~= views);
        assert(self@ =~= before.with_chunk(payload_offset as int, views));
    }

    /// The number of samples.
    pub fn sample_count(&self) -> (n: u64)
        ensures
            n == self@.sizes.len(),
    {
        self.sizes.len() as u64
    }
}

/// A duration in a track's timescale converted to the movie's, rounded half up, in 32 bits.
pub open spec fn movie_time(media_dur: int, media_timescale: int) -> int {
    let ts = if media_timescale < 1 {
        1
    } else {
        media_timescale
    };
    (media_dur * MOVIE_TIMESCALE + ts / 2) / ts % 0x1_0000_0000
}

/// Convert a duration to the movie's timescale.
pub fn to_movie_ts(media_dur: u64, media_timescale: u32) -> (t: u32)
    requires
        media_dur * MOVIE_TIMESCALE + media_timescale / 2 <= u64::MAX,
    ensures
        t == movie_time(media_dur as int, media_timescale as int),
{
    let ts: u64 = if media_timescale < 1 {
        1
    } else {
        media_timescale as u64
    };
    ((media_dur * MOVIE_TIMESCALE as u64 + ts / 2) / ts % 0x1_0000_0000) as u32
}

/// Law: a time in the movie's timescale is the nearest to what the track's says, so a finished track
/// starts where its fragments did, to half a millisecond; and exactly there, where that is a whole
/// number of milliseconds.
pub proof fn lemma_movie_time_is_nearest(media_dur: int, media_timescale: int)
    requires
        0 <= media_dur,
        1 <= media_timescale,
        2 * media_dur * MOVIE_TIMESCALE + media_timescale < 2 * media_timescale * 0x1_0000_0000,
    ensures
        ({
            let t = movie_time(media_dur, media_timescale);
            let exact = media_dur * MOVIE_TIMESCALE;
            &&& -media_timescale <= 2 * (t * media_timescale - exact) <= media_timescale
            &&& exact % media_timescale == 0 ==> t * media_timescale == exact
        }),
{
    let ts = media_timescale;
    let exact = media_dur * MOVIE_TIMESCALE;
    let n = exact + ts / 2;
    let q = n / ts;
    assert(n == q * ts + n % ts && 0 <= n % ts < ts) by (nonlinear_arith)
        requires
            ts >= 1,
            q == n / ts,
    ;
    assert(exact >= 0);
    assert(0 <= q < 0x1_0000_0000) by (nonlinear_arith)
        requires
            ts >= 1,
            0 <= n,
            2 * n < 2 * ts * 0x1_0000_0000,
            n == q * ts + n % ts,
            0 <= n % ts < ts,
    ;
    assert(movie_time(media_dur, ts) == q);
    if exact % ts == 0 {
        let k = exact / ts;
        assert(exact == k * ts) by (nonlinear_arith)
            requires
                ts >= 1,
                k == exact / ts,
                exact % ts == 0,
        ;
        assert(q == k) by (nonlinear_arith)
            requires
                ts >= 1,
                n == k * ts + ts / 2,
                n == q * ts + n % ts,
                0 <= n % ts < ts,
        ;
    }
}

/// The time-to-sample box: one run of samples that all last `delta`, or none.
pub open spec fn stts_bytes(count: int, delta: int) -> Seq<u8> {
    full_box_bytes(
        fourcc::STTS@,
        0,
        0,
        if count == 0 {
            be32(0)
        } else {
            be32(1) + be32(count) + be32(delta)
        },
    )
}

/// Build the time-to-sample box.
pub fn build_stts(sample_count: u64, sample_delta: u32) -> (v: Vec<u8>)
    ensures
        v@ == stts_bytes(sample_count as int, sample_delta as int),
{
    let mut p: Vec<u8> = Vec::new();
    if sample_count == 0 {
        push_be32(&mut p, 0);
        assert(p@ =~= be32(0));
    } else {
        push_be32(&mut p, 1);
        assert(p@ =~= be32(1));
        push_be32_low(&mut p, sample_count);
        push_be32(&mut p, sample_delta);
    }
    fullbox(&fourcc::STTS, 0, 0, &p)
}

/// The sample-size box: the size of each sample.
pub open spec fn stsz_bytes(sizes: Seq<int>) -> Seq<u8> {
    full_box_bytes(
        fourcc::STSZ@,
        0,
        0,
        be32(0) + be32(sizes.len() as int) + words(sizes),
    )
}

/// Build the sample-size box.
pub fn build_stsz(sizes: &[u32]) -> (v: Vec<u8>)
    ensures
        v@ == stsz_bytes(sizes@.map_values(|s: u32| s as int)),
{
    let ghost all = sizes@.map_values(|s: u32| s as int);
    let mut p: Vec<u8> = Vec::new();
    push_be32(&mut p, 0);
    assert(p@ =~= be32(0));
    push_be32_low(&mut p, sizes.len() as u64);
    let ghost head = p@;
    let mut i: usize = 0;
    while i < sizes.len()
        invariant
            i <= sizes.len(),
            all == sizes@.map_values(|s: u32| s as int),
            p@ == head + words(all.take(i as int)),
        decreases sizes.len() - i,
    {
        push_be32(&mut p, sizes[i]);
        assert(all.take(i + 1).drop_last() =~= all.take(i as int));
        assert(p@ =~= head + words(all.take(i + 1)));
        i = i + 1;
    }
    assert(all.take(all.len() as int) =~= all);
    fullbox(&fourcc::STSZ, 0, 0, &p)
}

/// The runs among the first `n` chunks: where a run begins (counting chunks from 1), and how many
/// samples each of its chunks holds.
pub open spec fn chunk_runs(chunks: Seq<(int, int)>, n: int) -> Seq<(int, int)>
    decreases n,
{
    if n <= 0 {
        Seq::empty()
    } else {
        let before = chunk_runs(chunks, n - 1);
        if before.len() > 0 && before.last().1 == chunks[n - 1].1 {
            before
        } else {
            before.push((n, chunks[n - 1].1))
        }
    }
}

/// The entries of the sample-to-chunk box: first chunk, samples per chunk, sample description.
pub open spec fn run_words(runs: Seq<(int, int)>) -> Seq<u8>
    decreases runs.len(),
{
    if runs.len() == 0 {
        Seq::empty()
    } else {
        run_words(runs.drop_last()) + (be32(runs.last().0) + be32(runs.last().1) + be32(1))
    }
}

/// The sample-to-chunk box, runs of equal chunks folded into one entry.
pub open spec fn stsc_bytes(chunks: Seq<(int, int)>) -> Seq<u8> {
    let runs = chunk_runs(chunks, chunks.len() as int);
    full_box_bytes(fourcc::STSC@, 0, 0, be32(runs.len() as int) + run_words(runs))
}

/// The samples in chunk `i` (from 0) by the sample-to-chunk entries: those of the last entry whose
/// first chunk is not after it.
pub open spec fn samples_by_runs(runs: Seq<(int, int)>, i: int) -> int
    decreases runs.len(),
{
    if runs.len() == 0 {
        0
    } else if runs.last().0 <= i + 1 {
        runs.last().1
    } else {
        samples_by_runs(runs.drop_last(), i)
    }
}

/// Law: the sample-to-chunk entries give back the number of samples of every chunk.
pub proof fn lemma_chunk_runs_decode(chunks: Seq<(int, int)>, n: int, i: int)
    requires
        0 <= i < n <= chunks.len(),
    ensures
        samples_by_runs(chunk_runs(chunks, n), i) == chunks[i].1,
    decreases n,
{
    let runs = chunk_runs(chunks, n);
    let before = chunk_runs(chunks, n - 1);
    lemma_runs_begin_within(chunks, n - 1);
    if before.len() > 0 && before.last().1 == chunks[n - 1].1 {
        if i < n - 1 {
            lemma_chunk_runs_decode(chunks, n - 1, i);
        }
    } else {
        assert(runs.drop_last() =~= before);
        if i < n - 1 {
            lemma_chunk_runs_decode(chunks, n - 1, i);
        }
    }
}

/// Every run begins within the chunks looked at.
proof fn lemma_runs_begin_within(chunks: Seq<(int, int)>, n: int)
    requires
        0 <= n <= chunks.len(),
    ensures
        forall|k: int|
            0 <= k < chunk_runs(chunks, n).len() ==> 1 <= (#[trigger] chunk_runs(chunks, n)[k]).0
                <= n,
        n > 0 ==> chunk_runs(chunks, n).len() > 0,
        chunk_runs(chunks, n).len() <= n,
    decreases n,
{
    if n > 0 {
        lemma_runs_begin_within(chunks, n - 1);
    }
}

/// Build the sample-to-chunk box.
pub fn build_stsc(chunks: &[(u64, u32)]) -> (v: Vec<u8>)
    ensures
        v@ == stsc_bytes(chunks@.map_values(|c: (u64, u32)| (c.0 as int, c.1 as int))),
{
    let ghost all = chunks@.map_values(|c: (u64, u32)| (c.0 as int, c.1 as int));
    let mut entries: Vec<u8> = Vec::new();
    let mut count: u64 = 0;
    let mut last: Option<u32> = None;
    let mut i: usize = 0;
    while i < chunks.len()
        invariant
            i <= chunks.len(),
            all == chunks@.map_values(|c: (u64, u32)| (c.0 as int, c.1 as int)),
            count <= i,
            count == chunk_runs(all, i as int).len(),
            last is None <==> count == 0,
            last matches Some(c) ==> c == chunk_runs(all, i as int).last().1,
            entries@ == run_words(chunk_runs(all, i as int)),
        decreases chunks.len() - i,
    {
        let samples: u32 = chunks[i].1;
        let ghost runs = chunk_runs(all, i as int);
        assert(all[i as int].1 == samples);
        let same: bool = match last {
            Some(c) => c == samples,
            None => false,
        };
        if !same {
            let ghost before = entries@;
            push_be32_low(&mut entries, i as u64 + 1);
            push_be32(&mut entries, samples);
            push_be32(&mut entries, 1);
            assert(entries@ =~= before + (be32(i + 1) + be32(samples as int) + be32(1)));
            assert(runs.push((i + 1, samples as int)).drop_last() =~= runs);
            last = Some(samples);
            count = count + 1;
        }
        i = i + 1;
    }
    let mut p: Vec<u8> = Vec::new();
    push_be32_low(&mut p, count);
    assert(p@ =~= be32(count as int));
    append(&mut p, &entries);
    fullbox(&fourcc::STSC, 0, 0, &p)
}

/// The positions of the chunks.
pub open spec fn chunk_offsets(chunks: Seq<(int, int)>) -> Seq<int> {
    chunks.map_values(|c: (int, int)| c.0)
}

/// The chunk-offset box: the position of each chunk in the file.
pub open spec fn co64_bytes(chunks: Seq<(int, int)>) -> Seq<u8> {
    full_box_bytes(
        fourcc::CO64@,
        0,
        0,
        be32(chunks.len() as int) + longs(chunk_offsets(chunks)),
    )
}

/// Build the chunk-offset box. Its positions have 64 bits whatever the size of the file.
pub fn build_co64(chunks: &[(u64, u32)]) -> (v: Vec<u8>)
    ensures
        v@ == co64_bytes(chunks@.map_values(|c: (u64, u32)| (c.0 as int, c.1 as int))),
{
    let ghost all = chunks@.map_values(|c: (u64, u32)| (c.0 as int, c.1 as int));
    let ghost offsets = chunk_offsets(all);
    let mut p: Vec<u8> = Vec::new();
    push_be32_low(&mut p, chunks.len() as u64);
    assert(p@ =~= be32(chunks@.len() as int));
    let ghost head = p@;
    let mut i: usize = 0;
    while i < chunks.len()
        invariant
            i <= chunks.len(),
            all == chunks@.map_values(|c: (u64, u32)| (c.0 as int, c.1 as int)),
            offsets == chunk_offsets(all),
            p@ == head + longs(offsets.take(i as int)),
        decreases chunks.len() - i,
    {
        push_be64(&mut p, chunks[i].0);
        assert(offsets.take(i + 1).drop_last() =~= offsets.take(i as int));
        assert(p@ =~= head + longs(offsets.take(i + 1)));
        i = i + 1;
    }
    assert(offsets.take(offsets.len() as int) =~= offsets);
    fullbox(&fourcc::CO64, 0, 0, &p)
}

/// The numbers (from 1) of the samples among the first `n` that decoding can start at.
pub open spec fn sync_numbers(sync: Seq<bool>, n: int) -> Seq<int>
    decreases n,
{
    if n <= 0 {
        Seq::empty()
    } else if sync[n - 1] {
        sync_numbers(sync, n - 1).push(n)
    } else {
        sync_numbers(sync, n - 1)
    }
}

/// Whether decoding can start at every sample.
pub open spec fn all_sync(sync: Seq<bool>) -> bool {
    forall|i: int| 0 <= i < sync.len() ==> #[trigger] sync[i]
}

/// The sync-sample box.
pub open spec fn stss_bytes(sync: Seq<bool>) -> Seq<u8> {
    let numbers = sync_numbers(sync, sync.len() as int);
    full_box_bytes(fourcc::STSS@, 0, 0, be32(numbers.len() as int) + words(numbers))
}

/// Build the sync-sample box. There is none where decoding can start at every sample: that is
/// what its absence says.
pub fn build_stss(sync: &[bool]) -> (r: Option<Vec<u8>>)
    ensures
        r is None <==> all_sync(sync@),
        r matches Some(v) ==> v@ == stss_bytes(sync@),
{
    let mut entries: Vec<u8> = Vec::new();
    let mut count: u64 = 0;
    let mut i: usize = 0;
    while i < sync.len()
        invariant
            i <= sync.len(),
            count <= i,
            count == sync_numbers(sync@, i as int).len(),
            count == i <==> (forall|k: int| 0 <= k < i ==> #[trigger] sync@[k]),
            entries@ == words(sync_numbers(sync@, i as int)),
        decreases sync.len() - i,
    {
        if sync[i] {
            let ghost numbers = sync_numbers(sync@, i as int);
            push_be32_low(&mut entries, i as u64 + 1);
            assert(numbers.push(i + 1).drop_last() =~= numbers);
            count = count + 1;
        }
        i = i + 1;
    }
    if count == sync.len() as u64 {
        return None;
    }
    let mut p: Vec<u8> = Vec::new();
    push_be32_low(&mut p, count);
    assert(p@ =~= be32(count as int));
    append(&mut p, &entries);
    Some(fullbox(&fourcc::STSS, 0, 0, &p))
}

/// The edit list of a track that starts `delay` into the movie: an empty edit, then the media
/// from its beginning.
pub open spec fn edts_bytes(delay: int, media_dur: int) -> Seq<u8> {
    box_bytes(
        fourcc::EDTS@,
        full_box_bytes(
            fourcc::ELST@,
            0,
            0,
            be32(2) + be32(delay) + be32(-1) + be32(0x0001_0000) + be32(media_dur) + be32(0)
                + be32(0x0001_0000),
        ),
    )
}

/// Build the edit list, in the movie's timescale.
pub fn build_edts(delay_movie: u32, media_dur_movie: u32) -> (v: Vec<u8>)
    ensures
        v@ == edts_bytes(delay_movie as int, media_dur_movie as int),
{
    let mut p: Vec<u8> = Vec::new();
    push_be32(&mut p, 2);
    assert(p@ =~= be32(2));
    push_be32(&mut p, delay_movie);
    push_be32(&mut p, 0xFFFF_FFFF);
    proof {
        crate::bytes::lemma_be32_congruent(0xFFFF_FFFF, -1);
    }
    push_be32(&mut p, 0x0001_0000);
    push_be32(&mut p, media_dur_movie);
    push_be32(&mut p, 0);
    push_be32(&mut p, 0x0001_0000);
    let elst: Vec<u8> = fullbox(&fourcc::ELST, 0, 0, &p);
    mp4box(&fourcc::EDTS, &elst)
}

/// The full sample table of a track.
pub open spec fn stbl_bytes(sample_entry: Seq<u8>, index: IndexView, delta: int) -> Seq<u8> {
    box_bytes(
        fourcc::STBL@,
        stsd_bytes(sample_entry) + stts_bytes(index.sizes.len() as int, delta) + (if all_sync(
            index.sync,
        ) {
            Seq::empty()
        } else {
            stss_bytes(index.sync)
        }) + stsc_bytes(index.chunks) + stsz_bytes(index.sizes) + co64_bytes(index.chunks),
    )
}

/// Build the full sample table of a track.
pub fn build_stbl_full(sample_entry: &[u8], index: &TrackIndex, sample_delta: u32) -> (v: Vec<u8>)
    ensures
        v@ == stbl_bytes(sample_entry@, index@, sample_delta as int),
{
    let mut p: Vec<u8> = build_stsd(sample_entry);
    let stts: Vec<u8> = build_stts(index.sample_count(), sample_delta);
    append(&mut p, &stts);
    let ghost before = p@;
    match build_stss(&index.sync) {
        Some(stss) => {
            append(&mut p, &stss);
        },
        None => {},
    }
    assert(p@ =~= before + (if all_sync(index@.sync) {
        Seq::empty()
    } else {
        stss_bytes(index@.sync)
    }));
    let stsc: Vec<u8> = build_stsc(&index.chunks);
    append(&mut p, &stsc);
    let stsz: Vec<u8> = build_stsz(&index.sizes);
    append(&mut p, &stsz);
    let co64: Vec<u8> = build_co64(&index.chunks);
    append(&mut p, &co64);
    mp4box(&fourcc::STBL, &p)
}

/// An audio track of a finished movie: header, edit list if the track starts late, media.
pub open spec fn final_audio_trak_bytes(
    track_id: int,
    config: ConfigView,
    offset: int,
    index: IndexView,
) -> Seq<u8> {
    let media_dur = index.sizes.len() * AUDIO_SAMPLE_DELTA;
    let media_movie = movie_time(media_dur, config.sample_rate);
    let delay_movie = movie_time(offset, config.sample_rate);
    box_bytes(
        fourcc::TRAK@,
        tkhd_bytes(track_id, 0, 0, 0x0100, (delay_movie + media_movie) % 0x1_0000_0000) + (if
        delay_movie > 0 {
            edts_bytes(delay_movie, media_movie)
        } else {
            Seq::empty()
        }) + mdia_bytes(
            mdhd_bytes(config.sample_rate, media_dur % 0x1_0000_0000),
            hdlr_bytes(fourcc::SOUN@),
            audio_minf_bytes(stbl_bytes(mp4a_bytes(config), index, AUDIO_SAMPLE_DELTA as int)),
        ),
    )
}

/// The sum of two movie times, in 32 bits.
pub fn add_movie_ts(a: u32, b: u32) -> (t: u32)
    ensures
        t == (a + b) % 0x1_0000_0000,
{
    ((a as u64 + b as u64) % 0x1_0000_0000) as u32
}

/// Build an audio track of a finished movie. Its first access unit lies `offset` into the movie,
/// in the audio timescale.
pub fn build_final_audio_trak(
    track_id: u32,
    config: &AudioTrackConfig,
    offset: u64,
    index: &TrackIndex,
) -> (v: Vec<u8>)
    requires
        index@.sizes.len() * AUDIO_SAMPLE_DELTA * MOVIE_TIMESCALE + u32::MAX <= u64::MAX,
        offset * MOVIE_TIMESCALE + u32::MAX <= u64::MAX,
    ensures
        v@ == final_audio_trak_bytes(track_id as int, config@, offset as int, index@),
{
    let media_dur: u64 = index.sample_count() * AUDIO_SAMPLE_DELTA as u64;
    let media_movie: u32 = to_movie_ts(media_dur, config.sample_rate);
    let delay_movie: u32 = to_movie_ts(offset, config.sample_rate);
    let mut p: Vec<u8> = build_tkhd(
        track_id,
        0,
        0,
        0x0100,
        add_movie_ts(delay_movie, media_movie),
    );
    let ghost before = p@;
    if delay_movie > 0 {
        let edts: Vec<u8> = build_edts(delay_movie, media_movie);
        append(&mut p, &edts);
    }
    assert(p@ =~= before + (if delay_movie > 0 {
        edts_bytes(delay_movie as int, media_movie as int)
    } else {
        Seq::empty()
    }));
    let mdhd: Vec<u8> = build_mdhd(config.sample_rate, (media_dur % 0x1_0000_0000) as u32);
    let hdlr: Vec<u8> = build_hdlr(&fourcc::SOUN);
    let entry: Vec<u8> = build_mp4a(config);
    let stbl: Vec<u8> = build_stbl_full(&entry, index, AUDIO_SAMPLE_DELTA);
    let minf: Vec<u8> = wrap_audio_minf(&stbl);
    let mdia: Vec<u8> = wrap_mdia(&mdhd, &hdlr, &minf);
    append(&mut p, &mdia);
    mp4box(&fourcc::TRAK, &p)
}

/// The video track of a finished movie.
pub open spec fn final_video_trak_bytes(
    avcc: Seq<u8>,
    width: int,
    height: int,
    timescale: int,
    index: IndexView,
) -> Seq<u8> {
    let media_dur = index.sizes.len() * VIDEO_SAMPLE_DELTA;
    box_bytes(
        fourcc::TRAK@,
        tkhd_bytes(VIDEO_TRACK_ID as int, width, height, 0, movie_time(media_dur, timescale))
            + mdia_bytes(
            mdhd_bytes(timescale, media_dur % 0x1_0000_0000),
            hdlr_bytes(fourcc::VIDE@),
            video_minf_bytes(
                stbl_bytes(avc1_bytes(avcc, width, height), index, VIDEO_SAMPLE_DELTA as int),
            ),
        ),
    )
}

/// Build the video track of a finished movie. Its first sample lies at the start.
pub fn build_final_video_trak(
    avcc: &[u8],
    width: u32,
    height: u32,
    timescale: u32,
    index: &TrackIndex,
) -> (v: Vec<u8>)
    requires
        index@.sizes.len() * VIDEO_SAMPLE_DELTA * MOVIE_TIMESCALE + u32::MAX <= u64::MAX,
    ensures
        v@ == final_video_trak_bytes(
            avcc@,
            width as int,
            height as int,
            timescale as int,
            index@,
        ),
{
    let media_dur: u64 = index.sample_count() * VIDEO_SAMPLE_DELTA as u64;
    let media_movie: u32 = to_movie_ts(media_dur, timescale);
    let mut p: Vec<u8> = build_tkhd(VIDEO_TRACK_ID, width, height, 0, media_movie);
    let mdhd: Vec<u8> = build_mdhd(timescale, (media_dur % 0x1_0000_0000) as u32);
    let hdlr: Vec<u8> = build_hdlr(&fourcc::VIDE);
    let entry: Vec<u8> = build_avc1(avcc, width, height);
    let stbl: Vec<u8> = build_stbl_full(&entry, index, VIDEO_SAMPLE_DELTA);
    let minf: Vec<u8> = wrap_video_minf(&stbl);
    let mdia: Vec<u8> = wrap_mdia(&mdhd, &hdlr, &minf);
    append(&mut p, &mdia);
    mp4box(&fourcc::TRAK, &p)
}

} // verus!
