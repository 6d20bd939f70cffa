//! What a player reads in a movie: its boxes, and the fields and tables in them, by the format.

use vstd::prelude::*;

use crate::bytes::{
    be24, be32, be64, be_value, lemma_be32_reads_back, lemma_be64_reads_back, longs, words,
};
use crate::mux::boxes::box_bytes;
use crate::mux::fourcc;
use crate::mux::tables::{
    all_sync, chunk_offsets, chunk_runs, co64_bytes, lemma_chunk_runs_decode, run_words,
    samples_by_runs, stbl_bytes, stsc_bytes, stss_bytes, stsz_bytes, stts_bytes, sync_numbers,
    IndexView,
};

verus! {

/// Law: the codes of boxes, brands and handlers are those of the format.
pub proof fn lemma_codes()
    ensures
        fourcc::FTYP@ == seq![0x66u8, 0x74, 0x79, 0x70],
        fourcc::ISOM@ == seq![0x69u8, 0x73, 0x6F, 0x6D],
        fourcc::ISO2@ == seq![0x69u8, 0x73, 0x6F, 0x32],
        fourcc::AVC1@ == seq![0x61u8, 0x76, 0x63, 0x31],
        fourcc::MP41@ == seq![0x6Du8, 0x70, 0x34, 0x31],
        fourcc::FREE@ == seq![0x66u8, 0x72, 0x65, 0x65],
        fourcc::MDAT@ == seq![0x6Du8, 0x64, 0x61, 0x74],
        fourcc::MOOV@ == seq![0x6Du8, 0x6F, 0x6F, 0x76],
        fourcc::MVHD@ == seq![0x6Du8, 0x76, 0x68, 0x64],
        fourcc::TRAK@ == seq![0x74u8, 0x72, 0x61, 0x6B],
        fourcc::TKHD@ == seq![0x74u8, 0x6B, 0x68, 0x64],
        fourcc::MDIA@ == seq![0x6Du8, 0x64, 0x69, 0x61],
        fourcc::MDHD@ == seq![0x6Du8, 0x64, 0x68, 0x64],
        fourcc::HDLR@ == seq![0x68u8, 0x64, 0x6C, 0x72],
        fourcc::VIDE@ == seq![0x76u8, 0x69, 0x64, 0x65],
        fourcc::SOUN@ == seq![0x73u8, 0x6F, 0x75, 0x6E],
        fourcc::MINF@ == seq![0x6Du8, 0x69, 0x6E, 0x66],
        fourcc::VMHD@ == seq![0x76u8, 0x6D, 0x68, 0x64],
        fourcc::SMHD@ == seq![0x73u8, 0x6D, 0x68, 0x64],
        fourcc::DINF@ == seq![0x64u8, 0x69, 0x6E, 0x66],
        fourcc::DREF@ == seq![0x64u8, 0x72, 0x65, 0x66],
        fourcc::URL@ == seq![0x75u8, 0x72, 0x6C, 0x20],
        fourcc::STBL@ == seq![0x73u8, 0x74, 0x62, 0x6C],
        fourcc::STSD@ == seq![0x73u8, 0x74, 0x73, 0x64],
        fourcc::STTS@ == seq![0x73u8, 0x74, 0x74, 0x73],
        fourcc::STSC@ == seq![0x73u8, 0x74, 0x73, 0x63],
        fourcc::STSZ@ == seq![0x73u8, 0x74, 0x73, 0x7A],
        fourcc::STCO@ == seq![0x73u8, 0x74, 0x63, 0x6F],
        fourcc::AVCC@ == seq![0x61u8, 0x76, 0x63, 0x43],
        fourcc::COLR@ == seq![0x63u8, 0x6F, 0x6C, 0x72],
        fourcc::NCLX@ == seq![0x6Eu8, 0x63, 0x6C, 0x78],
        fourcc::MP4A@ == seq![0x6Du8, 0x70, 0x34, 0x61],
        fourcc::ESDS@ == seq![0x65u8, 0x73, 0x64, 0x73],
        fourcc::MVEX@ == seq![0x6Du8, 0x76, 0x65, 0x78],
        fourcc::TREX@ == seq![0x74u8, 0x72, 0x65, 0x78],
        fourcc::MOOF@ == seq![0x6Du8, 0x6F, 0x6F, 0x66],
        fourcc::MFHD@ == seq![0x6Du8, 0x66, 0x68, 0x64],
        fourcc::TRAF@ == seq![0x74u8, 0x72, 0x61, 0x66],
        fourcc::TFHD@ == seq![0x74u8, 0x66, 0x68, 0x64],
        fourcc::TFDT@ == seq![0x74u8, 0x66, 0x64, 0x74],
        fourcc::TRUN@ == seq![0x74u8, 0x72, 0x75, 0x6E],
        fourcc::STSS@ == seq![0x73u8, 0x74, 0x73, 0x73],
        fourcc::CO64@ == seq![0x63u8, 0x6F, 0x36, 0x34],
        fourcc::EDTS@ == seq![0x65u8, 0x64, 0x74, 0x73],
        fourcc::ELST@ == seq![0x65u8, 0x6C, 0x73, 0x74],
{
    assert(fourcc::FTYP@ =~= seq![0x66u8, 0x74, 0x79, 0x70]);
    assert(fourcc::ISOM@ =~= seq![0x69u8, 0x73, 0x6F, 0x6D]);
    assert(fourcc::ISO2@ =~= seq![0x69u8, 0x73, 0x6F, 0x32]);
    assert(fourcc::AVC1@ =~= seq![0x61u8, 0x76, 0x63, 0x31]);
    assert(fourcc::MP41@ =~= seq![0x6Du8, 0x70, 0x34, 0x31]);
    assert(fourcc::FREE@ =~= seq![0x66u8, 0x72, 0x65, 0x65]);
    assert(fourcc::MDAT@ =~= seq![0x6Du8, 0x64, 0x61, 0x74]);
    assert(fourcc::MOOV@ =~= seq![0x6Du8, 0x6F, 0x6F, 0x76]);
    assert(fourcc::MVHD@ =~= seq![0x6Du8, 0x76, 0x68, 0x64]);
    assert(fourcc::TRAK@ =~= seq![0x74u8, 0x72, 0x61, 0x6B]);
    assert(fourcc::TKHD@ =~= seq![0x74u8, 0x6B, 0x68, 0x64]);
    assert(fourcc::MDIA@ =~= seq![0x6Du8, 0x64, 0x69, 0x61]);
    assert(fourcc::MDHD@ =~= seq![0x6Du8, 0x64, 0x68, 0x64]);
    assert(fourcc::HDLR@ =~= seq![0x68u8, 0x64, 0x6C, 0x72]);
    assert(fourcc::VIDE@ =~= seq![0x76u8, 0x69, 0x64, 0x65]);
    assert(fourcc::SOUN@ =~= seq![0x73u8, 0x6F, 0x75, 0x6E]);
    assert(fourcc::MINF@ =~= seq![0x6Du8, 0x69, 0x6E, 0x66]);
    assert(fourcc::VMHD@ =~= seq![0x76u8, 0x6D, 0x68, 0x64]);
    assert(fourcc::SMHD@ =~= seq![0x73u8, 0x6D, 0x68, 0x64]);
    assert(fourcc::DINF@ =~= seq![0x64u8, 0x69, 0x6E, 0x66]);
    assert(fourcc::DREF@ =~= seq![0x64u8, 0x72, 0x65, 0x66]);
    assert(fourcc::URL@ =~= seq![0x75u8, 0x72, 0x6C, 0x20]);
    assert(fourcc::STBL@ =~= seq![0x73u8, 0x74, 0x62, 0x6C]);
    assert(fourcc::STSD@ =~= seq![0x73u8, 0x74, 0x73, 0x64]);
    assert(fourcc::STTS@ =~= seq![0x73u8, 0x74, 0x74, 0x73]);
    assert(fourcc::STSC@ =~= seq![0x73u8, 0x74, 0x73, 0x63]);
    assert(fourcc::STSZ@ =~= seq![0x73u8, 0x74, 0x73, 0x7A]);
    assert(fourcc::STCO@ =~= seq![0x73u8, 0x74, 0x63, 0x6F]);
    assert(fourcc::AVCC@ =~= seq![0x61u8, 0x76, 0x63, 0x43]);
    assert(fourcc::COLR@ =~= seq![0x63u8, 0x6F, 0x6C, 0x72]);
    assert(fourcc::NCLX@ =~= seq![0x6Eu8, 0x63, 0x6C, 0x78]);
    assert(fourcc::MP4A@ =~= seq![0x6Du8, 0x70, 0x34, 0x61]);
    assert(fourcc::ESDS@ =~= seq![0x65u8, 0x73, 0x64, 0x73]);
    assert(fourcc::MVEX@ =~= seq![0x6Du8, 0x76, 0x65, 0x78]);
    assert(fourcc::TREX@ =~= seq![0x74u8, 0x72, 0x65, 0x78]);
    assert(fourcc::MOOF@ =~= seq![0x6Du8, 0x6F, 0x6F, 0x66]);
    assert(fourcc::MFHD@ =~= seq![0x6Du8, 0x66, 0x68, 0x64]);
    assert(fourcc::TRAF@ =~= seq![0x74u8, 0x72, 0x61, 0x66]);
    assert(fourcc::TFHD@ =~= seq![0x74u8, 0x66, 0x68, 0x64]);
    assert(fourcc::TFDT@ =~= seq![0x74u8, 0x66, 0x64, 0x74]);
    assert(fourcc::TRUN@ =~= seq![0x74u8, 0x72, 0x75, 0x6E]);
    assert(fourcc::STSS@ =~= seq![0x73u8, 0x74, 0x73, 0x73]);
    assert(fourcc::CO64@ =~= seq![0x63u8, 0x6F, 0x36, 0x34]);
    assert(fourcc::EDTS@ =~= seq![0x65u8, 0x64, 0x74, 0x73]);
    assert(fourcc::ELST@ =~= seq![0x65u8, 0x6C, 0x73, 0x74]);
}

/// The 16-bit number at `i`.
pub open spec fn u16_at(s: Seq<u8>, i: int) -> int {
    be_value(s.subrange(i, i + 2))
}

/// The 32-bit number at `i`.
pub open spec fn u32_at(s: Seq<u8>, i: int) -> int {
    be_value(s.subrange(i, i + 4))
}

/// The 64-bit number at `i`.
pub open spec fn u64_at(s: Seq<u8>, i: int) -> int {
    be_value(s.subrange(i, i + 8))
}

/// The payload of the first box of type `typ` among the boxes that stand one after the other in `s`.
/// A box is its size, its type and its payload.
pub open spec fn child(s: Seq<u8>, typ: Seq<u8>) -> Option<Seq<u8>>
    decreases s.len(),
{
    let n = u32_at(s, 0);
    if s.len() < 8 || n < 8 || n > s.len() {
        None
    } else if s.subrange(4, 8) == typ {
        Some(s.subrange(8, n))
    } else {
        child(s.skip(n), typ)
    }
}

/// A box is found, or passed over.
pub proof fn lemma_child(first: Seq<u8>, payload: Seq<u8>, rest: Seq<u8>, typ: Seq<u8>)
    requires
        first.len() == 4,
        payload.len() + 8 <= u32::MAX,
    ensures
        child(box_bytes(first, payload) + rest, typ) == if first == typ {
            Some(payload)
        } else {
            child(rest, typ)
        },
{
    reveal(box_bytes);
    let n = payload.len() + 8;
    let s = box_bytes(first, payload) + rest;
    lemma_be32_reads_back(n as int);
    assert(s.subrange(0, 4) =~= be32(n as int));
    assert(s.subrange(4, 8) =~= first);
    assert(s.subrange(8, n as int) =~= payload);
    assert(s.skip(n as int) =~= rest);
}

/// A box at the end is found, or nothing.
pub proof fn lemma_last_child(first: Seq<u8>, payload: Seq<u8>, typ: Seq<u8>)
    requires
        first.len() == 4,
        payload.len() + 8 <= u32::MAX,
    ensures
        child(box_bytes(first, payload), typ) == if first == typ {
            Some(payload)
        } else {
            None
        },
{
    let none: Seq<u8> = Seq::empty();
    lemma_child(first, payload, none, typ);
    assert(box_bytes(first, payload) + none =~= box_bytes(first, payload));
}

/// The payload of a full box: a version, flags, and the rest.
pub open spec fn full_payload(version: int, flags: int, rest: Seq<u8>) -> Seq<u8> {
    seq![version as u8] + be24(flags) + rest
}

/// Numbers written one after the other are where they belong.
proof fn lemma_words(s: Seq<int>, i: int)
    requires
        0 <= i < s.len(),
        0 <= s[i] <= u32::MAX,
    ensures
        words(s).len() == 4 * s.len(),
        u32_at(words(s), 4 * i) == s[i],
    decreases s.len(),
{
    lemma_words_len(s);
    lemma_words_len(s.drop_last());
    let all = words(s);
    if i == s.len() - 1 {
        assert(all.subrange(4 * i, 4 * i + 4) =~= be32(s[i]));
        lemma_be32_reads_back(s[i]);
    } else {
        lemma_words(s.drop_last(), i);
        assert(all.subrange(4 * i, 4 * i + 4) =~= words(s.drop_last()).subrange(4 * i, 4 * i + 4));
    }
}

/// Each number takes four bytes.
proof fn lemma_words_len(s: Seq<int>)
    ensures
        words(s).len() == 4 * s.len(),
    decreases s.len(),
{
    if s.len() > 0 {
        lemma_words_len(s.drop_last());
    }
}

/// Long numbers written one after the other are where they belong.
proof fn lemma_longs(s: Seq<int>, i: int)
    requires
        0 <= i < s.len(),
        0 <= s[i] <= u64::MAX,
    ensures
        longs(s).len() == 8 * s.len(),
        u64_at(longs(s), 8 * i) == s[i],
    decreases s.len(),
{
    lemma_longs_len(s);
    lemma_longs_len(s.drop_last());
    let all = longs(s);
    if i == s.len() - 1 {
        assert(all.subrange(8 * i, 8 * i + 8) =~= be64(s[i]));
        lemma_be64_reads_back(s[i]);
    } else {
        lemma_longs(s.drop_last(), i);
        assert(all.subrange(8 * i, 8 * i + 8) =~= longs(s.drop_last()).subrange(8 * i, 8 * i + 8));
    }
}

/// Each long number takes eight bytes.
proof fn lemma_longs_len(s: Seq<int>)
    ensures
        longs(s).len() == 8 * s.len(),
    decreases s.len(),
{
    if s.len() > 0 {
        lemma_longs_len(s.drop_last());
    }
}

/// Each sample-to-chunk entry takes twelve bytes.
proof fn lemma_run_words_len(runs: Seq<(int, int)>)
    ensures
        run_words(runs).len() == 12 * runs.len(),
    decreases runs.len(),
{
    if runs.len() > 0 {
        lemma_run_words_len(runs.drop_last());
    }
}

/// Sample-to-chunk entries are where they belong.
proof fn lemma_run_words(runs: Seq<(int, int)>, i: int)
    requires
        0 <= i < runs.len(),
        0 <= runs[i].0 <= u32::MAX,
        0 <= runs[i].1 <= u32::MAX,
    ensures
        u32_at(run_words(runs), 12 * i) == runs[i].0,
        u32_at(run_words(runs), 12 * i + 4) == runs[i].1,
    decreases runs.len(),
{
    lemma_run_words_len(runs);
    lemma_run_words_len(runs.drop_last());
    let all = run_words(runs);
    if i == runs.len() - 1 {
        assert(all.subrange(12 * i, 12 * i + 4) =~= be32(runs[i].0));
        assert(all.subrange(12 * i + 4, 12 * i + 8) =~= be32(runs[i].1));
        lemma_be32_reads_back(runs[i].0);
        lemma_be32_reads_back(runs[i].1);
    } else {
        lemma_run_words(runs.drop_last(), i);
        let before = run_words(runs.drop_last());
        assert(all.subrange(12 * i, 12 * i + 4) =~= before.subrange(12 * i, 12 * i + 4));
        assert(all.subrange(12 * i + 4, 12 * i + 8) =~= before.subrange(12 * i + 4, 12 * i + 8));
    }
}

/// Whether an index fits the tables of a movie.
pub open spec fn index_fits(index: IndexView) -> bool {
    &&& index.sizes.len() <= u32::MAX
    &&& index.sync.len() == index.sizes.len()
    &&& index.chunks.len() < u32::MAX
    &&& forall|i: int| 0 <= i < index.sizes.len() ==> 0 <= #[trigger] index.sizes[i] <= u32::MAX
    &&& forall|c: int|
        0 <= c < index.chunks.len() ==> 0 <= (#[trigger] index.chunks[c]).0 <= u64::MAX && 0
            <= index.chunks[c].1 <= u32::MAX
}

/// The entries of a sample-to-chunk box: first chunk and samples per chunk.
pub open spec fn read_runs(stsc: Seq<u8>) -> Seq<(int, int)> {
    Seq::new(
        u32_at(stsc, 4) as nat,
        |k: int| (u32_at(stsc, 8 + 12 * k), u32_at(stsc, 12 + 12 * k)),
    )
}

/// Whether a sync-sample box names sample `i` (from 0).
pub open spec fn names_sample(stss: Seq<u8>, i: int) -> bool {
    exists|k: int| 0 <= k < u32_at(stss, 4) && #[trigger] u32_at(stss, 8 + 4 * k) == i + 1
}

/// Whether a time-to-sample box says that `n` samples each last `delta`.
pub open spec fn lasts_each(stts: Seq<u8>, n: int, delta: int) -> bool {
    if n == 0 {
        u32_at(stts, 4) == 0
    } else {
        u32_at(stts, 4) == 1 && u32_at(stts, 8) == n && u32_at(stts, 12) == delta
    }
}

/// Whether a player reads an index in a sample table: how long each sample lasts, its size, whether
/// decoding can start at it, and for each chunk its position and its number of samples.
pub open spec fn reads_as(stbl: Seq<u8>, index: IndexView, delta: int) -> bool {
    let n = index.sizes.len() as int;
    &&& child(stbl, fourcc::STTS@) matches Some(stts) && lasts_each(stts, n, delta)
    &&& child(stbl, fourcc::STSZ@) matches Some(stsz) && u32_at(stsz, 4) == 0 && u32_at(stsz, 8)
        == n && forall|i: int|
        0 <= i < n ==> u32_at(stsz, 12 + 4 * i) == #[trigger] index.sizes[i]
    &&& child(stbl, fourcc::CO64@) matches Some(co64) && u32_at(co64, 4) == index.chunks.len()
        && forall|c: int|
        0 <= c < index.chunks.len() ==> u64_at(co64, 8 + 8 * c) == (#[trigger] index.chunks[c]).0
    &&& child(stbl, fourcc::STSC@) matches Some(stsc) && forall|c: int|
        0 <= c < index.chunks.len() ==> samples_by_runs(read_runs(stsc), c) == (
        #[trigger] index.chunks[c]).1
    &&& match child(stbl, fourcc::STSS@) {
        None => forall|i: int| 0 <= i < n ==> #[trigger] index.sync[i],
        Some(stss) => forall|i: int|
            0 <= i < n ==> (#[trigger] index.sync[i] <==> names_sample(stss, i)),
    }
}

/// The time-to-sample box is read.
proof fn lemma_stts(n: int, delta: int)
    requires
        0 <= n <= u32::MAX,
        0 <= delta <= u32::MAX,
    ensures
        ({
            let rest = if n == 0 {
                be32(0)
            } else {
                be32(1) + be32(n) + be32(delta)
            };
            &&& stts_bytes(n, delta) == box_bytes(fourcc::STTS@, full_payload(0, 0, rest))
            &&& lasts_each(full_payload(0, 0, rest), n, delta)
            &&& full_payload(0, 0, rest).len() <= 16
        }),
{
    let rest = if n == 0 {
        be32(0)
    } else {
        be32(1) + be32(n) + be32(delta)
    };
    let p = full_payload(0, 0, rest);
    if n == 0 {
        assert(p.subrange(4, 8) =~= be32(0));
        lemma_be32_reads_back(0);
    } else {
        assert(p.subrange(4, 8) =~= be32(1));
        assert(p.subrange(8, 12) =~= be32(n));
        assert(p.subrange(12, 16) =~= be32(delta));
        lemma_be32_reads_back(1);
        lemma_be32_reads_back(n);
        lemma_be32_reads_back(delta);
    }
}

/// The sample-size box is read.
proof fn lemma_stsz(sizes: Seq<int>)
    requires
        sizes.len() <= u32::MAX,
        forall|i: int| 0 <= i < sizes.len() ==> 0 <= #[trigger] sizes[i] <= u32::MAX,
    ensures
        ({
            let p = full_payload(0, 0, be32(0) + be32(sizes.len() as int) + words(sizes));
            &&& stsz_bytes(sizes) == box_bytes(fourcc::STSZ@, p)
            &&& p.len() == 12 + 4 * sizes.len()
            &&& u32_at(p, 4) == 0
            &&& u32_at(p, 8) == sizes.len()
            &&& forall|i: int|
                0 <= i < sizes.len() ==> u32_at(p, 12 + 4 * i) == #[trigger] sizes[i]
        }),
{
    let n = sizes.len() as int;
    let p = full_payload(0, 0, be32(0) + be32(n) + words(sizes));
    lemma_words_len(sizes);
    assert(p.subrange(4, 8) =~= be32(0));
    assert(p.subrange(8, 12) =~= be32(n));
    lemma_be32_reads_back(0);
    lemma_be32_reads_back(n);
    assert forall|i: int| 0 <= i < n implies u32_at(p, 12 + 4 * i) == #[trigger] sizes[i] by {
        lemma_words(sizes, i);
        assert(p.subrange(12 + 4 * i, 16 + 4 * i) =~= words(sizes).subrange(4 * i, 4 * i + 4));
    }
}

/// The chunk-offset box is read.
proof fn lemma_co64(chunks: Seq<(int, int)>)
    requires
        chunks.len() <= u32::MAX,
        forall|c: int| 0 <= c < chunks.len() ==> 0 <= (#[trigger] chunks[c]).0 <= u64::MAX,
    ensures
        ({
            let p = full_payload(0, 0, be32(chunks.len() as int) + longs(chunk_offsets(chunks)));
            &&& co64_bytes(chunks) == box_bytes(fourcc::CO64@, p)
            &&& p.len() == 8 + 8 * chunks.len()
            &&& u32_at(p, 4) == chunks.len()
            &&& forall|c: int|
                0 <= c < chunks.len() ==> u64_at(p, 8 + 8 * c) == (#[trigger] chunks[c]).0
        }),
{
    let n = chunks.len() as int;
    let offsets = chunk_offsets(chunks);
    let p = full_payload(0, 0, be32(n) + longs(offsets));
    lemma_longs_len(offsets);
    assert(p.subrange(4, 8) =~= be32(n));
    lemma_be32_reads_back(n);
    assert forall|c: int| 0 <= c < n implies u64_at(p, 8 + 8 * c) == (#[trigger] chunks[c]).0 by {
        assert(offsets[c] == chunks[c].0);
        lemma_longs(offsets, c);
        assert(p.subrange(8 + 8 * c, 16 + 8 * c) =~= longs(offsets).subrange(8 * c, 8 * c + 8));
    }
}

/// Runs begin within the chunks and hold as many samples as a chunk.
proof fn lemma_runs_fit(chunks: Seq<(int, int)>, n: int)
    requires
        0 <= n <= chunks.len(),
        forall|c: int| 0 <= c < chunks.len() ==> 0 <= (#[trigger] chunks[c]).1 <= u32::MAX,
    ensures
        chunk_runs(chunks, n).len() <= n,
        forall|k: int|
            0 <= k < chunk_runs(chunks, n).len() ==> 1 <= (#[trigger] chunk_runs(chunks, n)[k]).0
                <= n && 0 <= chunk_runs(chunks, n)[k].1 <= u32::MAX,
    decreases n,
{
    if n > 0 {
        lemma_runs_fit(chunks, n - 1);
    }
}

/// The sample-to-chunk box is read.
proof fn lemma_stsc(chunks: Seq<(int, int)>)
    requires
        chunks.len() < u32::MAX,
        forall|c: int| 0 <= c < chunks.len() ==> 0 <= (#[trigger] chunks[c]).1 <= u32::MAX,
    ensures
        ({
            let runs = chunk_runs(chunks, chunks.len() as int);
            let p = full_payload(0, 0, be32(runs.len() as int) + run_words(runs));
            &&& stsc_bytes(chunks) == box_bytes(fourcc::STSC@, p)
            &&& p.len() <= 8 + 12 * chunks.len()
            &&& forall|c: int|
                0 <= c < chunks.len() ==> samples_by_runs(read_runs(p), c) == (
                #[trigger] chunks[c]).1
        }),
{
    let n = chunks.len() as int;
    let runs = chunk_runs(chunks, n);
    let p = full_payload(0, 0, be32(runs.len() as int) + run_words(runs));
    lemma_runs_fit(chunks, n);
    lemma_run_words_len(runs);
    assert(p.subrange(4, 8) =~= be32(runs.len() as int));
    lemma_be32_reads_back(runs.len() as int);
    assert(read_runs(p) =~= runs) by {
        assert forall|k: int| 0 <= k < runs.len() implies #[trigger] read_runs(p)[k] == runs[k] by {
            lemma_run_words(runs, k);
            let w = run_words(runs);
            assert(p.subrange(8 + 12 * k, 12 + 12 * k) =~= w.subrange(12 * k, 12 * k + 4));
            assert(p.subrange(12 + 12 * k, 16 + 12 * k) =~= w.subrange(12 * k + 4, 12 * k + 8));
        }
    }
    assert forall|c: int| 0 <= c < n implies samples_by_runs(read_runs(p), c) == (
    #[trigger] chunks[c]).1 by {
        lemma_chunk_runs_decode(chunks, n, c);
    }
}

/// The numbers of the sync samples are theirs.
proof fn lemma_sync_numbers(sync: Seq<bool>, n: int)
    requires
        0 <= n <= sync.len(),
    ensures
        sync_numbers(sync, n).len() <= n,
        forall|k: int|
            0 <= k < sync_numbers(sync, n).len() ==> 1 <= #[trigger] sync_numbers(sync, n)[k] <= n
                && sync[sync_numbers(sync, n)[k] - 1],
        forall|i: int|
            0 <= i < n && #[trigger] sync[i] ==> sync_numbers(sync, n).contains(i + 1),
    decreases n,
{
    if n > 0 {
        lemma_sync_numbers(sync, n - 1);
        let before = sync_numbers(sync, n - 1);
        let all = sync_numbers(sync, n);
        assert forall|i: int| 0 <= i < n && #[trigger] sync[i] implies all.contains(i + 1) by {
            if i < n - 1 {
                let k = choose|k: int| 0 <= k < before.len() && before[k] == i + 1;
                assert(all[k] == i + 1);
            } else {
                assert(all[all.len() - 1] == n);
            }
        }
    }
}

/// The sync-sample box is read.
proof fn lemma_stss(sync: Seq<bool>)
    requires
        sync.len() <= u32::MAX,
    ensures
        ({
            let numbers = sync_numbers(sync, sync.len() as int);
            let p = full_payload(0, 0, be32(numbers.len() as int) + words(numbers));
            &&& stss_bytes(sync) == box_bytes(fourcc::STSS@, p)
            &&& p.len() <= 8 + 4 * sync.len()
            &&& forall|i: int|
                0 <= i < sync.len() ==> (#[trigger] sync[i] <==> names_sample(p, i))
        }),
{
    let n = sync.len() as int;
    let numbers = sync_numbers(sync, n);
    let p = full_payload(0, 0, be32(numbers.len() as int) + words(numbers));
    lemma_sync_numbers(sync, n);
    lemma_words_len(numbers);
    assert(p.subrange(4, 8) =~= be32(numbers.len() as int));
    lemma_be32_reads_back(numbers.len() as int);
    assert forall|k: int| 0 <= k < numbers.len() implies u32_at(p, 8 + 4 * k)
        == #[trigger] numbers[k] by {
        lemma_words(numbers, k);
        assert(p.subrange(8 + 4 * k, 12 + 4 * k) =~= words(numbers).subrange(4 * k, 4 * k + 4));
    }
    assert forall|i: int| 0 <= i < n implies (#[trigger] sync[i] <==> names_sample(p, i)) by {
        if sync[i] {
            assert(numbers.contains(i + 1));
            let k = choose|k: int| 0 <= k < numbers.len() && numbers[k] == i + 1;
            assert(u32_at(p, 8 + 4 * k) == i + 1);
        }
        if names_sample(p, i) {
            let k = choose|k: int|
                0 <= k < u32_at(p, 4) && #[trigger] u32_at(p, 8 + 4 * k) == i + 1;
            assert(numbers[k] == i + 1);
        }
    }
}

/// The parts of a sample table, and the table.
pub open spec fn stbl_payload(entry: Seq<u8>, index: IndexView, delta: int) -> Seq<u8> {
    crate::mux::boxes::stsd_bytes(entry) + stts_bytes(index.sizes.len() as int, delta) + (
    if all_sync(index.sync) {
        Seq::empty()
    } else {
        stss_bytes(index.sync)
    }) + stsc_bytes(index.chunks) + stsz_bytes(index.sizes) + co64_bytes(index.chunks)
}

/// Law: a player reads in a track's sample table what was written of the track: how long each sample
/// lasts, how long it is and whether decoding can start at it, where each chunk lies and how many
/// samples it holds; and the description of the samples.
pub proof fn lemma_sample_table_reads_back(entry: Seq<u8>, index: IndexView, delta: int)
    requires
        index_fits(index),
        0 <= delta <= u32::MAX,
        stbl_bytes(entry, index, delta).len() <= u32::MAX,
    ensures
        ({
            let stbl = stbl_payload(entry, index, delta);
            &&& stbl_bytes(entry, index, delta) == box_bytes(fourcc::STBL@, stbl)
            &&& reads_as(stbl, index, delta)
            &&& child(stbl, fourcc::STSD@) == Some(full_payload(0, 0, be32(1) + entry))
        }),
{
    let n = index.sizes.len() as int;
    let stsd_p = full_payload(0, 0, be32(1) + entry);
    let rest = if n == 0 {
        be32(0)
    } else {
        be32(1) + be32(n) + be32(delta)
    };
    let stts_p = full_payload(0, 0, rest);
    let numbers = sync_numbers(index.sync, n);
    let stss_p = full_payload(0, 0, be32(numbers.len() as int) + words(numbers));
    let runs = chunk_runs(index.chunks, index.chunks.len() as int);
    let stsc_p = full_payload(0, 0, be32(runs.len() as int) + run_words(runs));
    let stsz_p = full_payload(0, 0, be32(0) + be32(n) + words(index.sizes));
    let co64_p = full_payload(
        0,
        0,
        be32(index.chunks.len() as int) + longs(chunk_offsets(index.chunks)),
    );
    lemma_codes();
    lemma_stts(n, delta);
    lemma_stss(index.sync);
    lemma_stsc(index.chunks);
    lemma_stsz(index.sizes);
    lemma_co64(index.chunks);
    let stbl = stbl_payload(entry, index, delta);
    let a = box_bytes(fourcc::STSD@, stsd_p);
    let b = box_bytes(fourcc::STTS@, stts_p);
    let c = if all_sync(index.sync) {
        Seq::empty()
    } else {
        box_bytes(fourcc::STSS@, stss_p)
    };
    let d = box_bytes(fourcc::STSC@, stsc_p);
    let e = box_bytes(fourcc::STSZ@, stsz_p);
    let f = box_bytes(fourcc::CO64@, co64_p);
    assert(stbl == a + b + c + d + e + f);
    let t5 = e + f;
    let t4 = d + t5;
    let t3 = c + t4;
    let t2 = b + t3;
    assert(stbl =~= a + t2);
    crate::mux::boxes::lemma_box_len(fourcc::STBL@, stbl);
    crate::mux::boxes::lemma_box_len(fourcc::STSD@, stsd_p);
    crate::mux::boxes::lemma_box_len(fourcc::STTS@, stts_p);
    crate::mux::boxes::lemma_box_len(fourcc::STSS@, stss_p);
    crate::mux::boxes::lemma_box_len(fourcc::STSC@, stsc_p);
    crate::mux::boxes::lemma_box_len(fourcc::STSZ@, stsz_p);
    crate::mux::boxes::lemma_box_len(fourcc::CO64@, co64_p);
    lemma_differ();
    lemma_six_children(stsd_p, stts_p, c, stss_p, stsc_p, stsz_p, co64_p);
}

/// The types of the boxes of a sample table differ.
proof fn lemma_differ()
    ensures
        fourcc::STSD@ != fourcc::STTS@,
        fourcc::STSD@ != fourcc::STSS@,
        fourcc::STSD@ != fourcc::STSC@,
        fourcc::STSD@ != fourcc::STSZ@,
        fourcc::STSD@ != fourcc::CO64@,
        fourcc::STTS@ != fourcc::STSS@,
        fourcc::STTS@ != fourcc::STSC@,
        fourcc::STTS@ != fourcc::STSZ@,
        fourcc::STTS@ != fourcc::CO64@,
        fourcc::STSS@ != fourcc::STSC@,
        fourcc::STSS@ != fourcc::STSZ@,
        fourcc::STSS@ != fourcc::CO64@,
        fourcc::STSC@ != fourcc::STSZ@,
        fourcc::STSC@ != fourcc::CO64@,
        fourcc::STSZ@ != fourcc::CO64@,
{
    lemma_codes();
    assert(fourcc::STSD@[3] == 0x64 && fourcc::STTS@[3] == 0x73 && fourcc::STSS@[3] == 0x73);
    assert(fourcc::STSC@[3] == 0x63 && fourcc::STSZ@[3] == 0x7A && fourcc::CO64@[3] == 0x34);
    assert(fourcc::STTS@[2] == 0x74 && fourcc::STSS@[2] == 0x73);
}

/// Each box of a sample table is found.
proof fn lemma_six_children(
    stsd: Seq<u8>,
    stts: Seq<u8>,
    between: Seq<u8>,
    stss: Seq<u8>,
    stsc: Seq<u8>,
    stsz: Seq<u8>,
    co64: Seq<u8>,
)
    requires
        stsd.len() + 8 <= u32::MAX,
        stts.len() + 8 <= u32::MAX,
        stsc.len() + 8 <= u32::MAX,
        stsz.len() + 8 <= u32::MAX,
        co64.len() + 8 <= u32::MAX,
        between.len() == 0 || (between == box_bytes(fourcc::STSS@, stss) && stss.len() + 8
            <= u32::MAX),
    ensures
        ({
            let s = box_bytes(fourcc::STSD@, stsd) + box_bytes(fourcc::STTS@, stts) + between
                + box_bytes(fourcc::STSC@, stsc) + box_bytes(fourcc::STSZ@, stsz) + box_bytes(
                fourcc::CO64@,
                co64,
            );
            &&& child(s, fourcc::STSD@) == Some(stsd)
            &&& child(s, fourcc::STTS@) == Some(stts)
            &&& child(s, fourcc::STSS@) == if between.len() == 0 {
                None
            } else {
                Some(stss)
            }
            &&& child(s, fourcc::STSC@) == Some(stsc)
            &&& child(s, fourcc::STSZ@) == Some(stsz)
            &&& child(s, fourcc::CO64@) == Some(co64)
        }),
{
    lemma_differ();
    let f = box_bytes(fourcc::CO64@, co64);
    let e = box_bytes(fourcc::STSZ@, stsz) + f;
    let d = box_bytes(fourcc::STSC@, stsc) + e;
    let c = between + d;
    let b = box_bytes(fourcc::STTS@, stts) + c;
    let s = box_bytes(fourcc::STSD@, stsd) + b;
    assert(s =~= box_bytes(fourcc::STSD@, stsd) + box_bytes(fourcc::STTS@, stts) + between
        + box_bytes(fourcc::STSC@, stsc) + box_bytes(fourcc::STSZ@, stsz) + f);
    assert forall|typ: Seq<u8>| #[trigger] child(s, typ) == (if fourcc::STSD@ == typ {
        Some(stsd)
    } else if fourcc::STTS@ == typ {
        Some(stts)
    } else if between.len() > 0 && fourcc::STSS@ == typ {
        Some(stss)
    } else if fourcc::STSC@ == typ {
        Some(stsc)
    } else if fourcc::STSZ@ == typ {
        Some(stsz)
    } else if fourcc::CO64@ == typ {
        Some(co64)
    } else {
        None
    }) by {
        lemma_child(fourcc::STSD@, stsd, b, typ);
        lemma_child(fourcc::STTS@, stts, c, typ);
        if between.len() > 0 {
            lemma_child(fourcc::STSS@, stss, d, typ);
        } else {
            assert(c =~= d);
        }
        lemma_child(fourcc::STSC@, stsc, e, typ);
        lemma_child(fourcc::STSZ@, stsz, f, typ);
        lemma_last_child(fourcc::CO64@, co64, typ);
    }
}

} // verus!
