//! What a player reads in a fragment, and what a search for a box finds in a file.

use vstd::prelude::*;

use crate::bytes::{be32, be64, lemma_be32_reads_back, lemma_be64_reads_back};
use crate::mux::boxes::{box_bytes, full_box_bytes, joined};
use crate::mux::decode::{
    child, full_payload, lemma_child, lemma_codes, lemma_last_child, u32_at, u64_at,
};
use crate::mux::fourcc;
use crate::mux::fragment::{
    mdat_bytes, moof_bytes, moof_len, payloads, run_entries, sample_flags, traf_bytes, SampleView,
};
use crate::mux::reader::{box_from, header_at, header_times, place_from, rounded_ms, stands_at};

verus! {

/// The type `moof`.
pub open spec fn moof_type() -> Seq<u8> {
    seq![0x6Du8, 0x6F, 0x6F, 0x66]
}

/// The type `mfhd`.
pub open spec fn mfhd_type() -> Seq<u8> {
    seq![0x6Du8, 0x66, 0x68, 0x64]
}

/// The type `traf`.
pub open spec fn traf_type() -> Seq<u8> {
    seq![0x74u8, 0x72, 0x61, 0x66]
}

/// The type `tfhd`.
pub open spec fn tfhd_type() -> Seq<u8> {
    seq![0x74u8, 0x66, 0x68, 0x64]
}

/// The type `tfdt`.
pub open spec fn tfdt_type() -> Seq<u8> {
    seq![0x74u8, 0x66, 0x64, 0x74]
}

/// The type `trun`.
pub open spec fn trun_type() -> Seq<u8> {
    seq![0x74u8, 0x72, 0x75, 0x6E]
}

/// Whether entry `i` of a run box is a sample's: how long the sample lasts, its size, and whether
/// decoding can start at it.
pub open spec fn entry_reads(trun: Seq<u8>, i: int, delta: int, sample: SampleView) -> bool {
    &&& u32_at(trun, 12 + 12 * i) == delta
    &&& u32_at(trun, 16 + 12 * i) == sample.0.len()
    &&& u32_at(trun, 20 + 12 * i) == if sample.1 {
        0x0200_0000int
    } else {
        0x0101_0000
    }
}

/// Whether a run box lists samples: how many there are, and an entry for each.
pub open spec fn lists(trun: Seq<u8>, delta: int, samples: Seq<SampleView>) -> bool {
    &&& u32_at(trun, 0) == 0x0701
    &&& u32_at(trun, 4) == samples.len()
    &&& forall|i: int| 0 <= i < samples.len() ==> entry_reads(trun, i, delta, #[trigger] samples[i])
}

/// Whether a fragment's numbers can be held in its boxes.
pub open spec fn fragment_fits(
    number: int,
    track: int,
    time: int,
    delta: int,
    samples: Seq<SampleView>,
) -> bool {
    &&& 0 <= number <= u32::MAX
    &&& 0 <= track <= u32::MAX
    &&& 0 <= time <= u64::MAX
    &&& 0 <= delta <= u32::MAX
    &&& 12 * samples.len() + 96 <= u32::MAX
    &&& forall|i: int| 0 <= i < samples.len() ==> (#[trigger] samples[i]).0.len() <= u32::MAX
}

/// Each sample's entry takes twelve bytes, and stands where it belongs.
proof fn lemma_entries(delta: int, samples: Seq<SampleView>, i: int)
    requires
        0 <= delta <= u32::MAX,
        0 <= i < samples.len(),
        samples[i].0.len() <= u32::MAX,
    ensures
        run_entries(delta, samples).len() == 12 * samples.len(),
        u32_at(run_entries(delta, samples), 12 * i) == delta,
        u32_at(run_entries(delta, samples), 12 * i + 4) == samples[i].0.len(),
        u32_at(run_entries(delta, samples), 12 * i + 8) == if samples[i].1 {
            0x0200_0000int
        } else {
            0x0101_0000
        },
    decreases samples.len(),
{
    let init = samples.drop_last();
    let before = run_entries(delta, init);
    let all = run_entries(delta, samples);
    lemma_entries_len(delta, init);
    lemma_entries_len(delta, samples);
    if i == samples.len() - 1 {
        let size = samples[i].0.len() as int;
        let flags = sample_flags(samples[i].1);
        assert(all.subrange(12 * i, 12 * i + 4) =~= be32(delta));
        assert(all.subrange(12 * i + 4, 12 * i + 8) =~= be32(size));
        assert(all.subrange(12 * i + 8, 12 * i + 12) =~= be32(flags));
        lemma_be32_reads_back(delta);
        lemma_be32_reads_back(size);
        lemma_be32_reads_back(flags);
    } else {
        lemma_entries(delta, init, i);
        assert(all.subrange(12 * i, 12 * i + 4) =~= before.subrange(12 * i, 12 * i + 4));
        assert(all.subrange(12 * i + 4, 12 * i + 8) =~= before.subrange(12 * i + 4, 12 * i + 8));
        assert(all.subrange(12 * i + 8, 12 * i + 12) =~= before.subrange(12 * i + 8, 12 * i + 12));
    }
}

/// Each sample's entry takes twelve bytes.
proof fn lemma_entries_len(delta: int, samples: Seq<SampleView>)
    ensures
        run_entries(delta, samples).len() == 12 * samples.len(),
    decreases samples.len(),
{
    if samples.len() > 0 {
        lemma_entries_len(delta, samples.drop_last());
    }
}

/// The version and the flags of a full box, read as one number.
proof fn lemma_full(version: int, flags: int, rest: Seq<u8>)
    requires
        0 <= version <= 1,
        0 <= flags < 0x100_0000,
    ensures
        full_payload(version, flags, rest).len() == 4 + rest.len(),
        u32_at(full_payload(version, flags, rest), 0) == version * 0x100_0000 + flags,
        full_payload(version, flags, rest).skip(4) == rest,
{
    let s = full_payload(version, flags, rest);
    lemma_be32_reads_back(version * 0x100_0000 + flags);
    assert(s.subrange(0, 4) =~= be32(version * 0x100_0000 + flags));
    assert(s.skip(4) =~= rest);
}

/// The payload of a run box reads as its samples.
proof fn lemma_run_reads_back(delta: int, samples: Seq<SampleView>)
    requires
        fragment_fits(0, 0, 0, delta, samples),
    ensures
        ({
            let trun = full_payload(
                0,
                0x0701,
                be32(samples.len() as int) + be32(moof_len(samples.len() as int) + 8) + run_entries(
                    delta,
                    samples,
                ),
            );
            &&& lists(trun, delta, samples)
            &&& u32_at(trun, 8) == 96 + 12 * samples.len()
            &&& trun.len() == 12 + 12 * samples.len()
        }),
{
    let n = samples.len() as int;
    let entries = run_entries(delta, samples);
    let start = be32(n) + be32(moof_len(n) + 8);
    let head = full_payload(0, 0x0701, start);
    lemma_run_head(n, moof_len(n) + 8);
    assert(full_payload(0, 0x0701, start + entries) =~= head + entries);
    lemma_entries_len(delta, samples);
    lemma_listed(head, delta, samples);
    assert((head + entries).subrange(8, 12) =~= head.subrange(8, 12));
}

/// The numbers before the entries of a run.
proof fn lemma_run_head(n: int, offset: int)
    requires
        0 <= n <= u32::MAX,
        0 <= offset <= u32::MAX,
    ensures
        ({
            let head = full_payload(0, 0x0701, be32(n) + be32(offset));
            &&& head.len() == 12
            &&& u32_at(head, 0) == 0x0701
            &&& u32_at(head, 4) == n
            &&& u32_at(head, 8) == offset
        }),
{
    let start = be32(n) + be32(offset);
    let head = full_payload(0, 0x0701, start);
    lemma_full(0, 0x0701, start);
    lemma_be32_reads_back(n);
    lemma_be32_reads_back(offset);
    assert(head.subrange(4, 8) =~= be32(n));
    assert(head.subrange(8, 12) =~= be32(offset));
}

/// Entries behind the numbers of a run list its samples.
proof fn lemma_listed(head: Seq<u8>, delta: int, samples: Seq<SampleView>)
    requires
        fragment_fits(0, 0, 0, delta, samples),
        head.len() == 12,
        u32_at(head, 0) == 0x0701,
        u32_at(head, 4) == samples.len(),
    ensures
        lists(head + run_entries(delta, samples), delta, samples),
{
    let entries = run_entries(delta, samples);
    let trun = head + entries;
    lemma_entries_len(delta, samples);
    assert(trun.subrange(0, 4) =~= head.subrange(0, 4));
    assert(trun.subrange(4, 8) =~= head.subrange(4, 8));
    assert(u32_at(trun, 0) == u32_at(head, 0));
    assert(u32_at(trun, 4) == u32_at(head, 4));
    assert forall|i: int| 0 <= i < samples.len() implies entry_reads(
        trun,
        i,
        delta,
        #[trigger] samples[i],
    ) by {
        lemma_entries(delta, samples, i);
        lemma_shifted(head, entries, 12 * i);
        lemma_shifted(head, entries, 12 * i + 4);
        lemma_shifted(head, entries, 12 * i + 8);
    }
}

/// What stands behind twelve bytes is read twelve bytes later.
proof fn lemma_shifted(head: Seq<u8>, s: Seq<u8>, i: int)
    requires
        head.len() == 12,
        0 <= i,
        i + 4 <= s.len(),
    ensures
        u32_at(head + s, 12 + i) == u32_at(s, i),
{
    assert((head + s).subrange(12 + i, 16 + i) =~= s.subrange(i, i + 4));
}

/// A full box is a box with a full payload.
proof fn lemma_full_box(typ: Seq<u8>, version: int, flags: int, rest: Seq<u8>)
    ensures
        full_box_bytes(typ, version, flags, rest) == box_bytes(
            typ,
            full_payload(version, flags, rest),
        ),
{
    assert(full_box_bytes(typ, version, flags, rest) =~= box_bytes(
        typ,
        full_payload(version, flags, rest),
    ));
}

/// Whether a fragment reads as samples of a track: its number, its track, the time of its first sample,
/// and its run, whose bytes lie where the run says, from the start of the fragment on.
pub open spec fn fragment_reads(
    file: Seq<u8>,
    number: int,
    track: int,
    time: int,
    delta: int,
    samples: Seq<SampleView>,
) -> bool {
    &&& child(file, moof_type()) matches Some(moof) && {
        &&& child(moof, mfhd_type()) matches Some(mfhd) && u32_at(mfhd, 4) == number
        &&& child(moof, traf_type()) matches Some(traf) && {
            &&& child(traf, tfhd_type()) matches Some(tfhd) && u32_at(tfhd, 0) == 0x0002_0000
                && u32_at(tfhd, 4) == track && tfhd.len() == 8
            &&& child(traf, tfdt_type()) matches Some(tfdt) && u32_at(tfdt, 0) == 0x0100_0000
                && u64_at(tfdt, 4) == time
            &&& child(traf, trun_type()) matches Some(trun) && lists(trun, delta, samples)
                && file.skip(u32_at(trun, 8)) == joined(payloads(samples))
        }
    }
}

/// Law: a fragment reads back: a player finds in it the number, the track and the time that it was
/// made with, and every sample with its length, its bytes and whether decoding can start at it.
pub proof fn lemma_fragment_reads_back(
    number: int,
    track: int,
    time: int,
    delta: int,
    samples: Seq<SampleView>,
)
    requires
        fragment_fits(number, track, time, delta, samples),
    ensures
        fragment_reads(
            moof_bytes(number, track, time, delta, samples) + mdat_bytes(samples),
            number,
            track,
            time,
            delta,
            samples,
        ),
{
    lemma_codes();
    let n = samples.len() as int;
    let rest = be32(n) + be32(moof_len(n) + 8) + run_entries(delta, samples);
    let trun = full_payload(0, 0x0701, rest);
    let tfhd = full_payload(0, 0x0002_0000, be32(track));
    let tfdt = full_payload(1, 0, be64(time));
    let mfhd = full_payload(0, 0, be32(number));
    lemma_full_box(fourcc::TRUN@, 0, 0x0701, rest);
    lemma_full_box(fourcc::TFHD@, 0, 0x0002_0000, be32(track));
    lemma_full_box(fourcc::TFDT@, 1, 0, be64(time));
    lemma_full_box(fourcc::MFHD@, 0, 0, be32(number));
    lemma_run_reads_back(delta, samples);
    lemma_track_part(tfhd, tfdt, trun);
    let traf = box_bytes(tfhd_type(), tfhd) + box_bytes(tfdt_type(), tfdt) + box_bytes(
        trun_type(),
        trun,
    );
    lemma_word_behind(0, number);
    lemma_word_behind(0x0002_0000, track);
    lemma_long_behind(time);
    assert(traf_bytes(track, time, delta, samples) == box_bytes(traf_type(), traf));
    lemma_movie_part(mfhd, traf);
    let moof = box_bytes(mfhd_type(), mfhd) + box_bytes(traf_type(), traf);
    reveal(moof_bytes);
    assert(moof_bytes(number, track, time, delta, samples) == box_bytes(moof_type(), moof));
    let data = mdat_bytes(samples);
    lemma_child(moof_type(), moof, data, moof_type());
    let file = box_bytes(moof_type(), moof) + data;
    assert(moof.len() == 80 + 12 * n);
    assert(file.skip(96 + 12 * n) =~= joined(payloads(samples))) by {
        reveal(box_bytes);
        reveal(mdat_bytes);
    }
}

/// A number behind a version and flags reads back.
proof fn lemma_word_behind(flags: int, n: int)
    requires
        0 <= flags < 0x100_0000,
        0 <= n <= u32::MAX,
    ensures
        u32_at(full_payload(0, flags, be32(n)), 0) == flags,
        u32_at(full_payload(0, flags, be32(n)), 4) == n,
        full_payload(0, flags, be32(n)).len() == 8,
{
    lemma_full(0, flags, be32(n));
    lemma_be32_reads_back(n);
    assert(full_payload(0, flags, be32(n)).subrange(4, 8) =~= be32(n));
}

/// A long number behind a version and flags reads back.
proof fn lemma_long_behind(n: int)
    requires
        0 <= n <= u64::MAX,
    ensures
        u32_at(full_payload(1, 0, be64(n)), 0) == 0x0100_0000,
        u64_at(full_payload(1, 0, be64(n)), 4) == n,
        full_payload(1, 0, be64(n)).len() == 12,
{
    lemma_full(1, 0, be64(n));
    lemma_be64_reads_back(n);
    assert(full_payload(1, 0, be64(n)).subrange(4, 12) =~= be64(n));
}

/// The parts of a track fragment are found.
proof fn lemma_track_part(tfhd: Seq<u8>, tfdt: Seq<u8>, trun: Seq<u8>)
    requires
        tfhd.len() == 8,
        tfdt.len() == 12,
        trun.len() + 8 <= u32::MAX,
    ensures
        ({
            let traf = box_bytes(tfhd_type(), tfhd) + box_bytes(tfdt_type(), tfdt) + box_bytes(
                trun_type(),
                trun,
            );
            &&& traf.len() == 44 + trun.len()
            &&& child(traf, tfhd_type()) == Some(tfhd)
            &&& child(traf, tfdt_type()) == Some(tfdt)
            &&& child(traf, trun_type()) == Some(trun)
        }),
{
    let last = box_bytes(trun_type(), trun);
    let rest = box_bytes(tfdt_type(), tfdt) + last;
    let traf = box_bytes(tfhd_type(), tfhd) + box_bytes(tfdt_type(), tfdt) + last;
    assert(traf =~= box_bytes(tfhd_type(), tfhd) + rest);
    assert(tfhd_type()[2] != tfdt_type()[2] && tfhd_type()[1] != trun_type()[1] && tfdt_type()[1]
        != trun_type()[1]);
    lemma_child(tfhd_type(), tfhd, rest, tfhd_type());
    lemma_child(tfhd_type(), tfhd, rest, tfdt_type());
    lemma_child(tfhd_type(), tfhd, rest, trun_type());
    lemma_child(tfdt_type(), tfdt, last, tfdt_type());
    lemma_child(tfdt_type(), tfdt, last, trun_type());
    lemma_last_child(trun_type(), trun, trun_type());
    reveal(box_bytes);
}

/// The parts of a movie fragment are found.
proof fn lemma_movie_part(mfhd: Seq<u8>, traf: Seq<u8>)
    requires
        mfhd.len() == 8,
        traf.len() + 8 <= u32::MAX,
    ensures
        ({
            let moof = box_bytes(mfhd_type(), mfhd) + box_bytes(traf_type(), traf);
            &&& moof.len() == 24 + traf.len()
            &&& child(moof, mfhd_type()) == Some(mfhd)
            &&& child(moof, traf_type()) == Some(traf)
        }),
{
    let last = box_bytes(traf_type(), traf);
    assert(mfhd_type()[0] != traf_type()[0]);
    lemma_child(mfhd_type(), mfhd, last, mfhd_type());
    lemma_child(mfhd_type(), mfhd, last, traf_type());
    lemma_last_child(traf_type(), traf, traf_type());
    reveal(box_bytes);
}

/// Law: a search passes over a box of another type and stops at the first of the right one, whatever
/// stands before it and behind it.
pub proof fn lemma_search_takes_boxes_one_by_one(
    before: Seq<u8>,
    first: Seq<u8>,
    payload: Seq<u8>,
    rest: Seq<u8>,
    typ: Seq<u8>,
)
    requires
        first.len() == 4,
        payload.len() + 8 <= u32::MAX,
        before.len() + payload.len() + rest.len() + 8 <= u64::MAX,
    ensures
        ({
            let file = before + box_bytes(first, payload) + rest;
            let at = before.len() as int;
            box_from(file, at, typ) == if first == typ {
                Some(((at + 8) as u64, payload.len() as u64))
            } else {
                box_from(file, at + 8 + payload.len(), typ)
            }
        }),
{
    reveal(box_bytes);
    let file = before + box_bytes(first, payload) + rest;
    let at = before.len() as int;
    let size = payload.len() + 8;
    let header = header_at(file, at);
    lemma_be32_reads_back(size as int);
    assert(header.subrange(0, 4) =~= be32(size as int));
    assert(header.subrange(4, 8) =~= first);
}

/// Law: a box whose header gives its size in eight bytes, behind a size of one, is passed over or found
/// by that size.
pub proof fn lemma_search_takes_large_boxes(
    before: Seq<u8>,
    first: Seq<u8>,
    payload: Seq<u8>,
    rest: Seq<u8>,
    typ: Seq<u8>,
)
    requires
        first.len() == 4,
        before.len() + payload.len() + rest.len() + 16 <= u64::MAX,
    ensures
        ({
            let file = before + (be32(1) + first + be64(payload.len() + 16int)) + payload + rest;
            let at = before.len() as int;
            box_from(file, at, typ) == if first == typ {
                Some(((at + 16) as u64, payload.len() as u64))
            } else {
                box_from(file, at + 16 + payload.len(), typ)
            }
        }),
{
    let size = payload.len() + 16;
    let file = before + (be32(1) + first + be64(size as int)) + payload + rest;
    let at = before.len() as int;
    let header = header_at(file, at);
    lemma_be32_reads_back(1);
    lemma_be64_reads_back(size as int);
    assert(header.subrange(0, 4) =~= be32(1));
    assert(header.subrange(4, 8) =~= first);
    assert(header.subrange(8, 16) =~= be64(size as int));
}

/// Law: what is found is the first place where the needle stands, and nothing is found only where it
/// stands nowhere.
pub proof fn lemma_first_place_is_found(hay: Seq<u8>, needle: Seq<u8>, i: int)
    requires
        0 <= i,
        needle.len() > 0,
    ensures
        place_from(hay, needle, i) matches Some(k) ==> i <= k && k + needle.len() <= hay.len()
            && hay.subrange(k, k + needle.len()) == needle,
        place_from(hay, needle, i) matches Some(k) ==> forall|j: int|
            i <= j < k ==> hay.subrange(j, #[trigger] (j + needle.len())) != needle,
        place_from(hay, needle, i) is None ==> forall|j: int|
            i <= j && j + needle.len() <= hay.len() ==> hay.subrange(
                j,
                #[trigger] (j + needle.len()),
            ) != needle,
    decreases hay.len() - i,
{
    if i + needle.len() <= hay.len() && !stands_at(hay, needle, i) {
        lemma_first_place_is_found(hay, needle, i + 1);
    }
}

/// Law: the times of a movie header read back, in its short form and in its long one.
pub proof fn lemma_header_times_read_back(
    before: Seq<u8>,
    flags: int,
    times: Seq<u8>,
    timescale: int,
    duration: int,
    rest: Seq<u8>,
)
    requires
        0 <= timescale <= u32::MAX,
        0 <= duration,
    ensures
        times.len() == 8 && duration <= u32::MAX ==> header_times(
            before + seq![0x6Du8, 0x76, 0x68, 0x64] + full_payload(
                0,
                flags,
                times + be32(timescale) + be32(duration),
            ) + rest,
            before.len() as int,
        ) == Some((timescale, duration)),
        times.len() == 16 && duration <= u64::MAX ==> header_times(
            before + seq![0x6Du8, 0x76, 0x68, 0x64] + full_payload(
                1,
                flags,
                times + be32(timescale) + be64(duration),
            ) + rest,
            before.len() as int,
        ) == Some((timescale, duration)),
{
    let m = before.len() as int;
    let typ = seq![0x6Du8, 0x76, 0x68, 0x64];
    if times.len() == 8 && duration <= u32::MAX {
        let moov = before + typ + full_payload(0, flags, times + be32(timescale) + be32(duration))
            + rest;
        lemma_be32_reads_back(timescale);
        lemma_be32_reads_back(duration);
        assert(moov[m + 4] == 0);
        assert(moov.subrange(m + 16, m + 20) =~= be32(timescale));
        assert(moov.subrange(m + 20, m + 24) =~= be32(duration));
    }
    if times.len() == 16 && duration <= u64::MAX {
        let moov = before + typ + full_payload(1, flags, times + be32(timescale) + be64(duration))
            + rest;
        lemma_be32_reads_back(timescale);
        lemma_be64_reads_back(duration);
        assert(moov[m + 4] == 1);
        assert(moov.subrange(m + 24, m + 28) =~= be32(timescale));
        assert(moov.subrange(m + 28, m + 36) =~= be64(duration));
    }
}

/// Law: a duration in milliseconds is the nearest one, up from a half, where that can be held at all.
pub proof fn lemma_milliseconds_are_nearest(timescale: int, duration: int)
    requires
        0 < timescale,
        0 <= duration,
        duration * 1_000 <= 0xFFFF_FFFF_FFFF_FFFF,
    ensures
        ({
            let ms = rounded_ms(timescale, duration);
            -timescale < 2 * (ms * timescale - duration * 1_000) <= timescale
        }),
{
    let d = 2 * timescale;
    let n = duration * 2000 + timescale;
    vstd::arithmetic::div_mod::lemma_fundamental_div_mod(n, d);
    let ms = n / d;
    let r = n % d;
    assert(d * ms == 2 * (ms * timescale)) by (nonlinear_arith)
        requires
            d == 2 * timescale,
    ;
    assert(0 <= r < d);
    assert(ms <= u64::MAX) by (nonlinear_arith)
        requires
            d * ms + r == n,
            0 <= r,
            d == 2 * timescale,
            0 < timescale,
            n == duration * 2000 + timescale,
            duration * 1_000 <= 0xFFFF_FFFF_FFFF_FFFF,
    ;
}

} // verus!
