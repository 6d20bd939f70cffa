//! H.264 byte streams: Annex-B access units, length-prefixed samples and the decoder
//! configuration record.

use vstd::prelude::*;

use crate::bytes::{
    append, be16, be32, be_value, lemma_be32_reads_back, push_be16_low, push_be32_low,
};
use crate::seqs::{lemma_filter_none, lemma_filter_take};

verus! {

/// NAL unit type of a sequence parameter set.
pub const NAL_SPS: u8 = 7;

/// NAL unit type of a picture parameter set.
pub const NAL_PPS: u8 = 8;

/// NAL unit type of an access unit delimiter.
pub const NAL_AUD: u8 = 9;

/// Whether a start code (0, 0, 1) begins at `i`.
pub open spec fn is_start_code(data: Seq<u8>, i: int) -> bool {
    0 <= i && i + 3 <= data.len() && data[i] == 0 && data[i + 1] == 0 && data[i + 2] == 1
}

/// The positions below `n` at which a start code begins, in order.
pub open spec fn start_codes(data: Seq<u8>, n: int) -> Seq<int>
    decreases n,
{
    if n <= 0 {
        Seq::empty()
    } else if is_start_code(data, n - 1) {
        start_codes(data, n - 1).push(n - 1)
    } else {
        start_codes(data, n - 1)
    }
}

/// The end of `data[start..end]` once its trailing zero bytes are dropped.
pub open spec fn trimmed_end(data: Seq<u8>, start: int, end: int) -> int
    decreases end - start,
{
    if start < end && data[end - 1] == 0 {
        trimmed_end(data, start, end - 1)
    } else {
        end
    }
}

/// The bytes after start code `k` up to the next start code (or the end), without trailing zeros.
pub open spec fn unit_at(data: Seq<u8>, codes: Seq<int>, k: int) -> Seq<u8> {
    let start = codes[k] + 3;
    let limit = if k + 1 < codes.len() {
        codes[k + 1]
    } else {
        data.len() as int
    };
    data.subrange(start, trimmed_end(data, start, limit))
}

/// The non-empty units after the first `n` start codes.
pub open spec fn units_after(data: Seq<u8>, codes: Seq<int>, n: int) -> Seq<Seq<u8>>
    decreases n,
{
    if n <= 0 {
        Seq::empty()
    } else {
        let unit = unit_at(data, codes, n - 1);
        if unit.len() > 0 {
            units_after(data, codes, n - 1).push(unit)
        } else {
            units_after(data, codes, n - 1)
        }
    }
}

/// The NAL units of an Annex-B byte stream.
pub open spec fn nal_units(data: Seq<u8>) -> Seq<Seq<u8>> {
    let codes = start_codes(data, data.len() as int);
    units_after(data, codes, codes.len() as int)
}

/// The type of a NAL unit: the low five bits of its first byte, zero for an empty unit.
pub open spec fn unit_type(unit: Seq<u8>) -> int {
    if unit.len() == 0 {
        0
    } else {
        unit[0] as int % 32
    }
}

/// Whether a unit of this type stays out of the samples.
pub open spec fn is_out_of_band(unit: Seq<u8>) -> bool {
    NAL_SPS <= unit_type(unit) <= NAL_AUD
}

/// A unit behind its length.
pub open spec fn length_prefixed(unit: Seq<u8>) -> Seq<u8> {
    be32(unit.len() as int) + unit
}

/// The first `n` units, each behind its length, parameter sets and delimiters left out.
pub open spec fn sample_of_units(units: Seq<Seq<u8>>, n: int) -> Seq<u8>
    decreases n,
{
    if n <= 0 {
        Seq::empty()
    } else if is_out_of_band(units[n - 1]) {
        sample_of_units(units, n - 1)
    } else {
        sample_of_units(units, n - 1) + length_prefixed(units[n - 1])
    }
}

/// The length-prefixed sample of an Annex-B access unit.
pub open spec fn avcc_sample(data: Seq<u8>) -> Seq<u8> {
    sample_of_units(nal_units(data), nal_units(data).len() as int)
}

/// The type of a NAL unit.
pub fn nal_type(nal: &[u8]) -> (t: u8)
    ensures
        t == unit_type(nal@),
{
    if nal.len() == 0 {
        0
    } else {
        nal[0] % 32
    }
}

/// Every start code begins before the next one's first byte, and its three bytes are in `data`.
proof fn lemma_start_codes(data: Seq<u8>, n: int)
    requires
        0 <= n <= data.len(),
    ensures
        forall|k: int|
            0 <= k < start_codes(data, n).len() ==> is_start_code(
                data,
                #[trigger] start_codes(data, n)[k],
            ) && start_codes(data, n)[k] < n,
        forall|j: int, k: int|
            0 <= j < k < start_codes(data, n).len() ==> #[trigger] start_codes(data, n)[j] + 3
                <= #[trigger] start_codes(data, n)[k],
    decreases n,
{
    if n > 0 {
        lemma_start_codes(data, n - 1);
        let before = start_codes(data, n - 1);
        if is_start_code(data, n - 1) {
            let codes = before.push(n - 1);
            assert forall|j: int, k: int| 0 <= j < k < codes.len() implies #[trigger] codes[j] + 3
                <= #[trigger] codes[k] by {
                assert(is_start_code(data, before[j]));
                if k == before.len() {
                    if codes[j] + 1 == n - 1 {
                    }
                    if codes[j] + 2 == n - 1 {
                    }
                }
            }
        }
    }
}

/// Skipping the two bytes after the first of a start code skips no start code.
proof fn lemma_no_overlap(data: Seq<u8>, i: int)
    requires
        is_start_code(data, i),
    ensures
        start_codes(data, i + 3) == start_codes(data, i).push(i),
{
    assert(start_codes(data, i + 1) == start_codes(data, i).push(i));
    assert(!is_start_code(data, i + 1));
    assert(!is_start_code(data, i + 2));
    assert(start_codes(data, i + 2) == start_codes(data, i + 1));
    assert(start_codes(data, i + 3) == start_codes(data, i + 2));
}

/// No start code begins in the last two bytes.
proof fn lemma_no_code_at_end(data: Seq<u8>, i: int)
    requires
        0 <= i <= data.len() < i + 3,
    ensures
        start_codes(data, i) == start_codes(data, data.len() as int),
    decreases data.len() - i,
{
    if i < data.len() {
        lemma_no_code_at_end(data, i + 1);
        assert(start_codes(data, i + 1) == start_codes(data, i));
    }
}

/// The positions of all start codes.
fn find_start_codes(data: &[u8]) -> (codes: Vec<usize>)
    ensures
        codes.len() == start_codes(data@, data@.len() as int).len(),
        forall|k: int|
            0 <= k < codes.len() ==> #[trigger] codes@[k] == start_codes(
                data@,
                data@.len() as int,
            )[k],
{
    let mut codes: Vec<usize> = Vec::new();
    let mut i: usize = 0;
    while i < data.len() && data.len() - i >= 3
        invariant
            i <= data.len(),
            codes.len() == start_codes(data@, i as int).len(),
            forall|k: int|
                0 <= k < codes.len() ==> #[trigger] codes@[k] == start_codes(data@, i as int)[k],
        decreases data.len() - i,
    {
        if data[i] == 0 && data[i + 1] == 0 && data[i + 2] == 1 {
            proof {
                lemma_no_overlap(data@, i as int);
            }
            codes.push(i);
            i = i + 3;
        } else {
            assert(start_codes(data@, i + 1) == start_codes(data@, i as int));
            i = i + 1;
        }
    }
    proof {
        lemma_no_code_at_end(data@, i as int);
    }
    codes
}

/// Split an Annex-B byte stream into its NAL units, without start codes.
pub fn annexb_nals(data: &[u8]) -> (nals: Vec<&[u8]>)
    ensures
        nals.len() == nal_units(data@).len(),
        forall|i: int| 0 <= i < nals.len() ==> #[trigger] nals@[i]@ == nal_units(data@)[i],
{
    let codes: Vec<usize> = find_start_codes(data);
    let ghost all = start_codes(data@, data@.len() as int);
    proof {
        lemma_start_codes(data@, data@.len() as int);
    }
    let len: usize = data.len();
    let mut nals: Vec<&[u8]> = Vec::new();
    let mut k: usize = 0;
    while k < codes.len()
        invariant
            k <= codes.len(),
            len == data@.len(),
            codes.len() == all.len(),
            all == start_codes(data@, data@.len() as int),
            forall|j: int| 0 <= j < codes.len() ==> #[trigger] codes@[j] == all[j],
            forall|j: int| 0 <= j < all.len() ==> is_start_code(data@, #[trigger] all[j]),
            forall|i: int, j: int|
                0 <= i < j < all.len() ==> #[trigger] all[i] + 3 <= #[trigger] all[j],
            nals.len() == units_after(data@, all, k as int).len(),
            forall|i: int|
                0 <= i < nals.len() ==> #[trigger] nals@[i]@ == units_after(
                    data@,
                    all,
                    k as int,
                )[i],
        decreases codes.len() - k,
    {
        assert(codes@[k as int] == all[k as int]);
        assert(is_start_code(data@, all[k as int]));
        let start: usize = codes[k] + 3;
        let limit: usize = if k + 1 < codes.len() {
            codes[k + 1]
        } else {
            len
        };
        let mut end: usize = limit;
        while end > start && data[end - 1] == 0
            invariant
                start <= end <= limit <= data@.len(),
                trimmed_end(data@, start as int, limit as int) == trimmed_end(
                    data@,
                    start as int,
                    end as int,
                ),
            decreases end,
        {
            end = end - 1;
        }
        assert(unit_at(data@, all, k as int) == data@.subrange(start as int, end as int));
        if end > start {
            nals.push(&data[start..end]);
        }
        k = k + 1;
    }
    nals
}

/// Convert an Annex-B access unit to a length-prefixed sample. Parameter sets and delimiters are
/// dropped: the parameter sets stand in the decoder configuration record.
pub fn sample_to_avcc(data: &[u8]) -> (out: Vec<u8>)
    ensures
        out@ == avcc_sample(data@),
{
    let nals: Vec<&[u8]> = annexb_nals(data);
    let ghost units = nal_units(data@);
    let mut out: Vec<u8> = Vec::new();
    let mut i: usize = 0;
    while i < nals.len()
        invariant
            i <= nals.len(),
            nals.len() == units.len(),
            forall|k: int| 0 <= k < nals.len() ==> #[trigger] nals@[k]@ == units[k],
            out@ == sample_of_units(units, i as int),
        decreases nals.len() - i,
    {
        let nal: &[u8] = nals[i];
        assert(nal@ == units[i as int]);
        let t: u8 = nal_type(nal);
        if !(NAL_SPS <= t && t <= NAL_AUD) {
            let ghost before = out@;
            push_be32_low(&mut out, nal.len() as u64);
            append(&mut out, nal);
            assert(out@ =~= before + length_prefixed(units[i as int]));
        }
        i = i + 1;
    }
    out
}

/// The decoder configuration record of one sequence and one picture parameter set.
pub open spec fn avcc_record(sps: Seq<u8>, pps: Seq<u8>) -> Seq<u8> {
    seq![1u8, sps[1], sps[2], sps[3], 0xFF, 0xE1] + be16(sps.len() as int) + sps + seq![1u8]
        + be16(pps.len() as int) + pps
}

/// Build the decoder configuration record (the payload of `avcC`): version, profile,
/// compatibility, level, four-byte lengths, then one parameter set of each kind behind its
/// length.
pub fn build_avcc(sps: &[u8], pps: &[u8]) -> (v: Vec<u8>)
    requires
        sps.len() >= 4,
    ensures
        v@ == avcc_record(sps@, pps@),
{
    let mut v: Vec<u8> = Vec::new();
    v.push(1);
    v.push(sps[1]);
    v.push(sps[2]);
    v.push(sps[3]);
    v.push(0xFF);
    v.push(0xE1);
    assert(v@ =~= seq![1u8, sps@[1], sps@[2], sps@[3], 0xFF, 0xE1]);
    push_be16_low(&mut v, sps.len() as u64);
    append(&mut v, sps);
    let ghost before = v@;
    v.push(1);
    assert(v@ =~= before + seq![1u8]);
    push_be16_low(&mut v, pps.len() as u64);
    append(&mut v, pps);
    v
}

/// The first of some units that has the type `t`, if any.
pub open spec fn first_of_type(units: Seq<Seq<u8>>, t: int) -> Option<Seq<u8>>
    decreases units.len(),
{
    if units.len() == 0 {
        None
    } else if unit_type(units[0]) == t {
        Some(units[0])
    } else {
        first_of_type(units.skip(1), t)
    }
}

/// Find the first NAL unit of a type.
pub(crate) fn find_unit<'a>(nals: &Vec<&'a [u8]>, t: u8, Ghost(units): Ghost<Seq<Seq<u8>>>) -> (r: Option<
    &'a [u8],
>)
    requires
        nals@.len() == units.len(),
        forall|i: int| 0 <= i < nals@.len() ==> #[trigger] nals@[i]@ == units[i],
    ensures
        r is Some <==> first_of_type(units, t as int) is Some,
        r matches Some(unit) ==> first_of_type(units, t as int) == Some(unit@),
{
    let mut i: usize = 0;
    assert(units.skip(0) =~= units);
    while i < nals.len()
        invariant
            i <= nals.len(),
            nals@.len() == units.len(),
            forall|k: int| 0 <= k < nals@.len() ==> #[trigger] nals@[k]@ == units[k],
            first_of_type(units, t as int) == first_of_type(units.skip(i as int), t as int),
        decreases nals.len() - i,
    {
        let nal: &'a [u8] = nals[i];
        assert(nal@ == units[i as int]);
        assert(units.skip(i as int)[0] == units[i as int]);
        if nal_type(nal) == t {
            return Some(nal);
        }
        assert(units.skip(i as int).skip(1) =~= units.skip(i + 1));
        i = i + 1;
    }
    None
}

/// A unit as it stands in a byte stream: behind a start code of three bytes or four, and before some
/// zero bytes.
pub struct FramedUnit {
    pub long_code: bool,
    pub bytes: Seq<u8>,
    pub zeros: nat,
}

/// A start code.
pub open spec fn code_bytes(long_code: bool) -> Seq<u8> {
    if long_code {
        seq![0u8, 0, 0, 1]
    } else {
        seq![0u8, 0, 1]
    }
}

/// The byte stream of some units.
pub open spec fn joined_stream(units: Seq<FramedUnit>) -> Seq<u8>
    decreases units.len(),
{
    if units.len() == 0 {
        Seq::empty()
    } else {
        let u = units.last();
        joined_stream(units.drop_last()) + code_bytes(u.long_code) + u.bytes + Seq::new(
            u.zeros,
            |i: int| 0u8,
        )
    }
}

/// Whether bytes can stand in a byte stream as a unit: some, not ending in zero, without a start
/// code among them.
pub open spec fn is_unit(bytes: Seq<u8>) -> bool {
    &&& bytes.len() > 0
    &&& bytes.last() != 0
    &&& forall|i: int| !is_start_code(bytes, i)
}

/// Streams whose start codes agree below `n` have the same ones there.
proof fn lemma_codes_agree(a: Seq<u8>, b: Seq<u8>, n: int)
    requires
        forall|i: int| 0 <= i < n ==> is_start_code(a, i) == is_start_code(b, i),
    ensures
        start_codes(a, n) == start_codes(b, n),
    decreases n,
{
    if n > 0 {
        lemma_codes_agree(a, b, n - 1);
    }
}

/// Where no start code begins, none is added.
proof fn lemma_no_codes_between(data: Seq<u8>, from: int, to: int)
    requires
        0 <= from <= to,
        forall|i: int| from <= i < to ==> !is_start_code(data, i),
    ensures
        start_codes(data, to) == start_codes(data, from),
    decreases to - from,
{
    if from < to {
        lemma_no_codes_between(data, from, to - 1);
    }
}

/// Streams that agree between two places are trimmed there to the same end.
proof fn lemma_trims_agree(a: Seq<u8>, b: Seq<u8>, start: int, end: int)
    requires
        forall|i: int| start <= i < end ==> a[i] == b[i],
    ensures
        trimmed_end(a, start, end) == trimmed_end(b, start, end),
    decreases end - start,
{
    if start < end && a[end - 1] == 0 {
        lemma_trims_agree(a, b, start, end - 1);
    }
}

/// Zeros at the end are trimmed.
proof fn lemma_zeros_are_trimmed(data: Seq<u8>, start: int, end: int, far: int)
    requires
        start <= end <= far,
        forall|i: int| end <= i < far ==> data[i] == 0,
    ensures
        trimmed_end(data, start, far) == trimmed_end(data, start, end),
    decreases far - end,
{
    if end < far {
        lemma_zeros_are_trimmed(data, start, end, far - 1);
    }
}

/// A trimmed end lies between the places it was looked for.
proof fn lemma_trimmed_within(data: Seq<u8>, start: int, end: int)
    requires
        start <= end,
    ensures
        start <= trimmed_end(data, start, end) <= end,
    decreases end - start,
{
    if start < end && data[end - 1] == 0 {
        lemma_trimmed_within(data, start, end - 1);
    }
}

/// Another start code behind a stream, after at most zeros, leaves the units before it as they are.
proof fn lemma_units_stay(a: Seq<u8>, b: Seq<u8>, at: int, n: int)
    requires
        a.len() <= at < b.len(),
        forall|i: int| 0 <= i < a.len() ==> a[i] == b[i],
        forall|i: int| a.len() <= i < at ==> b[i] == 0,
        0 <= n <= start_codes(a, a.len() as int).len(),
    ensures
        units_after(a, start_codes(a, a.len() as int), n) == units_after(
            b,
            start_codes(a, a.len() as int).push(at),
            n,
        ),
    decreases n,
{
    if n > 0 {
        lemma_units_stay(a, b, at, n - 1);
        lemma_start_codes(a, a.len() as int);
        let codes = start_codes(a, a.len() as int);
        let more = codes.push(at);
        let k = n - 1;
        assert(is_start_code(a, codes[k]));
        let start = codes[k] + 3;
        let limit = if k + 1 < codes.len() {
            codes[k + 1]
        } else {
            a.len() as int
        };
        if k + 1 < codes.len() {
            assert(is_start_code(a, codes[k + 1]));
            assert(codes[k] + 3 <= codes[k + 1]);
            assert(more[k + 1] == codes[k + 1]);
        } else {
            assert(more[k + 1] == at);
            lemma_zeros_are_trimmed(b, start, limit, at);
        }
        assert(more[k] == codes[k]);
        lemma_trims_agree(a, b, start, limit);
        lemma_trimmed_within(a, start, limit);
        let end = trimmed_end(a, start, limit);
        assert(a.subrange(start, end) =~= b.subrange(start, end));
        assert(unit_at(a, codes, k) == unit_at(b, more, k));
    }
}

/// Law: splitting undoes joining. Units that are written one after the other, each behind a start
/// code of three bytes or four and before any number of zeros, are what the stream is split into:
/// none is lost, merged or moved.
pub proof fn lemma_splitting_undoes_joining(units: Seq<FramedUnit>)
    requires
        forall|i: int| 0 <= i < units.len() ==> is_unit((#[trigger] units[i]).bytes),
    ensures
        nal_units(joined_stream(units)) == units.map_values(|u: FramedUnit| u.bytes),
    decreases units.len(),
{
    let wanted = units.map_values(|u: FramedUnit| u.bytes);
    if units.len() == 0 {
        assert(nal_units(joined_stream(units)) =~= wanted);
    } else {
        let before = units.drop_last();
        let u = units.last();
        assert forall|i: int| 0 <= i < before.len() implies is_unit(
            (#[trigger] before[i]).bytes,
        ) by {
            assert(before[i] == units[i]);
        }
        lemma_splitting_undoes_joining(before);
        assert(is_unit(units[units.len() - 1].bytes));
        let a = joined_stream(before);
        let b = joined_stream(units);
        let code = code_bytes(u.long_code);
        let at = a.len() + code.len() - 3;
        let start = at + 3;
        let end = start + u.bytes.len();
        assert(b.len() == end + u.zeros);
        assert forall|i: int| 0 <= i < a.len() implies a[i] == b[i] by {}
        assert forall|i: int| a.len() <= i < at implies b[i] == 0 by {}
        assert(b[at] == 0 && b[at + 1] == 0 && b[at + 2] == 1);
        assert forall|i: int| start <= i < end implies b[i] == u.bytes[i - start] by {}
        assert forall|i: int| end <= i < b.len() implies b[i] == 0 by {}
        // The start codes are those from before, and one more.
        let codes = start_codes(a, a.len() as int);
        assert forall|i: int| 0 <= i < a.len() implies is_start_code(a, i) == is_start_code(
            b,
            i,
        ) by {
            assert(b[a.len() as int] == 0 && b[a.len() as int + 1] == 0);
        }
        lemma_codes_agree(a, b, a.len() as int);
        assert forall|i: int| a.len() <= i < at implies !is_start_code(b, i) by {}
        lemma_no_codes_between(b, a.len() as int, at);
        assert(is_start_code(b, at));
        assert(start_codes(b, at + 1) == codes.push(at));
        assert forall|i: int| at + 1 <= i < b.len() implies !is_start_code(b, i) by {
            if start <= i && i + 2 < end {
                assert(!is_start_code(u.bytes, i - start));
                assert(b[i] == u.bytes[i - start]);
                assert(b[i + 1] == u.bytes[i + 1 - start]);
                assert(b[i + 2] == u.bytes[i + 2 - start]);
            }
        }
        lemma_no_codes_between(b, at + 1, b.len() as int);
        let more = codes.push(at);
        assert(start_codes(b, b.len() as int) == more);
        // The units are those from before, and one more.
        lemma_units_stay(a, b, at, codes.len() as int);
        lemma_zeros_are_trimmed(b, start, end, b.len() as int);
        assert(b[end - 1] == u.bytes.last());
        assert(unit_at(b, more, codes.len() as int) =~= u.bytes);
        assert(nal_units(b) == nal_units(a).push(u.bytes));
        assert(wanted =~= before.map_values(|u: FramedUnit| u.bytes).push(u.bytes));
    }
}

/// The units of a length-prefixed sample, if every length fits what is there.
pub open spec fn sample_units(sample: Seq<u8>) -> Option<Seq<Seq<u8>>>
    decreases sample.len(),
{
    let end = 4 + be_value(sample.take(4));
    if sample.len() == 0 {
        Some(Seq::empty())
    } else if sample.len() < 4 || end < 4 || end > sample.len() {
        None
    } else {
        match sample_units(sample.skip(end)) {
            Some(rest) => Some(seq![sample.subrange(4, end)] + rest),
            None => None,
        }
    }
}

/// One more unit behind a sample is one more unit read.
proof fn lemma_one_more_unit(sample: Seq<u8>, unit: Seq<u8>)
    requires
        sample_units(sample) is Some,
        unit.len() <= u32::MAX,
    ensures
        sample_units(sample + length_prefixed(unit)) == Some(
            sample_units(sample)->0.push(unit),
        ),
    decreases sample.len(),
{
    let longer = sample + length_prefixed(unit);
    if sample.len() == 0 {
        let end = 4 + unit.len();
        assert(longer.take(4) =~= be32(unit.len() as int));
        lemma_be32_reads_back(unit.len() as int);
        assert(longer.skip(end as int) =~= Seq::empty());
        assert(longer.subrange(4, end as int) =~= unit);
        assert(sample_units(longer.skip(end as int)) == Some(Seq::<Seq<u8>>::empty()));
        assert(seq![unit] + Seq::empty() =~= sample_units(sample)->0.push(unit));
    } else {
        let end = 4 + be_value(sample.take(4));
        assert(longer.take(4) =~= sample.take(4));
        assert(longer.skip(end) =~= sample.skip(end) + length_prefixed(unit));
        assert(longer.subrange(4, end) =~= sample.subrange(4, end));
        lemma_one_more_unit(sample.skip(end), unit);
        let first = seq![sample.subrange(4, end)];
        let rest = sample_units(sample.skip(end))->0;
        assert(first + rest.push(unit) =~= (first + rest).push(unit));
    }
}

/// The units that a sample is made of are those read back.
proof fn lemma_sample_of_units_reads_back(units: Seq<Seq<u8>>, n: int)
    requires
        0 <= n <= units.len(),
        forall|i: int| 0 <= i < units.len() ==> (#[trigger] units[i]).len() <= u32::MAX,
    ensures
        sample_units(sample_of_units(units, n)) == Some(
            units.take(n).filter(|unit: Seq<u8>| !is_out_of_band(unit)),
        ),
    decreases n,
{
    let in_band = |unit: Seq<u8>| !is_out_of_band(unit);
    if n == 0 {
        lemma_filter_none(units, in_band);
    } else {
        lemma_sample_of_units_reads_back(units, n - 1);
        lemma_filter_take(units, in_band, n - 1);
        if in_band(units[n - 1]) {
            lemma_one_more_unit(sample_of_units(units, n - 1), units[n - 1]);
        }
    }
}

/// Law: a length-prefixed sample reads back. Going from length to length through the sample of an
/// access unit gives its units, in order, without parameter sets and delimiters.
pub proof fn lemma_sample_reads_back(data: Seq<u8>)
    requires
        forall|i: int|
            0 <= i < nal_units(data).len() ==> (#[trigger] nal_units(data)[i]).len() <= u32::MAX,
    ensures
        sample_units(avcc_sample(data)) == Some(
            nal_units(data).filter(|unit: Seq<u8>| !is_out_of_band(unit)),
        ),
{
    let units = nal_units(data);
    lemma_sample_of_units_reads_back(units, units.len() as int);
    assert(units.take(units.len() as int) =~= units);
}

} // verus!
