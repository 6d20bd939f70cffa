//! What a decoder reads of its parameter sets: the decoder configuration record, by the format.

use vstd::prelude::*;

use crate::bytes::{be16, lemma_be16_reads_back};
use crate::mux::decode::u16_at;
use crate::mux::fmp4::{header_fault, header_record, packed_rate};
use crate::mux::nal::{
    avcc_record, avcc_sample, first_of_type, is_out_of_band, is_unit, joined_stream,
    lemma_sample_reads_back, lemma_splitting_undoes_joining, nal_units, sample_units, unit_type,
    FramedUnit,
};

verus! {

/// The sequence and the picture parameter set in a decoder configuration record: behind six bytes a
/// length and as many bytes, then a count of one, a length and as many bytes, and nothing more.
pub open spec fn read_record(record: Seq<u8>) -> Option<(Seq<u8>, Seq<u8>)> {
    let n = u16_at(record, 6);
    let m = u16_at(record, 9 + n);
    if record.len() < 8 || record.len() < 11 + n || record.len() != 11 + n + m || record[0] != 1
        || record[5] != 0xE1 || record[8 + n] != 1 {
        None
    } else {
        Some((record.subrange(8, 8 + n), record.subrange(11 + n, 11 + n + m)))
    }
}

/// Law: a decoder configuration record reads back: it holds one sequence and one picture parameter
/// set, each as it was given, the profile and level of the first, and says that samples have lengths
/// of four bytes.
pub proof fn lemma_record_reads_back(sps: Seq<u8>, pps: Seq<u8>)
    requires
        4 <= sps.len() <= u16::MAX,
        pps.len() <= u16::MAX,
    ensures
        read_record(avcc_record(sps, pps)) == Some((sps, pps)),
        avcc_record(sps, pps).subrange(1, 4) == sps.subrange(1, 4),
        avcc_record(sps, pps)[4] == 0xFF,
{
    let n = sps.len() as int;
    let m = pps.len() as int;
    let head = seq![1u8, sps[1], sps[2], sps[3], 0xFF, 0xE1];
    let record = avcc_record(sps, pps);
    assert(record == head + be16(n) + sps + seq![1u8] + be16(m) + pps);
    lemma_be16_reads_back(n);
    lemma_be16_reads_back(m);
    assert(record.subrange(6, 8) =~= be16(n));
    assert(record.subrange(9 + n, 11 + n) =~= be16(m));
    assert(record.subrange(8, 8 + n) =~= sps);
    assert(record.subrange(11 + n, 11 + n + m) =~= pps);
    assert(record.subrange(1, 4) =~= sps.subrange(1, 4));
}

/// Whether unit `k` is the first of a type: the low five bits of its first byte.
pub open spec fn is_first(units: Seq<Seq<u8>>, typ: int, k: int) -> bool {
    &&& 0 <= k < units.len()
    &&& units[k].len() > 0
    &&& units[k][0] as int % 32 == typ
    &&& forall|j: int|
        0 <= j < k ==> (#[trigger] units[j]).len() == 0 || units[j][0] as int % 32 != typ
}

/// The first unit of a type is found.
proof fn lemma_first_of_type(units: Seq<Seq<u8>>, typ: int, k: int)
    requires
        typ > 0,
    ensures
        is_first(units, typ, k) ==> first_of_type(units, typ) == Some(units[k]),
    decreases units.len(),
{
    if is_first(units, typ, k) {
        if k > 0 {
            let rest = units.skip(1);
            assert(units[0].len() == 0 || units[0][0] as int % 32 != typ);
            assert(unit_type(units[0]) != typ);
            assert(is_first(rest, typ, k - 1)) by {
                assert(rest[k - 1] == units[k]);
                assert forall|j: int| 0 <= j < k - 1 implies (#[trigger] rest[j]).len() == 0
                    || rest[j][0] as int % 32 != typ by {
                    assert(rest[j] == units[j + 1]);
                }
            }
            lemma_first_of_type(rest, typ, k - 1);
        }
    }
}

/// Where no unit is of a type, none is found.
proof fn lemma_none_of_type(units: Seq<Seq<u8>>, typ: int)
    requires
        typ > 0,
        forall|j: int|
            0 <= j < units.len() ==> (#[trigger] units[j]).len() == 0 || units[j][0] as int % 32
                != typ,
    ensures
        first_of_type(units, typ) is None,
    decreases units.len(),
{
    if units.len() > 0 {
        let rest = units.skip(1);
        assert(units[0].len() == 0 || units[0][0] as int % 32 != typ);
        assert forall|j: int| 0 <= j < rest.len() implies (#[trigger] rest[j]).len() == 0
            || rest[j][0] as int % 32 != typ by {
            assert(rest[j] == units[j + 1]);
        }
        lemma_none_of_type(rest, typ);
    }
}

/// The bytes of some units.
pub open spec fn unit_bytes(units: Seq<FramedUnit>) -> Seq<Seq<u8>> {
    units.map_values(|u: FramedUnit| u.bytes)
}

/// Law: the decoder configuration of an encoder's sequence header is that of its parameter sets. A
/// header in which units stand one after the other, each behind a start code, is taken where it has a
/// sequence parameter set of four bytes or more and a picture parameter set; and its record reads
/// back as the first of each.
pub proof fn lemma_header_gives_its_parameter_sets(units: Seq<FramedUnit>, s: int, p: int)
    requires
        forall|i: int| 0 <= i < units.len() ==> is_unit((#[trigger] units[i]).bytes),
        is_first(unit_bytes(units), 7, s),
        is_first(unit_bytes(units), 8, p),
        4 <= units[s].bytes.len() <= u16::MAX,
        units[p].bytes.len() <= u16::MAX,
    ensures
        header_fault(joined_stream(units)) is None,
        read_record(header_record(joined_stream(units))) == Some((units[s].bytes, units[p].bytes)),
{
    let all = unit_bytes(units);
    lemma_splitting_undoes_joining(units);
    assert(nal_units(joined_stream(units)) == all);
    lemma_first_of_type(all, 7, s);
    lemma_first_of_type(all, 8, p);
    lemma_record_reads_back(units[s].bytes, units[p].bytes);
}

/// Law: a header without a sequence parameter set, or with one of under four bytes, or without a
/// picture parameter set, is refused.
pub proof fn lemma_header_without_parameter_sets_is_refused(units: Seq<FramedUnit>)
    requires
        forall|i: int| 0 <= i < units.len() ==> is_unit((#[trigger] units[i]).bytes),
    ensures
        (forall|s: int| !#[trigger] is_first(unit_bytes(units), 7, s)) ==> header_fault(
            joined_stream(units),
        ) is Some,
        (forall|p: int| !#[trigger] is_first(unit_bytes(units), 8, p)) ==> header_fault(
            joined_stream(units),
        ) is Some,
        forall|s: int|
            #[trigger] is_first(unit_bytes(units), 7, s) && units[s].bytes.len() < 4
                ==> header_fault(joined_stream(units)) is Some,
{
    let all = unit_bytes(units);
    lemma_splitting_undoes_joining(units);
    assert(nal_units(joined_stream(units)) == all);
    lemma_first_or_none(all, 7);
    lemma_first_or_none(all, 8);
    assert forall|s: int| #[trigger] is_first(all, 7, s) && units[s].bytes.len() < 4 implies
        header_fault(joined_stream(units)) is Some by {
        lemma_first_of_type(all, 7, s);
    }
}

/// A type has a first unit, or none is found.
proof fn lemma_first_or_none(units: Seq<Seq<u8>>, typ: int)
    requires
        typ > 0,
    ensures
        (exists|k: int| #[trigger] is_first(units, typ, k)) || first_of_type(units, typ) is None,
    decreases units.len(),
{
    if units.len() > 0 {
        if units[0].len() > 0 && units[0][0] as int % 32 == typ {
            assert(is_first(units, typ, 0));
        } else {
            let rest = units.skip(1);
            lemma_first_or_none(rest, typ);
            if exists|k: int| #[trigger] is_first(rest, typ, k) {
                let k = choose|k: int| #[trigger] is_first(rest, typ, k);
                assert(units[k + 1] == rest[k]);
                assert forall|j: int| 0 <= j < k + 1 implies (#[trigger] units[j]).len() == 0
                    || units[j][0] as int % 32 != typ by {
                    if j > 0 {
                        assert(rest[j - 1] == units[j]);
                    }
                }
                assert(is_first(units, typ, k + 1));
            }
        }
    }
}

/// Law: a frame rate that is packed as frames over seconds unpacks to the whole frames per second.
pub proof fn lemma_packed_rate_unpacks(frames: int, seconds: int)
    requires
        0 <= frames <= u32::MAX,
        0 < seconds <= u32::MAX,
    ensures
        packed_rate(frames * 0x1_0000_0000 + seconds) * seconds <= frames,
        frames < (packed_rate(frames * 0x1_0000_0000 + seconds) + 1) * seconds,
{
    let packed = frames * 0x1_0000_0000 + seconds;
    assert(packed % 0x1_0000_0000 == seconds);
    assert(packed / 0x1_0000_0000 == frames);
    let q = frames / seconds;
    assert(packed_rate(packed) == q);
    assert(q * seconds <= frames < (q + 1) * seconds) by (nonlinear_arith)
        requires
            q == frames / seconds,
            seconds > 0,
    ;
}

/// Law: a sample holds every unit of a packet but parameter sets and delimiters, which are of the types
/// seven, eight and nine: going from length to length through it gives just these, in their order.
pub proof fn lemma_sample_holds_all_but_parameter_sets(units: Seq<FramedUnit>)
    requires
        forall|i: int| 0 <= i < units.len() ==> is_unit((#[trigger] units[i]).bytes),
        forall|i: int| 0 <= i < units.len() ==> (#[trigger] units[i]).bytes.len() <= u32::MAX,
    ensures
        sample_units(avcc_sample(joined_stream(units))) == Some(
            unit_bytes(units).filter(
                |u: Seq<u8>| !(u.len() > 0 && 7 <= u[0] as int % 32 && u[0] as int % 32 <= 9),
            ),
        ),
{
    let all = unit_bytes(units);
    let stream = joined_stream(units);
    lemma_splitting_undoes_joining(units);
    assert(nal_units(stream) == all);
    assert forall|i: int| 0 <= i < nal_units(stream).len() implies (
    #[trigger] nal_units(stream)[i]).len() <= u32::MAX by {
        assert(units[i].bytes.len() <= u32::MAX);
    }
    lemma_sample_reads_back(stream);
    lemma_in_band(all);
}

/// The units that are in band, by their types.
proof fn lemma_in_band(units: Seq<Seq<u8>>)
    ensures
        units.filter(|u: Seq<u8>| !is_out_of_band(u)) == units.filter(
            |u: Seq<u8>| !(u.len() > 0 && 7 <= u[0] as int % 32 && u[0] as int % 32 <= 9),
        ),
    decreases units.len(),
{
    reveal(Seq::filter);
    if units.len() > 0 {
        lemma_in_band(units.drop_last());
    }
}

} // verus!
