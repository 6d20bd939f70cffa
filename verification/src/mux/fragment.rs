//! Movie fragments: one `moof` and one `mdat` box that hold a run of samples of one track.

use vstd::arithmetic::div_mod::{lemma_add_mod_noop, lemma_mul_mod_noop_left};
use vstd::prelude::*;

use crate::bytes::{append, be32, be64, lemma_be32_congruent, push_be32, push_be32_low, push_be64};
use crate::mux::boxes::{box_bytes, full_box_bytes, fullbox, joined, mp4box};
use crate::mux::fourcc;

verus! {

/// Flags of a sample that decoding can start at.
pub const SAMPLE_FLAGS_KEY: u32 = 0x0200_0000;

/// Flags of a sample that needs an earlier one.
pub const SAMPLE_FLAGS_NON_KEY: u32 = 0x0101_0000;

/// Length of a plain box header.
pub const MDAT_HEADER_LEN: u64 = 8;

/// A sample and whether decoding can start at it.
pub type Sample = (Vec<u8>, bool);

/// What a [`Sample`] holds.
pub type SampleView = (Seq<u8>, bool);

/// What a list of samples holds.
pub open spec fn sample_views(samples: Seq<Sample>) -> Seq<SampleView> {
    samples.map_values(|s: Sample| (s.0@, s.1))
}

/// The bytes of the samples, one by one.
pub open spec fn payloads(samples: Seq<SampleView>) -> Seq<Seq<u8>> {
    samples.map_values(|s: SampleView| s.0)
}

/// The flags of a sample.
pub open spec fn sample_flags(is_sync: bool) -> int {
    if is_sync {
        SAMPLE_FLAGS_KEY as int
    } else {
        SAMPLE_FLAGS_NON_KEY as int
    }
}

/// The entry of one sample in the track-run box: duration, size, flags.
pub open spec fn run_entry(delta: int, sample: SampleView) -> Seq<u8> {
    be32(delta) + be32(sample.0.len() as int) + be32(sample_flags(sample.1))
}

/// The entries of the samples, one after the other.
pub open spec fn run_entries(delta: int, samples: Seq<SampleView>) -> Seq<u8>
    decreases samples.len(),
{
    if samples.len() == 0 {
        Seq::empty()
    } else {
        run_entries(delta, samples.drop_last()) + run_entry(delta, samples.last())
    }
}

/// Length of a fragment's `moof` box with `n` samples.
pub open spec fn moof_len(n: int) -> int {
    88 + 12 * n
}

/// The track-run box: the number of samples, the offset of the first sample's bytes from the
/// start of the `moof` box, and an entry for each sample.
pub open spec fn trun_bytes(delta: int, samples: Seq<SampleView>) -> Seq<u8> {
    full_box_bytes(
        fourcc::TRUN@,
        0,
        0x0701,
        be32(samples.len() as int) + be32(moof_len(samples.len() as int) + 8) + run_entries(
            delta,
            samples,
        ),
    )
}

/// The track-fragment box: the track, the decode time of its first sample, the run.
pub open spec fn traf_bytes(
    track_id: int,
    base_decode_time: int,
    delta: int,
    samples: Seq<SampleView>,
) -> Seq<u8> {
    box_bytes(
        fourcc::TRAF@,
        full_box_bytes(fourcc::TFHD@, 0, 0x0002_0000, be32(track_id)) + full_box_bytes(
            fourcc::TFDT@,
            1,
            0,
            be64(base_decode_time),
        ) + trun_bytes(delta, samples),
    )
}

/// The movie-fragment box.
#[verifier::opaque]
pub open spec fn moof_bytes(
    sequence_number: int,
    track_id: int,
    base_decode_time: int,
    delta: int,
    samples: Seq<SampleView>,
) -> Seq<u8> {
    box_bytes(
        fourcc::MOOF@,
        full_box_bytes(fourcc::MFHD@, 0, 0, be32(sequence_number)) + traf_bytes(
            track_id,
            base_decode_time,
            delta,
            samples,
        ),
    )
}

/// The media-data box: the samples' bytes, one after the other.
#[verifier::opaque]
pub open spec fn mdat_bytes(samples: Seq<SampleView>) -> Seq<u8> {
    box_bytes(fourcc::MDAT@, joined(payloads(samples)))
}

/// Each sample's entry takes twelve bytes.
proof fn lemma_run_entries_len(delta: int, samples: Seq<SampleView>)
    ensures
        run_entries(delta, samples).len() == 12 * samples.len(),
    decreases samples.len(),
{
    if samples.len() > 0 {
        lemma_run_entries_len(delta, samples.drop_last());
    }
}

/// Law: the `moof` box of `n` samples is [`moof_len`] bytes long, so the offset in its run box
/// leads from its start to the first byte after the header of the `mdat` box behind it.
pub proof fn lemma_data_offset_points_at_payload(
    sequence_number: int,
    track_id: int,
    base_decode_time: int,
    delta: int,
    samples: Seq<SampleView>,
)
    ensures
        moof_bytes(sequence_number, track_id, base_decode_time, delta, samples).len() == moof_len(
            samples.len() as int,
        ),
        ({
            let file = moof_bytes(sequence_number, track_id, base_decode_time, delta, samples)
                + mdat_bytes(samples);
            let offset = moof_len(samples.len() as int) + 8;
            file.subrange(offset, file.len() as int) == joined(payloads(samples))
        }),
{
    lemma_run_entries_len(delta, samples);
    reveal(box_bytes);
    reveal(moof_bytes);
    reveal(mdat_bytes);
    let file = moof_bytes(sequence_number, track_id, base_decode_time, delta, samples)
        + mdat_bytes(samples);
    let offset = moof_len(samples.len() as int) + 8;
    assert(file.subrange(offset, file.len() as int) =~= joined(payloads(samples)));
}

/// Build one fragment of `track_id` from samples that all last `sample_delta`. Returns its `moof`
/// and its `mdat` box.
pub fn build_fragment(
    sequence_number: u32,
    track_id: u32,
    base_decode_time: u64,
    sample_delta: u32,
    samples: &[Sample],
) -> (r: (Vec<u8>, Vec<u8>))
    ensures
        r.0@ == moof_bytes(
            sequence_number as int,
            track_id as int,
            base_decode_time as int,
            sample_delta as int,
            sample_views(samples@),
        ),
        r.0@.len() == moof_len(samples@.len() as int),
        r.1@ == mdat_bytes(sample_views(samples@)),
{
    let ghost views = sample_views(samples@);
    let n: u64 = samples.len() as u64;
    let mut run: Vec<u8> = Vec::new();
    push_be32_low(&mut run, n);
    assert(run@ =~= be32(n as int));
    let low: u64 = n % 0x1_0000_0000;
    push_be32_low(&mut run, low * 12 + 96);
    proof {
        let m = 0x1_0000_0000int;
        lemma_mul_mod_noop_left(n as int, 12, m);
        lemma_add_mod_noop(low * 12, 96, m);
        lemma_add_mod_noop(n * 12, 96, m);
        lemma_be32_congruent(low * 12 + 96, moof_len(n as int) + 8);
    }
    let ghost head = run@;
    let mut data: Vec<u8> = Vec::new();
    let mut i: usize = 0;
    while i < samples.len()
        invariant
            i <= samples.len(),
            views == sample_views(samples@),
            run@ == head + run_entries(sample_delta as int, views.take(i as int)),
            data@ == joined(payloads(views).take(i as int)),
        decreases samples.len() - i,
    {
        let ghost run_before = run@;
        let ghost data_before = data@;
        let flags: u32 = if samples[i].1 {
            SAMPLE_FLAGS_KEY
        } else {
            SAMPLE_FLAGS_NON_KEY
        };
        push_be32(&mut run, sample_delta);
        push_be32_low(&mut run, samples[i].0.len() as u64);
        push_be32(&mut run, flags);
        append(&mut data, &samples[i].0);
        proof {
            let v = views[i as int];
            assert(views.take(i + 1).drop_last() =~= views.take(i as int));
            assert(run@ =~= run_before + run_entry(sample_delta as int, v));
            assert(run@ =~= head + (run_entries(sample_delta as int, views.take(i as int))
                + run_entry(sample_delta as int, v)));
            assert(payloads(views).take(i + 1).drop_last() =~= payloads(views).take(i as int));
            assert(data@ =~= data_before + payloads(views)[i as int]);
        }
        i = i + 1;
    }
    proof {
        assert(views.take(views.len() as int) =~= views);
        assert(payloads(views).take(views.len() as int) =~= payloads(views));
    }
    let trun: Vec<u8> = fullbox(&fourcc::TRUN, 0, 0x0701, &run);

    let mut word: Vec<u8> = Vec::new();
    push_be32(&mut word, track_id);
    assert(word@ =~= be32(track_id as int));
    let mut traf_p: Vec<u8> = fullbox(&fourcc::TFHD, 0, 0x0002_0000, &word);
    let mut time: Vec<u8> = Vec::new();
    push_be64(&mut time, base_decode_time);
    assert(time@ =~= be64(base_decode_time as int));
    let tfdt: Vec<u8> = fullbox(&fourcc::TFDT, 1, 0, &time);
    append(&mut traf_p, &tfdt);
    append(&mut traf_p, &trun);
    let traf: Vec<u8> = mp4box(&fourcc::TRAF, &traf_p);

    let mut number: Vec<u8> = Vec::new();
    push_be32(&mut number, sequence_number);
    assert(number@ =~= be32(sequence_number as int));
    let mut moof_p: Vec<u8> = fullbox(&fourcc::MFHD, 0, 0, &number);
    append(&mut moof_p, &traf);
    let moof: Vec<u8> = mp4box(&fourcc::MOOF, &moof_p);
    let mdat: Vec<u8> = mp4box(&fourcc::MDAT, &data);
    proof {
        reveal(moof_bytes);
        reveal(mdat_bytes);
        lemma_data_offset_points_at_payload(
            sequence_number as int,
            track_id as int,
            base_decode_time as int,
            sample_delta as int,
            views,
        );
    }
    (moof, mdat)
}

} // verus!
