//! What a reader finds in a finished file.

use vstd::prelude::*;

use crate::bytes::{
    be16, be24, be32, be64, be_value, lemma_be32_reads_back, lemma_be64_reads_back, zeros,
};
use crate::constants::mux::{MOVIE_TIMESCALE, VIDEO_SAMPLE_DELTA};
use crate::mux::boxes::{
    box_bytes, ftyp_bytes, large_header, lemma_box_len, matrix_bytes, mvhd_bytes,
};
use crate::mux::fmp4::has_placeholder;
use crate::mux::fourcc;
use crate::mux::layout::{behind_placeholder, finished_file, lemma_finished_layout};
use crate::mux::movie::{final_duration, final_moov_bytes, final_traks, last_track_id};
use crate::mux::reader::{
    box_from, box_step, header_at, header_times, moov_prefix, movie_times, place_from, stands_at,
    BoxStep, MOOV_PREFIX_LEN,
};
use crate::mux::tables::{final_video_trak_bytes, movie_time};
use crate::mux::timeline::MovieView;

verus! {

/// The first bytes of a plain box say its size and type.
proof fn lemma_box_head(file: Seq<u8>, pos: int, typ: Seq<u8>, payload: Seq<u8>)
    requires
        typ.len() == 4,
        0 <= pos,
        payload.len() >= 8,
        payload.len() + 8 <= u32::MAX,
        pos + payload.len() + 8 <= file.len(),
        file.subrange(pos, pos + payload.len() + 8) == box_bytes(typ, payload),
    ensures
        ({
            let header = header_at(file, pos);
            &&& header.len() == 16
            &&& be_value(header.subrange(0, 4)) == payload.len() + 8
            &&& header.subrange(4, 8) == typ
        }),
{
    reveal(box_bytes);
    let whole = box_bytes(typ, payload);
    let header = header_at(file, pos);
    assert(header =~= whole.subrange(0, 16)) by {
        assert forall|i: int| 0 <= i < 16 implies header[i] == whole[i] by {
            assert(file.subrange(pos, pos + payload.len() + 8)[i] == whole[i]);
        }
    }
    assert(header.subrange(0, 4) =~= be32(payload.len() + 8int));
    lemma_be32_reads_back(payload.len() + 8int);
    assert(header.subrange(4, 8) =~= typ);
}

/// The payload of the file-type box.
spec fn ftyp_payload() -> Seq<u8> {
    ftyp_bytes().skip(8)
}

/// The file-type box is a box of its type.
proof fn lemma_ftyp()
    ensures
        ftyp_bytes() == box_bytes(fourcc::FTYP@, ftyp_payload()),
        8 <= ftyp_payload().len() <= 100,
        ftyp_bytes().len() == ftyp_payload().len() + 8,
{
    reveal(box_bytes);
    let payload = ftyp_payload();
    assert(ftyp_bytes() =~= box_bytes(fourcc::FTYP@, payload));
}

/// A search for the movie box of a finished file goes over the file-type box and the media data.
pub proof fn lemma_search_finds_moov(m: MovieView, payload: Seq<u8>)
    requires
        m.ok(),
        has_placeholder(m.head),
        8 <= payload.len(),
        payload.len() + 8 <= u32::MAX,
    ensures
        box_from(finished_file(m.stream, box_bytes(fourcc::MOOV@, payload)), 0, fourcc::MOOV@)
            == Some(((m.stream.len() + 8) as u64, payload.len() as u64)),
{
    let moov = box_bytes(fourcc::MOOV@, payload);
    let file = finished_file(m.stream, moov);
    let f = ftyp_bytes().len() as int;
    let s = m.stream.len() as int;
    let span = s - f;
    let header = large_header(fourcc::MDAT@, span);
    lemma_finished_layout(m, moov);
    lemma_ftyp();
    lemma_box_len(fourcc::MOOV@, payload);
    assert(file.len() == s + payload.len() + 8);
    assert(header.len() == 16);
    // The file-type box.
    assert(file.subrange(0, f) =~= ftyp_bytes());
    lemma_box_head(file, 0, fourcc::FTYP@, ftyp_payload());
    assert(fourcc::FTYP@ != fourcc::MOOV@) by {
        assert(fourcc::FTYP@[0] != fourcc::MOOV@[0]);
    }
    assert(box_step(header_at(file, 0), 0, file.len() as int, fourcc::MOOV@) == BoxStep::Next(
        f as u64,
    ));
    // The media data.
    let large = header_at(file, f);
    assert(large =~= header);
    assert(large.subrange(0, 4) =~= be32(1));
    lemma_be32_reads_back(1);
    assert(large.subrange(4, 8) =~= fourcc::MDAT@);
    assert(large.subrange(8, 16) =~= be64(span));
    lemma_be64_reads_back(span);
    assert(fourcc::MDAT@ != fourcc::MOOV@) by {
        assert(fourcc::MDAT@[1] != fourcc::MOOV@[1]);
    }
    assert(box_step(large, f, file.len() as int, fourcc::MOOV@) == BoxStep::Next(s as u64));
    // The movie box.
    assert(file.subrange(s, s + payload.len() + 8) =~= moov);
    lemma_box_head(file, s, fourcc::MOOV@, payload);
    assert(box_step(header_at(file, s), s, file.len() as int, fourcc::MOOV@) == BoxStep::Found(
        (s + 8) as u64,
        payload.len() as u64,
    ));
    reveal_with_fuel(box_from, 4);
}

/// The times in a movie box's payload that begins with a movie header.
proof fn lemma_header_is_read(prefix: Seq<u8>, next_id: int, duration: int)
    requires
        0 < duration <= u32::MAX,
        prefix.len() >= mvhd_bytes(next_id, duration).len(),
        prefix.take(mvhd_bytes(next_id, duration).len() as int) == mvhd_bytes(next_id, duration),
    ensures
        movie_times(prefix) == Some((MOVIE_TIMESCALE as int, duration)),
{
    reveal(box_bytes);
    let mvhd = mvhd_bytes(next_id, duration);
    let fields = be32(0) + be32(0) + be32(MOVIE_TIMESCALE as int) + be32(duration) + be32(
        0x0001_0000,
    ) + be16(0x0100) + be16(0) + zeros(8) + matrix_bytes() + zeros(24) + be32(next_id);
    let body = seq![0u8] + be24(0) + fields;
    assert(mvhd == be32(body.len() + 8int) + fourcc::MVHD@ + body);
    assert(body.len() == 100);
    assert(forall|i: int| 0 <= i < 108 ==> prefix[i] == mvhd[i]) by {
        assert forall|i: int| 0 <= i < 108 implies prefix[i] == mvhd[i] by {
            assert(prefix.take(mvhd.len() as int)[i] == mvhd[i]);
        }
    }
    let needle = fourcc::MVHD@;
    assert(mvhd[0] == 0 && mvhd[1] == 0 && mvhd[2] == 0 && mvhd[3] == 108);
    assert(!stands_at(prefix, needle, 0)) by {
        assert(prefix.subrange(0, 4)[0] == prefix[0]);
        assert(needle[0] == 109);
    }
    assert(!stands_at(prefix, needle, 1)) by {
        assert(prefix.subrange(1, 5)[0] == prefix[1]);
        assert(needle[0] == 109);
    }
    assert(!stands_at(prefix, needle, 2)) by {
        assert(prefix.subrange(2, 6)[0] == prefix[2]);
        assert(needle[0] == 109);
    }
    assert(!stands_at(prefix, needle, 3)) by {
        assert(prefix.subrange(3, 7)[0] == prefix[3]);
        assert(needle[0] == 109);
    }
    assert(prefix.subrange(4, 8) =~= needle);
    assert(stands_at(prefix, needle, 4));
    reveal_with_fuel(place_from, 6);
    assert(place_from(prefix, needle, 0) == Some(4int));
    assert(prefix[8] == 0);
    assert(prefix.subrange(20, 24) =~= be32(MOVIE_TIMESCALE as int));
    assert(prefix.subrange(24, 28) =~= be32(duration));
    lemma_be32_reads_back(MOVIE_TIMESCALE as int);
    lemma_be32_reads_back(duration);
    assert(header_times(prefix, 4) == Some((MOVIE_TIMESCALE as int, duration)));
}

/// A movie header's length.
pub proof fn lemma_mvhd_len(next_id: int, duration: int)
    ensures
        mvhd_bytes(next_id, duration).len() == 108,
{
    reveal(box_bytes);
}

/// How much of a movie box's payload is read.
spec fn prefix_len(payload: Seq<u8>) -> int {
    if payload.len() < MOOV_PREFIX_LEN {
        payload.len() as int
    } else {
        MOOV_PREFIX_LEN as int
    }
}

/// What is read of a finished file is the beginning of its movie box's payload.
proof fn lemma_prefix_is_read(m: MovieView, payload: Seq<u8>)
    requires
        m.ok(),
        has_placeholder(m.head),
        8 <= payload.len(),
        box_bytes(fourcc::MOOV@, payload).len() <= u32::MAX,
    ensures
        moov_prefix(finished_file(m.stream, box_bytes(fourcc::MOOV@, payload))) == Some(
            payload.take(prefix_len(payload)),
        ),
{
    let moov = box_bytes(fourcc::MOOV@, payload);
    let file = finished_file(m.stream, moov);
    let s = m.stream.len() as int;
    let k = prefix_len(payload);
    lemma_box_len(fourcc::MOOV@, payload);
    lemma_search_finds_moov(m, payload);
    lemma_finished_layout(m, moov);
    let front = ftyp_bytes() + large_header(fourcc::MDAT@, s - ftyp_bytes().len())
        + behind_placeholder(m.stream);
    assert(file == front + moov);
    assert(front.len() == s);
    assert(moov.skip(8) =~= payload) by {
        reveal(box_bytes);
    }
    assert(file.subrange(s + 8, s + 8 + k) =~= moov.skip(8).take(k));
}

/// A finished movie's box is a movie header and the tracks.
pub proof fn lemma_final_moov(m: MovieView, avcc: Seq<u8>, width: int, height: int, timescale: int)
    ensures
        ({
            let n = m.audio.len() as int;
            let video_dur = movie_time(m.video_index.sizes.len() * VIDEO_SAMPLE_DELTA, timescale);
            final_moov_bytes(avcc, width, height, timescale, m.video_index, m.audio) == box_bytes(
                fourcc::MOOV@,
                mvhd_bytes(
                    last_track_id(m.audio, n) + 1,
                    final_duration(video_dur, m.audio, n),
                ) + (final_video_trak_bytes(avcc, width, height, timescale, m.video_index)
                    + final_traks(m.audio, n)),
            )
        }),
{
    reveal(final_moov_bytes);
    let n = m.audio.len() as int;
    let video_dur = movie_time(m.video_index.sizes.len() * VIDEO_SAMPLE_DELTA, timescale);
    let a = mvhd_bytes(last_track_id(m.audio, n) + 1, final_duration(video_dur, m.audio, n));
    let b = final_video_trak_bytes(avcc, width, height, timescale, m.video_index);
    let c = final_traks(m.audio, n);
    assert(a + b + c =~= a + (b + c));
}

/// Law: whoever reads the duration of a finished file finds the one that was written: the longest
/// of its tracks, in milliseconds. Left out are movies whose movie box is over 4 GiB, and those
/// that last no time at all.
pub proof fn lemma_duration_reads_back(
    m: MovieView,
    avcc: Seq<u8>,
    width: int,
    height: int,
    timescale: int,
)
    requires
        m.ok(),
        has_placeholder(m.head),
        final_moov_bytes(avcc, width, height, timescale, m.video_index, m.audio).len()
            <= u32::MAX,
        0 < final_duration(
            movie_time(m.video_index.sizes.len() * VIDEO_SAMPLE_DELTA, timescale),
            m.audio,
            m.audio.len() as int,
        ) <= u32::MAX,
    ensures
        ({
            let file = finished_file(
                m.stream,
                final_moov_bytes(avcc, width, height, timescale, m.video_index, m.audio),
            );
            &&& moov_prefix(file) is Some
            &&& movie_times(moov_prefix(file).unwrap()) == Some(
                (
                    1_000int,
                    final_duration(
                        movie_time(m.video_index.sizes.len() * VIDEO_SAMPLE_DELTA, timescale),
                        m.audio,
                        m.audio.len() as int,
                    ),
                ),
            )
        }),
{
    let n = m.audio.len() as int;
    let video_dur = movie_time(m.video_index.sizes.len() * VIDEO_SAMPLE_DELTA, timescale);
    let duration = final_duration(video_dur, m.audio, n);
    let next_id = last_track_id(m.audio, n) + 1;
    let rest = final_video_trak_bytes(avcc, width, height, timescale, m.video_index) + final_traks(
        m.audio,
        n,
    );
    let payload = mvhd_bytes(next_id, duration) + rest;
    lemma_final_moov(m, avcc, width, height, timescale);
    lemma_mvhd_len(next_id, duration);
    lemma_prefix_is_read(m, payload);
    let prefix = payload.take(prefix_len(payload));
    assert(prefix.take(108) =~= mvhd_bytes(next_id, duration));
    lemma_header_is_read(prefix, next_id, duration);
}

} // verus!
