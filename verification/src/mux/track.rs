//! What a player reads of a movie's tracks.

use vstd::prelude::*;

use crate::bytes::{
    be16, be24, be32, lemma_be16_reads_back, lemma_be32_mod, lemma_be32_reads_back, zeros,
};
use crate::mux::boxes::{
    audio_minf_bytes, avc1_bytes, box_bytes, colr_bytes, descriptor_bytes, esds_bytes,
    full_box_bytes, hdlr_bytes, length_bytes, length_head, lemma_box_len, matrix_bytes, mdhd_bytes,
    mdia_bytes, mp4a_bytes, tkhd_bytes, ConfigView,
};
use crate::constants::mux::AUDIO_SAMPLE_DELTA;
use crate::constants::PRODUCT_NAME;
use crate::mux::decode::{
    child, full_payload, index_fits, lemma_child, lemma_codes, lemma_last_child,
    lemma_sample_table_reads_back, reads_as, stbl_payload, u16_at, u32_at,
};
use crate::mux::fourcc;
use crate::mux::tables::{
    edts_bytes, final_audio_trak_bytes, final_video_trak_bytes, lemma_movie_time_is_nearest,
    movie_time, stbl_bytes, IndexView,
};

verus! {

/// The payload of a box in a box's payload.
pub open spec fn inner(s: Option<Seq<u8>>, typ: Seq<u8>) -> Option<Seq<u8>> {
    match s {
        Some(p) => child(p, typ),
        None => None,
    }
}

/// The media of a track.
pub open spec fn media(trak: Seq<u8>) -> Option<Seq<u8>> {
    child(trak, fourcc::MDIA@)
}

/// The sample table of a track.
pub open spec fn sample_table(trak: Seq<u8>) -> Option<Seq<u8>> {
    inner(inner(media(trak), fourcc::MINF@), fourcc::STBL@)
}

/// The payload of a track's sample entry of type `typ`, the first behind a version and a count.
pub open spec fn sample_entry(trak: Seq<u8>, typ: Seq<u8>) -> Option<Seq<u8>> {
    match inner(sample_table(trak), fourcc::STSD@) {
        Some(p) => child(p.skip(8), typ),
        None => None,
    }
}

/// Whether a player reads in a track header that the track is enabled, its id, its duration, its size
/// in pixels and its volume.
pub open spec fn header_reads(
    trak: Seq<u8>,
    id: int,
    duration: int,
    width: int,
    height: int,
    volume: int,
) -> bool {
    child(trak, fourcc::TKHD@) matches Some(p) && u32_at(p, 0) == 7 && u32_at(p, 12) == id && u32_at(
        p,
        20,
    ) == duration && u16_at(p, 76) == width && u16_at(p, 80) == height && u16_at(p, 36) == volume
}

/// Whether a player reads in a track's media its timescale, its duration, that it is in no language,
/// and its kind.
pub open spec fn media_reads(
    trak: Seq<u8>,
    timescale: int,
    duration: int,
    handler: Seq<u8>,
) -> bool {
    &&& inner(media(trak), fourcc::MDHD@) matches Some(p) && u32_at(p, 12) == timescale && u32_at(
        p,
        16,
    ) == duration && u16_at(p, 20) == 0x55C4
    &&& inner(media(trak), fourcc::HDLR@) matches Some(p) && p.subrange(8, 12) == handler
}

/// The payload of a track header.
#[verifier::opaque]
pub open spec fn tkhd_payload(
    id: int,
    width: int,
    height: int,
    volume: int,
    duration: int,
) -> Seq<u8> {
    full_payload(
        0,
        7,
        be32(0) + be32(0) + be32(id) + be32(0) + be32(duration) + zeros(8) + be16(0) + be16(0)
            + be16(volume) + be16(0) + matrix_bytes() + be16(width) + be16(0) + be16(height)
            + be16(0),
    )
}

/// What stands in the first part of two stands in both.
proof fn lemma_front(x: Seq<u8>, y: Seq<u8>, i: int, j: int)
    requires
        0 <= i <= j <= x.len(),
    ensures
        (x + y).subrange(i, j) == x.subrange(i, j),
{
    assert((x + y).subrange(i, j) =~= x.subrange(i, j));
}

/// What stands in the second part of two stands behind the first.
proof fn lemma_behind(x: Seq<u8>, y: Seq<u8>, i: int, j: int)
    requires
        0 <= i <= j <= y.len(),
    ensures
        (x + y).subrange(x.len() + i, x.len() + j) == y.subrange(i, j),
{
    assert((x + y).subrange(x.len() + i, x.len() + j) =~= y.subrange(i, j));
}

/// A track header, in three parts.
proof fn lemma_tkhd_parts(id: int, width: int, height: int, volume: int, duration: int) -> (r: (
    Seq<u8>,
    Seq<u8>,
    Seq<u8>,
))
    ensures
        ({
            let (front, middle, back) = r;
            &&& tkhd_bytes(id, width, height, volume, duration) == box_bytes(
                fourcc::TKHD@,
                tkhd_payload(id, width, height, volume, duration),
            )
            &&& tkhd_payload(id, width, height, volume, duration) == front + middle + back
            &&& front.len() == 24
            &&& middle.len() == 52
            &&& back.len() == 8
            &&& front.subrange(0, 4) == be32(7)
            &&& middle.subrange(12, 14) == be16(volume)
            &&& front.subrange(12, 16) == be32(id)
            &&& front.subrange(20, 24) == be32(duration)
            &&& back.subrange(0, 2) == be16(width)
            &&& back.subrange(4, 6) == be16(height)
        }),
{
    reveal(tkhd_payload);
    let front = seq![0u8] + be24(7) + be32(0) + be32(0) + be32(id) + be32(0) + be32(duration);
    let matrix = matrix_bytes();
    let middle = zeros(8) + be16(0) + be16(0) + be16(volume) + be16(0) + matrix;
    let back = be16(width) + be16(0) + be16(height) + be16(0);
    assert(front.subrange(0, 4) =~= be32(7));
    assert(middle.subrange(12, 14) =~= be16(volume));
    assert(front.subrange(12, 16) =~= be32(id));
    assert(front.subrange(20, 24) =~= be32(duration));
    assert(back.subrange(0, 2) =~= be16(width));
    assert(back.subrange(4, 6) =~= be16(height));
    lemma_regroup(
        seq![0u8] + be24(7),
        be32(0),
        be32(0),
        be32(id),
        be32(0),
        be32(duration),
        zeros(8),
        be16(0),
        be16(0),
        be16(volume),
        be16(0),
        matrix,
        be16(width),
        be16(0),
        be16(height),
        be16(0),
    );
    (front, middle, back)
}

/// Parts that follow one another do so however they are put together.
proof fn lemma_regroup(
    h: Seq<u8>,
    a: Seq<u8>,
    b: Seq<u8>,
    c: Seq<u8>,
    d: Seq<u8>,
    e: Seq<u8>,
    f: Seq<u8>,
    g: Seq<u8>,
    i: Seq<u8>,
    j: Seq<u8>,
    k: Seq<u8>,
    l: Seq<u8>,
    m: Seq<u8>,
    n: Seq<u8>,
    o: Seq<u8>,
    p: Seq<u8>,
)
    ensures
        h + (a + b + c + d + e + f + g + i + j + k + l + m + n + o + p) == (h + a + b + c + d + e)
            + (f + g + i + j + k + l) + (m + n + o + p),
{
    let r1 = a + b + c + d + e;
    let x = f + g + i + j + k + l;
    let y = m + n + o + p;
    let r2 = r1 + f + g + i + j + k + l;
    assert(h + r1 =~= h + a + b + c + d + e);
    assert(r2 =~= r1 + x);
    assert(r2 + m + n + o + p =~= r2 + y);
    assert(h + ((r1 + x) + y) =~= (h + r1) + x + y);
}

/// A track header is read.
pub proof fn lemma_tkhd(id: int, width: int, height: int, volume: int, duration: int)
    requires
        0 <= id <= u32::MAX,
        0 <= duration <= u32::MAX,
        0 <= width <= u16::MAX,
        0 <= height <= u16::MAX,
        0 <= volume <= u16::MAX,
    ensures
        ({
            let p = tkhd_payload(id, width, height, volume, duration);
            &&& tkhd_bytes(id, width, height, volume, duration) == box_bytes(fourcc::TKHD@, p)
            &&& p.len() == 84
            &&& u32_at(p, 0) == 7
            &&& u16_at(p, 36) == volume
            &&& u32_at(p, 12) == id
            &&& u32_at(p, 20) == duration
            &&& u16_at(p, 76) == width
            &&& u16_at(p, 80) == height
        }),
{
    let p = tkhd_payload(id, width, height, volume, duration);
    let (front, middle, back) = lemma_tkhd_parts(id, width, height, volume, duration);
    lemma_three_parts(front, middle, back, 12, 16, 0, 2);
    lemma_three_parts(front, middle, back, 20, 24, 4, 6);
    lemma_three_parts(front, middle, back, 0, 4, 0, 2);
    lemma_behind(front, middle, 12, 14);
    lemma_front(front + middle, back, 36, 38);
    lemma_be32_reads_back(7);
    lemma_be16_reads_back(volume);
    lemma_be32_reads_back(id);
    lemma_be32_reads_back(duration);
    lemma_be16_reads_back(width);
    lemma_be16_reads_back(height);
}

/// What stands in the first and in the last of three parts.
proof fn lemma_three_parts(
    front: Seq<u8>,
    middle: Seq<u8>,
    back: Seq<u8>,
    i: int,
    j: int,
    k: int,
    l: int,
)
    requires
        0 <= i <= j <= front.len(),
        0 <= k <= l <= back.len(),
    ensures
        (front + middle + back).len() == front.len() + middle.len() + back.len(),
        (front + middle + back).subrange(i, j) == front.subrange(i, j),
        (front + middle + back).subrange(
            front.len() + middle.len() + k,
            front.len() + middle.len() + l,
        ) == back.subrange(k, l),
{
    lemma_front(front, middle, i, j);
    lemma_front(front + middle, back, i, j);
    lemma_behind(front + middle, back, k, l);
}

/// The payload of a media header.
#[verifier::opaque]
pub open spec fn mdhd_payload(timescale: int, duration: int) -> Seq<u8> {
    full_payload(
        0,
        0,
        be32(0) + be32(0) + be32(timescale) + be32(duration) + be16(0x55C4) + be16(0),
    )
}

/// A media header is read.
pub proof fn lemma_mdhd(timescale: int, duration: int)
    requires
        0 <= timescale <= u32::MAX,
        0 <= duration <= u32::MAX,
    ensures
        ({
            let p = mdhd_payload(timescale, duration);
            &&& mdhd_bytes(timescale, duration) == box_bytes(fourcc::MDHD@, p)
            &&& p.len() == 24
            &&& u32_at(p, 12) == timescale
            &&& u32_at(p, 16) == duration
            &&& u16_at(p, 20) == 0x55C4
        }),
{
    reveal(mdhd_payload);
    let p = mdhd_payload(timescale, duration);
    assert(p.subrange(12, 16) =~= be32(timescale));
    assert(p.subrange(16, 20) =~= be32(duration));
    assert(p.subrange(20, 22) =~= be16(0x55C4));
    lemma_be16_reads_back(0x55C4);
    lemma_be32_reads_back(timescale);
    lemma_be32_reads_back(duration);
}

/// The payload of a handler box.
#[verifier::opaque]
pub open spec fn hdlr_payload(handler: Seq<u8>) -> Seq<u8> {
    full_payload(
        0,
        0,
        be32(0) + handler + zeros(12) + vstd::utf8::encode_utf8(PRODUCT_NAME@) + seq![0u8],
    )
}

/// A handler box is read.
pub proof fn lemma_hdlr(handler: Seq<u8>)
    requires
        handler.len() == 4,
    ensures
        hdlr_bytes(handler) == box_bytes(fourcc::HDLR@, hdlr_payload(handler)),
        hdlr_payload(handler).subrange(8, 12) == handler,
{
    reveal(hdlr_payload);
    assert(hdlr_payload(handler).subrange(8, 12) =~= handler);
}

/// The payload of a track: its header, an edit list or nothing, and its media, with a header, a
/// handler, and the information that holds the sample table.
pub open spec fn track_tree(
    tkhd: Seq<u8>,
    edits: Seq<u8>,
    mdhd: Seq<u8>,
    hdlr: Seq<u8>,
    kind: Seq<u8>,
    head: Seq<u8>,
    dref: Seq<u8>,
    stbl: Seq<u8>,
) -> Seq<u8> {
    box_bytes(fourcc::TKHD@, tkhd) + edits + box_bytes(
        fourcc::MDIA@,
        box_bytes(fourcc::MDHD@, mdhd) + box_bytes(fourcc::HDLR@, hdlr) + box_bytes(
            fourcc::MINF@,
            box_bytes(kind, head) + box_bytes(fourcc::DINF@, dref) + box_bytes(
                fourcc::STBL@,
                stbl,
            ),
        ),
    )
}

/// A media-information box is read.
proof fn lemma_minf(kind: Seq<u8>, head: Seq<u8>, dref: Seq<u8>, stbl: Seq<u8>)
    requires
        kind == fourcc::VMHD@ || kind == fourcc::SMHD@,
        head.len() + 8 <= u32::MAX,
        dref.len() + 8 <= u32::MAX,
        stbl.len() + 8 <= u32::MAX,
    ensures
        child(
            box_bytes(kind, head) + box_bytes(fourcc::DINF@, dref) + box_bytes(
                fourcc::STBL@,
                stbl,
            ),
            fourcc::STBL@,
        ) == Some(stbl),
{
    lemma_codes();
    let third = box_bytes(fourcc::STBL@, stbl);
    let second = box_bytes(fourcc::DINF@, dref) + third;
    assert(box_bytes(kind, head) + second =~= box_bytes(kind, head) + box_bytes(
        fourcc::DINF@,
        dref,
    ) + third);
    assert(kind[1] == 0x6D && fourcc::STBL@[1] == 0x74);
    assert(fourcc::DINF@[0] == 0x64 && fourcc::STBL@[0] == 0x73);
    lemma_child(kind, head, second, fourcc::STBL@);
    lemma_child(fourcc::DINF@, dref, third, fourcc::STBL@);
    lemma_last_child(fourcc::STBL@, stbl, fourcc::STBL@);
}

/// A media box is read.
proof fn lemma_mdia(mdhd: Seq<u8>, hdlr: Seq<u8>, minf: Seq<u8>)
    requires
        mdhd.len() + 8 <= u32::MAX,
        hdlr.len() + 8 <= u32::MAX,
        minf.len() + 8 <= u32::MAX,
    ensures
        ({
            let p = box_bytes(fourcc::MDHD@, mdhd) + box_bytes(fourcc::HDLR@, hdlr) + box_bytes(
                fourcc::MINF@,
                minf,
            );
            &&& child(p, fourcc::MDHD@) == Some(mdhd)
            &&& child(p, fourcc::HDLR@) == Some(hdlr)
            &&& child(p, fourcc::MINF@) == Some(minf)
        }),
{
    lemma_codes();
    let third = box_bytes(fourcc::MINF@, minf);
    let second = box_bytes(fourcc::HDLR@, hdlr) + third;
    assert(box_bytes(fourcc::MDHD@, mdhd) + second =~= box_bytes(fourcc::MDHD@, mdhd) + box_bytes(
        fourcc::HDLR@,
        hdlr,
    ) + third);
    assert(fourcc::MDHD@[0] == 0x6D && fourcc::HDLR@[0] == 0x68 && fourcc::MINF@[0] == 0x6D);
    assert(fourcc::MDHD@[1] == 0x64 && fourcc::MINF@[1] == 0x69);
    lemma_child(fourcc::MDHD@, mdhd, second, fourcc::MDHD@);
    lemma_child(fourcc::MDHD@, mdhd, second, fourcc::HDLR@);
    lemma_child(fourcc::MDHD@, mdhd, second, fourcc::MINF@);
    lemma_child(fourcc::HDLR@, hdlr, third, fourcc::HDLR@);
    lemma_child(fourcc::HDLR@, hdlr, third, fourcc::MINF@);
    lemma_last_child(fourcc::MINF@, minf, fourcc::MINF@);
}

/// The boxes of a track are found.
pub proof fn lemma_track_tree(
    tkhd: Seq<u8>,
    edits: Seq<u8>,
    elst: Seq<u8>,
    mdhd: Seq<u8>,
    hdlr: Seq<u8>,
    kind: Seq<u8>,
    head: Seq<u8>,
    dref: Seq<u8>,
    stbl: Seq<u8>,
)
    requires
        kind == fourcc::VMHD@ || kind == fourcc::SMHD@,
        edits.len() == 0 || edits == box_bytes(fourcc::EDTS@, elst),
        track_tree(tkhd, edits, mdhd, hdlr, kind, head, dref, stbl).len() + 8 <= u32::MAX,
    ensures
        ({
            let trak = track_tree(tkhd, edits, mdhd, hdlr, kind, head, dref, stbl);
            &&& child(trak, fourcc::TKHD@) == Some(tkhd)
            &&& child(trak, fourcc::EDTS@) == if edits.len() == 0 {
                None
            } else {
                Some(elst)
            }
            &&& inner(media(trak), fourcc::MDHD@) == Some(mdhd)
            &&& inner(media(trak), fourcc::HDLR@) == Some(hdlr)
            &&& sample_table(trak) == Some(stbl)
            &&& stbl.len() + 8 <= u32::MAX
        }),
{
    lemma_codes();
    let minf = box_bytes(kind, head) + box_bytes(fourcc::DINF@, dref) + box_bytes(
        fourcc::STBL@,
        stbl,
    );
    let mdia = box_bytes(fourcc::MDHD@, mdhd) + box_bytes(fourcc::HDLR@, hdlr) + box_bytes(
        fourcc::MINF@,
        minf,
    );
    let last = box_bytes(fourcc::MDIA@, mdia);
    let second = edits + last;
    lemma_box_len(kind, head);
    lemma_box_len(fourcc::DINF@, dref);
    lemma_box_len(fourcc::STBL@, stbl);
    lemma_box_len(fourcc::MDHD@, mdhd);
    lemma_box_len(fourcc::HDLR@, hdlr);
    lemma_box_len(fourcc::MINF@, minf);
    lemma_box_len(fourcc::MDIA@, mdia);
    lemma_box_len(fourcc::TKHD@, tkhd);
    lemma_box_len(fourcc::EDTS@, elst);
    lemma_minf(kind, head, dref, stbl);
    lemma_mdia(mdhd, hdlr, minf);
    assert(track_tree(tkhd, edits, mdhd, hdlr, kind, head, dref, stbl) =~= box_bytes(
        fourcc::TKHD@,
        tkhd,
    ) + second);
    assert(fourcc::TKHD@[0] == 0x74 && fourcc::MDIA@[0] == 0x6D && fourcc::EDTS@[0] == 0x65);
    lemma_child(fourcc::TKHD@, tkhd, second, fourcc::TKHD@);
    lemma_child(fourcc::TKHD@, tkhd, second, fourcc::EDTS@);
    lemma_child(fourcc::TKHD@, tkhd, second, fourcc::MDIA@);
    if edits.len() == 0 {
        assert(second =~= last);
    } else {
        lemma_child(fourcc::EDTS@, elst, last, fourcc::EDTS@);
        lemma_child(fourcc::EDTS@, elst, last, fourcc::MDIA@);
    }
    lemma_last_child(fourcc::MDIA@, mdia, fourcc::EDTS@);
    lemma_last_child(fourcc::MDIA@, mdia, fourcc::MDIA@);
}

/// Whether a player reads in an H.264 sample entry its size in pixels, its decoder configuration
/// record and its colours.
pub open spec fn picture_reads(trak: Seq<u8>, width: int, height: int, avcc: Seq<u8>) -> bool {
    sample_entry(trak, fourcc::AVC1@) matches Some(e) && is_plain_picture(e) && u16_at(e, 24) == width
        && u16_at(e, 26) == height && child(e.skip(78), fourcc::AVCC@) == Some(avcc)
}

/// Whether a picture is in this file, at 72 dots an inch, one frame a sample and 24 bits deep, and in
/// the colours of BT.709 in the narrow range.
pub open spec fn is_plain_picture(entry: Seq<u8>) -> bool {
    &&& u16_at(entry, 6) == 1
    &&& u32_at(entry, 28) == 72 * 0x1_0000
    &&& u32_at(entry, 32) == 72 * 0x1_0000
    &&& u16_at(entry, 40) == 1
    &&& u16_at(entry, 74) == 24
    &&& u16_at(entry, 76) == 0xFFFF
    &&& child(entry.skip(78), seq![0x63u8, 0x6F, 0x6C, 0x72]) == Some(
        seq![0x6Eu8, 0x63, 0x6C, 0x78, 0, 1, 0, 1, 0, 1, 0],
    )
}

/// The payload of an H.264 sample entry.
#[verifier::opaque]
pub open spec fn avc1_payload(avcc: Seq<u8>, width: int, height: int) -> Seq<u8> {
    zeros(6) + be16(1) + be16(0) + be16(0) + zeros(12) + be16(width) + be16(height) + be32(
        0x0048_0000,
    ) + be32(0x0048_0000) + be32(0) + be16(1) + zeros(32) + be16(0x0018) + be16(0xFFFF) + box_bytes(
        fourcc::AVCC@,
        avcc,
    ) + colr_bytes()
}

/// An H.264 sample entry is read.
pub proof fn lemma_avc1(avcc: Seq<u8>, width: int, height: int)
    requires
        0 <= width <= u16::MAX,
        0 <= height <= u16::MAX,
        avc1_bytes(avcc, width, height).len() <= u32::MAX,
    ensures
        ({
            let e = avc1_payload(avcc, width, height);
            &&& avc1_bytes(avcc, width, height) == box_bytes(fourcc::AVC1@, e)
            &&& is_plain_picture(e)
            &&& u16_at(e, 24) == width
            &&& u16_at(e, 26) == height
            &&& child(e.skip(78), fourcc::AVCC@) == Some(avcc)
        }),
{
    lemma_codes();
    let e = avc1_payload(avcc, width, height);
    let (front, back) = lemma_avc1_parts(avcc, width, height);
    lemma_box_len(fourcc::AVC1@, e);
    lemma_box_len(fourcc::AVCC@, avcc);
    lemma_avc1_front(front, width, height);
    lemma_front(front, back, 6, 8);
    lemma_front(front, back, 24, 26);
    lemma_front(front, back, 26, 28);
    lemma_front(front, back, 28, 32);
    lemma_front(front, back, 32, 36);
    lemma_front(front, back, 40, 42);
    lemma_front(front, back, 74, 76);
    lemma_front(front, back, 76, 78);
    assert(e.skip(78) =~= back);
    lemma_child(fourcc::AVCC@, avcc, colr_bytes(), fourcc::AVCC@);
    lemma_colours(avcc);
}

/// The bytes before the boxes of an H.264 sample entry.
pub open spec fn avc1_front(width: int, height: int) -> Seq<u8> {
    zeros(6) + be16(1) + be16(0) + be16(0) + zeros(12) + be16(width) + be16(height) + be32(
        0x0048_0000,
    ) + be32(0x0048_0000) + be32(0) + be16(1) + zeros(32) + be16(0x0018) + be16(0xFFFF)
}

/// An H.264 sample entry, in two parts.
proof fn lemma_avc1_parts(avcc: Seq<u8>, width: int, height: int) -> (r: (Seq<u8>, Seq<u8>))
    ensures
        avc1_bytes(avcc, width, height) == box_bytes(
            fourcc::AVC1@,
            avc1_payload(avcc, width, height),
        ),
        avc1_payload(avcc, width, height) == r.0 + r.1,
        r.0 == avc1_front(width, height),
        r.0.len() == 78,
        r.1 == box_bytes(fourcc::AVCC@, avcc) + colr_bytes(),
{
    reveal(avc1_payload);
    let front = avc1_front(width, height);
    let a = box_bytes(fourcc::AVCC@, avcc);
    let b = colr_bytes();
    assert(front + a + b =~= front + (a + b));
    (front, a + b)
}

/// The numbers before the boxes of an H.264 sample entry.
proof fn lemma_avc1_front(front: Seq<u8>, width: int, height: int)
    requires
        front == avc1_front(width, height),
        0 <= width <= u16::MAX,
        0 <= height <= u16::MAX,
    ensures
        front.len() == 78,
        u16_at(front, 6) == 1,
        u16_at(front, 24) == width,
        u16_at(front, 26) == height,
        u32_at(front, 28) == 0x0048_0000,
        u32_at(front, 32) == 0x0048_0000,
        u16_at(front, 40) == 1,
        u16_at(front, 74) == 24,
        u16_at(front, 76) == 0xFFFF,
{
    assert(front.subrange(6, 8) =~= be16(1));
    assert(front.subrange(24, 26) =~= be16(width));
    assert(front.subrange(26, 28) =~= be16(height));
    assert(front.subrange(28, 32) =~= be32(0x0048_0000));
    assert(front.subrange(32, 36) =~= be32(0x0048_0000));
    assert(front.subrange(40, 42) =~= be16(1));
    assert(front.subrange(74, 76) =~= be16(0x0018));
    assert(front.subrange(76, 78) =~= be16(0xFFFF));
    lemma_be16_reads_back(1);
    lemma_be16_reads_back(0x0018);
    lemma_be16_reads_back(0xFFFF);
    lemma_be32_reads_back(0x0048_0000);
    lemma_be16_reads_back(width);
    lemma_be16_reads_back(height);
}

/// The colour box stands behind the decoder configuration record.
proof fn lemma_colours(avcc: Seq<u8>)
    requires
        avcc.len() + 8 <= u32::MAX,
    ensures
        child(
            box_bytes(fourcc::AVCC@, avcc) + colr_bytes(),
            seq![0x63u8, 0x6F, 0x6C, 0x72],
        ) == Some(seq![0x6Eu8, 0x63, 0x6C, 0x78, 0, 1, 0, 1, 0, 1, 0]),
{
    lemma_codes();
    let p = fourcc::NCLX@ + be16(1) + be16(1) + be16(1) + seq![0u8];
    assert(p =~= seq![0x6Eu8, 0x63, 0x6C, 0x78, 0, 1, 0, 1, 0, 1, 0]);
    assert(fourcc::AVCC@[0] == 0x61 && fourcc::COLR@[0] == 0x63);
    lemma_child(fourcc::AVCC@, avcc, colr_bytes(), fourcc::COLR@);
    lemma_last_child(fourcc::COLR@, p, fourcc::COLR@);
}

/// The sample entry stands behind a version and a count.
pub proof fn lemma_entry(typ: Seq<u8>, entry: Seq<u8>)
    requires
        typ.len() == 4,
        entry.len() + 8 <= u32::MAX,
    ensures
        child(full_payload(0, 0, be32(1) + box_bytes(typ, entry)).skip(8), typ) == Some(entry),
        u32_at(full_payload(0, 0, be32(1) + box_bytes(typ, entry)), 4) == 1,
{
    let p = full_payload(0, 0, be32(1) + box_bytes(typ, entry));
    assert(p.skip(8) =~= box_bytes(typ, entry));
    assert(p.subrange(4, 8) =~= be32(1));
    lemma_be32_reads_back(1);
    lemma_last_child(typ, entry, typ);
}

/// Whether a duration in milliseconds is the nearest to `units` in a timescale.
pub open spec fn is_nearest_ms(ms: int, units: int, timescale: int) -> bool {
    -timescale <= 2 * (ms * timescale - units * 1_000) <= timescale
}

/// The reference that says that the media are in the same file.
pub open spec fn dref_bytes() -> Seq<u8> {
    full_box_bytes(
        fourcc::DREF@,
        0,
        0,
        be32(1) + full_box_bytes(fourcc::URL@, 0, 1, Seq::empty()),
    )
}

/// A sample entry is no longer than the table it stands in.
proof fn lemma_entry_is_shorter(entry: Seq<u8>, index: IndexView, delta: int)
    ensures
        entry.len() + 16 <= stbl_payload(entry, index, delta).len(),
{
    lemma_codes();
    lemma_box_len(fourcc::STSD@, full_payload(0, 0, be32(1) + entry));
}

/// The bytes of a video track are a track with its parts.
proof fn lemma_video_trak_bytes(
    avcc: Seq<u8>,
    width: int,
    height: int,
    timescale: int,
    index: IndexView,
)
    requires
        1 <= timescale <= u32::MAX,
        index.sizes.len() * 1_000 <= u32::MAX,
    ensures
        final_video_trak_bytes(avcc, width, height, timescale, index) == box_bytes(
            fourcc::TRAK@,
            track_tree(
                tkhd_payload(
                    1,
                    width,
                    height,
                    0,
                    movie_time(index.sizes.len() * 1_000int, timescale),
                ),
                Seq::empty(),
                mdhd_payload(timescale, index.sizes.len() * 1_000int),
                hdlr_payload(fourcc::VIDE@),
                fourcc::VMHD@,
                full_payload(0, 1, zeros(8)),
                dref_bytes(),
                stbl_payload(avc1_bytes(avcc, width, height), index, 1_000),
            ),
        ),
{
    reveal(tkhd_payload);
    reveal(mdhd_payload);
    reveal(hdlr_payload);
    let dur = index.sizes.len() * 1_000int;
    assert(dur % 0x1_0000_0000 == dur);
    let ms = movie_time(dur, timescale);
    let tkhd = box_bytes(fourcc::TKHD@, tkhd_payload(1, width, height, 0, ms));
    assert(tkhd_bytes(1, width, height, 0, ms) == tkhd);
    let none: Seq<u8> = Seq::empty();
    assert(tkhd + none =~= tkhd);
    let table = stbl_bytes(avc1_bytes(avcc, width, height), index, 1_000);
    assert(table == box_bytes(
        fourcc::STBL@,
        stbl_payload(avc1_bytes(avcc, width, height), index, 1_000),
    ));
    assert(mdhd_bytes(timescale, dur) == box_bytes(fourcc::MDHD@, mdhd_payload(timescale, dur)));
}

/// Law: a player reads in the video track of a finished movie its id, how long it lasts (each sample
/// a thousand units of the timescale), its size in pixels, its decoder configuration record, and
/// every sample of its index.
pub proof fn lemma_video_track_reads_back(
    avcc: Seq<u8>,
    width: int,
    height: int,
    timescale: int,
    index: IndexView,
) -> (trak: Seq<u8>)
    requires
        0 <= width <= u16::MAX,
        0 <= height <= u16::MAX,
        1 <= timescale <= u32::MAX,
        index_fits(index),
        index.sizes.len() * 1_000 <= u32::MAX,
        2 * (index.sizes.len() * 1_000_000) + timescale < 2 * timescale * 0x1_0000_0000,
        final_video_trak_bytes(avcc, width, height, timescale, index).len() <= u32::MAX,
    ensures
        final_video_trak_bytes(avcc, width, height, timescale, index) == box_bytes(
            fourcc::TRAK@,
            trak,
        ),
        picture_reads(trak, width, height, avcc),
        exists|ms: int|
            #[trigger] header_reads(trak, 1, ms, width, height, 0) && is_nearest_ms(
                ms,
                index.sizes.len() * 1_000int,
                timescale,
            ),
        media_reads(
            trak,
            timescale,
            index.sizes.len() * 1_000int,
            seq![0x76u8, 0x69, 0x64, 0x65],
        ),
        sample_table(trak) matches Some(stbl) && reads_as(stbl, index, 1_000),
{
    let n = index.sizes.len() as int;
    let dur = n * 1_000;
    let ms = movie_time(dur, timescale);
    assert(0 <= ms <= u32::MAX);
    lemma_movie_time_is_nearest(dur, timescale);
    lemma_codes();
    let entry = avc1_bytes(avcc, width, height);
    let stbl = stbl_payload(entry, index, 1_000);
    let head = full_payload(0, 1, zeros(8));
    let dref = dref_bytes();
    let tkhd = tkhd_payload(1, width, height, 0, ms);
    let mdhd = mdhd_payload(timescale, dur);
    let hdlr = hdlr_payload(fourcc::VIDE@);
    let none: Seq<u8> = Seq::empty();
    let trak = track_tree(tkhd, none, mdhd, hdlr, fourcc::VMHD@, head, dref, stbl);
    lemma_video_trak_bytes(avcc, width, height, timescale, index);
    lemma_tkhd(1, width, height, 0, ms);
    lemma_mdhd(timescale, dur);
    lemma_hdlr(fourcc::VIDE@);
    lemma_box_len(fourcc::TRAK@, trak);
    lemma_track_tree(tkhd, none, none, mdhd, hdlr, fourcc::VMHD@, head, dref, stbl);
    lemma_box_len(fourcc::STBL@, stbl);
    assert(stbl_bytes(entry, index, 1_000) == box_bytes(fourcc::STBL@, stbl));
    lemma_sample_table_reads_back(entry, index, 1_000);
    lemma_entry_is_shorter(entry, index, 1_000);
    lemma_avc1(avcc, width, height);
    lemma_box_len(fourcc::AVC1@, avc1_payload(avcc, width, height));
    lemma_entry(fourcc::AVC1@, avc1_payload(avcc, width, height));
    assert(header_reads(trak, 1, ms, width, height, 0));
    assert(picture_reads(trak, width, height, avcc));
    trak
}

/// The length that a descriptor begins with, going on from `acc`, and the number of bytes it takes:
/// seven bits a byte, the high bit set on all but the last.
pub open spec fn read_length(s: Seq<u8>, acc: int) -> Option<(int, int)>
    decreases s.len(),
{
    if s.len() == 0 {
        None
    } else if s[0] < 128 {
        Some((acc * 128 + s[0], 1))
    } else {
        match read_length(s.skip(1), acc * 128 + s[0] - 128) {
            Some((n, k)) => Some((n, k + 1)),
            None => None,
        }
    }
}

/// The payload of the descriptor with a tag that `s` begins with.
pub open spec fn read_descriptor(s: Seq<u8>, tag: u8) -> Option<Seq<u8>> {
    if s.len() == 0 || s[0] != tag {
        None
    } else {
        match read_length(s.skip(1), 0) {
            Some((n, k)) => if 1 + k + n <= s.len() {
                Some(s.subrange(1 + k, 1 + k + n))
            } else {
                None
            },
            None => None,
        }
    }
}

/// The digits of a length above the lowest are read.
proof fn lemma_length_head(m: int, t: Seq<u8>)
    requires
        0 <= m,
    ensures
        read_length(length_head(m) + t, 0) == match read_length(t, m) {
            Some((n, k)) => Some((n, k + length_head(m).len())),
            None => None,
        },
    decreases m,
{
    if m > 0 {
        let d = (m % 128 + 128) as u8;
        let high = length_head(m / 128);
        let more = seq![d] + t;
        assert(length_head(m) + t =~= high + more);
        lemma_length_head(m / 128, more);
        assert(more.skip(1) =~= t);
        assert((m / 128) * 128 + d - 128 == m);
    } else {
        assert(length_head(m) + t =~= t);
        match read_length(t, m) {
            Some((n, k)) => {},
            None => {},
        }
    }
}

/// Law: the length of a descriptor reads back as it was.
pub proof fn lemma_length_reads_back(n: int, rest: Seq<u8>)
    requires
        0 <= n,
    ensures
        read_length(length_bytes(n) + rest, 0) == Some((n, length_bytes(n).len() as int)),
{
    let low = (n % 128) as u8;
    let t = seq![low] + rest;
    assert(length_bytes(n) + rest =~= length_head(n / 128) + t);
    lemma_length_head(n / 128, t);
    assert((n / 128) * 128 + low == n);
}

/// A descriptor is read.
proof fn lemma_descriptor(tag: u8, payload: Seq<u8>, rest: Seq<u8>)
    ensures
        read_descriptor(descriptor_bytes(tag, payload) + rest, tag) == Some(payload),
{
    let n = payload.len() as int;
    let s = descriptor_bytes(tag, payload) + rest;
    assert(s.skip(1) =~= length_bytes(n) + (payload + rest));
    lemma_length_reads_back(n, payload + rest);
    let k = length_bytes(n).len() as int;
    assert(s.subrange(1 + k, 1 + k + n) =~= payload);
}

/// The decoder configuration in the payload of an elementary-stream box: in the decoder-specific
/// descriptor, in the decoder-configuration descriptor, in the stream descriptor.
pub open spec fn read_asc(esds: Seq<u8>) -> Option<Seq<u8>> {
    match read_descriptor(esds.skip(4), 0x03) {
        Some(es) => match read_descriptor(es.skip(3), 0x04) {
            Some(decoder) => if decoder[0] == 0x40 && decoder[1] == 0x15 {
                read_descriptor(decoder.skip(13), 0x05)
            } else {
                None
            },
            None => None,
        },
        None => None,
    }
}

/// The payload of an elementary-stream box.
#[verifier::opaque]
pub open spec fn esds_payload(asc: Seq<u8>) -> Seq<u8> {
    full_payload(
        0,
        0,
        descriptor_bytes(
            0x03,
            be16(0) + seq![0u8] + descriptor_bytes(
                0x04,
                seq![0x40u8, 0x15] + zeros(3) + be32(0) + be32(0) + descriptor_bytes(0x05, asc),
            ) + descriptor_bytes(0x06, seq![0x02u8]),
        ),
    )
}

/// An elementary-stream box is read.
pub proof fn lemma_esds(asc: Seq<u8>)
    ensures
        esds_bytes(asc) == box_bytes(fourcc::ESDS@, esds_payload(asc)),
        read_asc(esds_payload(asc)) == Some(asc),
{
    reveal(esds_payload);
    let none: Seq<u8> = Seq::empty();
    let specific = descriptor_bytes(0x05, asc);
    let decoder = seq![0x40u8, 0x15] + zeros(3) + be32(0) + be32(0) + specific;
    let sync = descriptor_bytes(0x06, seq![0x02u8]);
    let inside = descriptor_bytes(0x04, decoder);
    let es = be16(0) + seq![0u8] + inside + sync;
    let whole = descriptor_bytes(0x03, es);
    let p = esds_payload(asc);
    assert(p.skip(4) =~= whole + none);
    lemma_descriptor(0x03, es, none);
    assert(es.skip(3) =~= inside + sync);
    lemma_descriptor(0x04, decoder, sync);
    assert(decoder[0] == 0x40 && decoder[1] == 0x15);
    assert(decoder.skip(13) =~= specific + none);
    lemma_descriptor(0x05, asc, none);
}

/// The payload of an AAC sample entry.
#[verifier::opaque]
pub open spec fn mp4a_payload(config: ConfigView) -> Seq<u8> {
    zeros(6) + be16(1) + zeros(8) + be16(config.channels) + be16(16) + be16(0) + be16(0) + be16(
        config.sample_rate,
    ) + be16(0) + esds_bytes(config.asc)
}

/// Whether a player reads in an AAC sample entry the channels, the sample rate and the decoder
/// configuration.
pub open spec fn sound_reads(trak: Seq<u8>, config: ConfigView) -> bool {
    sample_entry(trak, fourcc::MP4A@) matches Some(e) && u16_at(e, 6) == 1 && u16_at(e, 18) == 16
        && u16_at(e, 16) == config.channels && u16_at(e, 24) == config.sample_rate && (child(e.skip(28), fourcc::ESDS@) matches Some(esds) && read_asc(esds)
        == Some(config.asc))
}

/// An AAC sample entry is read.
pub proof fn lemma_mp4a(config: ConfigView)
    requires
        0 <= config.channels <= u16::MAX,
        0 <= config.sample_rate <= u16::MAX,
        mp4a_bytes(config).len() <= u32::MAX,
    ensures
        ({
            let e = mp4a_payload(config);
            &&& mp4a_bytes(config) == box_bytes(fourcc::MP4A@, e)
            &&& u16_at(e, 6) == 1
            &&& u16_at(e, 18) == 16
            &&& u16_at(e, 16) == config.channels
            &&& u16_at(e, 24) == config.sample_rate
            &&& child(e.skip(28), fourcc::ESDS@) == Some(esds_payload(config.asc))
        }),
{
    reveal(mp4a_payload);
    let e = mp4a_payload(config);
    lemma_codes();
    lemma_esds(config.asc);
    let esds = esds_bytes(config.asc);
    lemma_box_len(fourcc::MP4A@, e);
    lemma_box_len(fourcc::ESDS@, esds_payload(config.asc));
    assert(e.subrange(6, 8) =~= be16(1));
    assert(e.subrange(18, 20) =~= be16(16));
    lemma_be16_reads_back(1);
    lemma_be16_reads_back(16);
    assert(e.subrange(16, 18) =~= be16(config.channels));
    assert(e.subrange(24, 26) =~= be16(config.sample_rate));
    lemma_be16_reads_back(config.channels);
    lemma_be16_reads_back(config.sample_rate);
    assert(e.skip(28) =~= esds);
    lemma_last_child(fourcc::ESDS@, esds_payload(config.asc), fourcc::ESDS@);
}

/// Whether a player reads in a track's edit list that it begins `delay` into the movie, and then goes
/// on from the beginning of its media for `media`. Without a delay there is no list.
pub open spec fn delay_reads(trak: Seq<u8>, delay: int, media: int) -> bool {
    match child(trak, fourcc::EDTS@) {
        None => delay == 0,
        Some(edts) => delay > 0 && (child(edts, fourcc::ELST@) matches Some(p) && u32_at(p, 4) == 2
            && u32_at(p, 8) == delay && u32_at(p, 12) == 0xFFFF_FFFF && u32_at(p, 20) == media
            && u32_at(p, 24) == 0),
    }
}

/// The payload of an edit list.
#[verifier::opaque]
pub open spec fn elst_payload(delay: int, media: int) -> Seq<u8> {
    full_payload(
        0,
        0,
        be32(2) + be32(delay) + be32(-1) + be32(0x0001_0000) + be32(media) + be32(0) + be32(
            0x0001_0000,
        ),
    )
}

/// An edit list is read.
proof fn lemma_edts(delay: int, media: int)
    requires
        0 <= delay <= u32::MAX,
        0 <= media <= u32::MAX,
    ensures
        ({
            let p = elst_payload(delay, media);
            let edts = box_bytes(fourcc::ELST@, p);
            &&& edts_bytes(delay, media) == box_bytes(fourcc::EDTS@, edts)
            &&& child(edts, fourcc::ELST@) == Some(p)
            &&& u32_at(p, 4) == 2
            &&& u32_at(p, 8) == delay
            &&& u32_at(p, 12) == 0xFFFF_FFFF
            &&& u32_at(p, 20) == media
            &&& u32_at(p, 24) == 0
        }),
{
    reveal(elst_payload);
    let p = elst_payload(delay, media);
    lemma_codes();
    assert(p.len() == 32);
    assert(p.subrange(4, 8) =~= be32(2));
    assert(p.subrange(8, 12) =~= be32(delay));
    assert(p.subrange(12, 16) =~= be32(-1));
    assert(p.subrange(20, 24) =~= be32(media));
    assert(p.subrange(24, 28) =~= be32(0));
    lemma_be32_mod(-1);
    assert(-1int % 0x1_0000_0000 == 0xFFFF_FFFF);
    lemma_be32_reads_back(2);
    lemma_be32_reads_back(delay);
    lemma_be32_reads_back(0xFFFF_FFFF);
    lemma_be32_reads_back(media);
    lemma_be32_reads_back(0);
    lemma_last_child(fourcc::ELST@, p, fourcc::ELST@);
}

/// The bytes of an audio track are a track with its parts.
proof fn lemma_audio_trak_bytes(id: int, config: ConfigView, offset: int, index: IndexView)
    requires
        index.sizes.len() * 1_024 <= u32::MAX,
    ensures
        ({
            let dur = index.sizes.len() * 1_024int;
            let media = movie_time(dur, config.sample_rate);
            let delay = movie_time(offset, config.sample_rate);
            final_audio_trak_bytes(id, config, offset, index) == box_bytes(
                fourcc::TRAK@,
                track_tree(
                    tkhd_payload(id, 0, 0, 0x0100, (delay + media) % 0x1_0000_0000),
                    if delay > 0 {
                        edts_bytes(delay, media)
                    } else {
                        Seq::empty()
                    },
                    mdhd_payload(config.sample_rate, dur),
                    hdlr_payload(fourcc::SOUN@),
                    fourcc::SMHD@,
                    full_payload(0, 0, zeros(4)),
                    dref_bytes(),
                    stbl_payload(mp4a_bytes(config), index, 1_024),
                ),
            )
        }),
{
    reveal(tkhd_payload);
    reveal(mdhd_payload);
    reveal(hdlr_payload);
    let dur = index.sizes.len() * 1_024int;
    assert(dur % 0x1_0000_0000 == dur);
    let media = movie_time(dur, config.sample_rate);
    let delay = movie_time(offset, config.sample_rate);
    let total = (delay + media) % 0x1_0000_0000;
    assert(tkhd_bytes(id, 0, 0, 0x0100, total) == box_bytes(
        fourcc::TKHD@,
        tkhd_payload(id, 0, 0, 0x0100, total),
    ));
    let table = stbl_bytes(mp4a_bytes(config), index, 1_024);
    assert(table == box_bytes(fourcc::STBL@, stbl_payload(mp4a_bytes(config), index, 1_024)));
    assert(mdhd_bytes(config.sample_rate, dur) == box_bytes(
        fourcc::MDHD@,
        mdhd_payload(config.sample_rate, dur),
    ));
}

/// An audio track is a box.
pub proof fn lemma_audio_trak_is_a_box(
    id: int,
    config: ConfigView,
    offset: int,
    index: IndexView,
) -> (p: Seq<u8>)
    ensures
        final_audio_trak_bytes(id, config, offset, index) == box_bytes(fourcc::TRAK@, p),
{
    let media_dur = index.sizes.len() * AUDIO_SAMPLE_DELTA;
    let media_movie = movie_time(media_dur, config.sample_rate);
    let delay_movie = movie_time(offset, config.sample_rate);
    let tkhd = tkhd_bytes(id, 0, 0, 0x0100, (delay_movie + media_movie) % 0x1_0000_0000);
    let mdia = mdia_bytes(
        mdhd_bytes(config.sample_rate, media_dur % 0x1_0000_0000),
        hdlr_bytes(fourcc::SOUN@),
        audio_minf_bytes(stbl_bytes(mp4a_bytes(config), index, AUDIO_SAMPLE_DELTA as int)),
    );
    tkhd + (if delay_movie > 0 {
        edts_bytes(delay_movie, media_movie)
    } else {
        Seq::empty()
    }) + mdia
}

/// Whether a number of units in a timescale fits a movie's times.
pub open spec fn time_fits(units: int, timescale: int) -> bool {
    0 <= units && 2 * (units * 1_000) + timescale < 2 * timescale * 0x1_0000_0000
}

/// Law: a player reads in an audio track of a finished movie its id, where it begins in the movie and
/// how long it lasts (each access unit 1024 samples), its channels, its sample rate, its decoder
/// configuration, and every access unit of its index.
pub proof fn lemma_audio_track_reads_back(
    id: int,
    config: ConfigView,
    offset: int,
    index: IndexView,
) -> (r: (Seq<u8>, int, int))
    requires
        0 <= id <= u32::MAX,
        0 <= config.channels <= u16::MAX,
        1 <= config.sample_rate <= u16::MAX,
        index_fits(index),
        index.sizes.len() * 1_024 <= u32::MAX,
        time_fits(index.sizes.len() * 1_024int, config.sample_rate),
        time_fits(offset, config.sample_rate),
        final_audio_trak_bytes(id, config, offset, index).len() <= u32::MAX,
    ensures
        ({
            let (trak, delay, media) = r;
            &&& final_audio_trak_bytes(id, config, offset, index) == box_bytes(
                fourcc::TRAK@,
                trak,
            )
            &&& is_nearest_ms(delay, offset, config.sample_rate)
            &&& is_nearest_ms(media, index.sizes.len() * 1_024int, config.sample_rate)
            &&& header_reads(trak, id, (delay + media) % 0x1_0000_0000, 0, 0, 0x0100)
            &&& delay_reads(trak, delay, media)
            &&& media_reads(
                trak,
                config.sample_rate,
                index.sizes.len() * 1_024int,
                seq![0x73u8, 0x6F, 0x75, 0x6E],
            )
            &&& sound_reads(trak, config)
            &&& sample_table(trak) matches Some(stbl) && reads_as(stbl, index, 1_024)
        }),
{
    let dur = index.sizes.len() * 1_024int;
    let media = movie_time(dur, config.sample_rate);
    let delay = movie_time(offset, config.sample_rate);
    lemma_movie_time_is_nearest(dur, config.sample_rate);
    lemma_movie_time_is_nearest(offset, config.sample_rate);
    assert(0 <= media <= u32::MAX && 0 <= delay <= u32::MAX);
    lemma_codes();
    let total = (delay + media) % 0x1_0000_0000;
    let entry = mp4a_bytes(config);
    let stbl = stbl_payload(entry, index, 1_024);
    let head = full_payload(0, 0, zeros(4));
    let dref = dref_bytes();
    let tkhd = tkhd_payload(id, 0, 0, 0x0100, total);
    let mdhd = mdhd_payload(config.sample_rate, dur);
    let hdlr = hdlr_payload(fourcc::SOUN@);
    let elst = box_bytes(fourcc::ELST@, elst_payload(delay, media));
    let edits = if delay > 0 {
        edts_bytes(delay, media)
    } else {
        Seq::empty()
    };
    let trak = track_tree(tkhd, edits, mdhd, hdlr, fourcc::SMHD@, head, dref, stbl);
    lemma_audio_trak_bytes(id, config, offset, index);
    lemma_edts(delay, media);
    lemma_box_len(fourcc::EDTS@, elst);
    lemma_tkhd(id, 0, 0, 0x0100, total);
    lemma_mdhd(config.sample_rate, dur);
    lemma_hdlr(fourcc::SOUN@);
    lemma_box_len(fourcc::TRAK@, trak);
    lemma_track_tree(tkhd, edits, elst, mdhd, hdlr, fourcc::SMHD@, head, dref, stbl);
    lemma_box_len(fourcc::STBL@, stbl);
    assert(stbl_bytes(entry, index, 1_024) == box_bytes(fourcc::STBL@, stbl));
    lemma_sample_table_reads_back(entry, index, 1_024);
    lemma_entry_is_shorter(entry, index, 1_024);
    lemma_mp4a(config);
    lemma_esds(config.asc);
    lemma_box_len(fourcc::MP4A@, mp4a_payload(config));
    lemma_entry(fourcc::MP4A@, mp4a_payload(config));
    assert(sound_reads(trak, config));
    (trak, delay, media)
}

} // verus!
