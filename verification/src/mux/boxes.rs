//! The MP4 boxes that describe a movie and its tracks.

use vstd::prelude::*;

use crate::bytes::{
    append, be16, be24, be32, be64, push_be16, push_be16_low, push_be24_low, push_be32,
    push_be32_low, push_be64, push_zeros, zeros,
};
use crate::constants::mux::MOVIE_TIMESCALE;
use crate::constants::PRODUCT_NAME;
use crate::mux::fourcc;

verus! {

/// The video track's id.
pub const VIDEO_TRACK_ID: u32 = 1;

/// The first audio track's id; the others follow.
pub const FIRST_AUDIO_TRACK_ID: u32 = 2;

/// Length of the placeholder box that becomes the header of the media data.
pub const PLACEHOLDER_LEN: u64 = 16;

/// Configuration of one AAC track.
#[derive(Debug)]
pub struct AudioTrackConfig {
    /// The decoder's `AudioSpecificConfig`.
    pub asc: Vec<u8>,
    /// Channel count.
    pub channels: u16,
    /// Sample rate.
    pub sample_rate: u32,
    /// One access unit of silence, repeated where the track starts late. Empty where there is
    /// none.
    pub silent_au: Vec<u8>,
}

/// What an [`AudioTrackConfig`] holds.
#[verifier::ext_equal]
pub struct ConfigView {
    pub asc: Seq<u8>,
    pub channels: int,
    pub sample_rate: int,
    pub silent_au: Seq<u8>,
}

impl View for AudioTrackConfig {
    type V = ConfigView;

    open spec fn view(&self) -> ConfigView {
        ConfigView {
            asc: self.asc@,
            channels: self.channels as int,
            sample_rate: self.sample_rate as int,
            silent_au: self.silent_au@,
        }
    }
}

impl Clone for AudioTrackConfig {
    fn clone(&self) -> (r: Self)
        ensures
            r@ == self@,
    {
        let mut asc: Vec<u8> = Vec::new();
        append(&mut asc, &self.asc);
        let mut silent_au: Vec<u8> = Vec::new();
        append(&mut silent_au, &self.silent_au);
        assert(asc@ =~= self.asc@);
        assert(silent_au@ =~= self.silent_au@);
        AudioTrackConfig { asc, channels: self.channels, sample_rate: self.sample_rate, silent_au }
    }
}

/// A plain box: size, type, payload.
#[verifier::opaque]
pub open spec fn box_bytes(typ: Seq<u8>, payload: Seq<u8>) -> Seq<u8> {
    be32(payload.len() + 8int) + typ + payload
}

/// A full box: a plain box whose payload begins with a version and 24 bits of flags.
pub open spec fn full_box_bytes(
    typ: Seq<u8>,
    version: int,
    flags: int,
    payload: Seq<u8>,
) -> Seq<u8> {
    box_bytes(typ, seq![version as u8] + be24(flags) + payload)
}

/// The byte strings one after the other.
pub open spec fn joined(parts: Seq<Seq<u8>>) -> Seq<u8>
    decreases parts.len(),
{
    if parts.len() == 0 {
        Seq::empty()
    } else {
        joined(parts.drop_last()) + parts.last()
    }
}

/// A plain box.
pub fn mp4box(typ: &[u8; 4], payload: &[u8]) -> (v: Vec<u8>)
    ensures
        v@ == box_bytes(typ@, payload@),
{
    let mut v: Vec<u8> = Vec::new();
    let size: u64 = payload.len() as u64 % 0x1_0000_0000 + 8;
    push_be32_low(&mut v, size);
    proof {
        crate::bytes::lemma_be32_shift(payload@.len() as int, 8);
    }
    assert(v@ =~= be32(payload@.len() + 8int));
    append(&mut v, typ);
    append(&mut v, payload);
    proof {
        reveal(box_bytes);
    }
    v
}

/// A box is its payload and eight bytes more.
pub proof fn lemma_box_len(typ: Seq<u8>, payload: Seq<u8>)
    requires
        typ.len() == 4,
    ensures
        box_bytes(typ, payload).len() == payload.len() + 8,
{
    reveal(box_bytes);
}

/// A full box.
pub fn fullbox(typ: &[u8; 4], version: u8, flags: u32, payload: &[u8]) -> (v: Vec<u8>)
    ensures
        v@ == full_box_bytes(typ@, version as int, flags as int, payload@),
{
    let mut p: Vec<u8> = Vec::new();
    p.push(version);
    assert(p@ =~= seq![version]);
    push_be24_low(&mut p, flags);
    append(&mut p, payload);
    mp4box(typ, &p)
}

/// The unity display matrix: nine 32-bit fixed-point numbers.
pub open spec fn matrix_bytes() -> Seq<u8> {
    be32(0x0001_0000) + be32(0) + be32(0) + be32(0) + be32(0x0001_0000) + be32(0) + be32(0)
        + be32(0) + be32(0x4000_0000)
}

/// Append the unity display matrix.
pub fn push_matrix(p: &mut Vec<u8>)
    ensures
        final(p)@ == old(p)@ + matrix_bytes(),
{
    let ghost before = p@;
    push_be32(p, 0x0001_0000);
    push_be32(p, 0);
    push_be32(p, 0);
    push_be32(p, 0);
    push_be32(p, 0x0001_0000);
    push_be32(p, 0);
    push_be32(p, 0);
    push_be32(p, 0);
    push_be32(p, 0x4000_0000);
    assert(p@ =~= before + matrix_bytes());
}

/// The file-type box: brand `isom`, compatible with `isom`, `iso2`, `avc1` and `mp41`.
pub open spec fn ftyp_bytes() -> Seq<u8> {
    box_bytes(
        fourcc::FTYP@,
        fourcc::ISOM@ + be32(0) + fourcc::ISOM@ + fourcc::ISO2@ + fourcc::AVC1@ + fourcc::MP41@,
    )
}

/// Build the file-type box.
pub fn build_ftyp() -> (v: Vec<u8>)
    ensures
        v@ == ftyp_bytes(),
{
    let mut p: Vec<u8> = Vec::new();
    append(&mut p, &fourcc::ISOM);
    assert(p@ =~= fourcc::ISOM@);
    push_be32(&mut p, 0);
    append(&mut p, &fourcc::ISOM);
    append(&mut p, &fourcc::ISO2);
    append(&mut p, &fourcc::AVC1);
    append(&mut p, &fourcc::MP41);
    mp4box(&fourcc::FTYP, &p)
}

/// A box header in the 64-bit form: size field 1, type, the true size.
pub open spec fn large_header(typ: Seq<u8>, size: int) -> Seq<u8> {
    be32(1) + typ + be64(size)
}

/// The empty `free` box that stands after the file-type box while the movie is fragmented. Its
/// header has the 64-bit form, so it can be overwritten in place by [`giant_mdat_header`].
pub fn build_placeholder_box() -> (v: Vec<u8>)
    ensures
        v@ == large_header(fourcc::FREE@, PLACEHOLDER_LEN as int),
        v@.len() == PLACEHOLDER_LEN,
{
    let mut v: Vec<u8> = Vec::new();
    push_be32(&mut v, 1);
    assert(v@ =~= be32(1));
    append(&mut v, &fourcc::FREE);
    push_be64(&mut v, PLACEHOLDER_LEN);
    v
}

/// The media-data header that overwrites the placeholder: it spans `span` bytes.
pub fn giant_mdat_header(span: u64) -> (h: Vec<u8>)
    ensures
        h@ == large_header(fourcc::MDAT@, span as int),
        h@.len() == PLACEHOLDER_LEN,
{
    let mut h: Vec<u8> = Vec::new();
    push_be32(&mut h, 1);
    assert(h@ =~= be32(1));
    append(&mut h, &fourcc::MDAT);
    push_be64(&mut h, span);
    h
}

/// The movie header: creation and modification time, timescale, duration, rate, volume,
/// reserved bytes, matrix, predefined bytes and the next free track id.
pub open spec fn mvhd_bytes(next_track_id: int, duration: int) -> Seq<u8> {
    full_box_bytes(
        fourcc::MVHD@,
        0,
        0,
        be32(0) + be32(0) + be32(MOVIE_TIMESCALE as int) + be32(duration) + be32(0x0001_0000)
            + be16(0x0100) + be16(0) + zeros(8) + matrix_bytes() + zeros(24) + be32(next_track_id),
    )
}

/// Build the movie header. A fragmented movie has duration 0.
pub fn build_mvhd(next_track_id: u32, duration: u32) -> (v: Vec<u8>)
    ensures
        v@ == mvhd_bytes(next_track_id as int, duration as int),
{
    let mut p: Vec<u8> = Vec::new();
    push_be32(&mut p, 0);
    assert(p@ =~= be32(0));
    push_be32(&mut p, 0);
    push_be32(&mut p, MOVIE_TIMESCALE);
    push_be32(&mut p, duration);
    push_be32(&mut p, 0x0001_0000);
    push_be16(&mut p, 0x0100);
    push_be16(&mut p, 0);
    push_zeros(&mut p, 8);
    push_matrix(&mut p);
    push_zeros(&mut p, 24);
    push_be32(&mut p, next_track_id);
    fullbox(&fourcc::MVHD, 0, 0, &p)
}

/// The track header. Width and height are 16.16 fixed-point numbers.
pub open spec fn tkhd_bytes(
    track_id: int,
    width: int,
    height: int,
    volume: int,
    duration: int,
) -> Seq<u8> {
    full_box_bytes(
        fourcc::TKHD@,
        0,
        7,
        be32(0) + be32(0) + be32(track_id) + be32(0) + be32(duration) + zeros(8) + be16(0) + be16(
            0,
        ) + be16(volume) + be16(0) + matrix_bytes() + be16(width) + be16(0) + be16(height) + be16(
            0,
        ),
    )
}

/// Build the track header of an enabled track. Video has its size in pixels and no volume, audio
/// a volume of 1.0 and no size.
pub fn build_tkhd(track_id: u32, width: u32, height: u32, volume: u16, duration: u32) -> (v: Vec<
    u8,
>)
    ensures
        v@ == tkhd_bytes(
            track_id as int,
            width as int,
            height as int,
            volume as int,
            duration as int,
        ),
{
    let mut p: Vec<u8> = Vec::new();
    push_be32(&mut p, 0);
    assert(p@ =~= be32(0));
    push_be32(&mut p, 0);
    push_be32(&mut p, track_id);
    push_be32(&mut p, 0);
    push_be32(&mut p, duration);
    push_zeros(&mut p, 8);
    push_be16(&mut p, 0);
    push_be16(&mut p, 0);
    push_be16(&mut p, volume);
    push_be16(&mut p, 0);
    push_matrix(&mut p);
    push_be16_low(&mut p, width as u64);
    push_be16(&mut p, 0);
    push_be16_low(&mut p, height as u64);
    push_be16(&mut p, 0);
    fullbox(&fourcc::TKHD, 0, 7, &p)
}

/// The media header: times, timescale, duration, language `und`.
pub open spec fn mdhd_bytes(timescale: int, duration: int) -> Seq<u8> {
    full_box_bytes(
        fourcc::MDHD@,
        0,
        0,
        be32(0) + be32(0) + be32(timescale) + be32(duration) + be16(0x55C4) + be16(0),
    )
}

/// Build the media header.
pub fn build_mdhd(timescale: u32, duration: u32) -> (v: Vec<u8>)
    ensures
        v@ == mdhd_bytes(timescale as int, duration as int),
{
    let mut p: Vec<u8> = Vec::new();
    push_be32(&mut p, 0);
    assert(p@ =~= be32(0));
    push_be32(&mut p, 0);
    push_be32(&mut p, timescale);
    push_be32(&mut p, duration);
    push_be16(&mut p, 0x55C4);
    push_be16(&mut p, 0);
    fullbox(&fourcc::MDHD, 0, 0, &p)
}

/// The handler box, named after the product.
pub open spec fn hdlr_bytes(handler_type: Seq<u8>) -> Seq<u8> {
    full_box_bytes(
        fourcc::HDLR@,
        0,
        0,
        be32(0) + handler_type + zeros(12) + vstd::utf8::encode_utf8(PRODUCT_NAME@) + seq![0u8],
    )
}

/// Build the handler box.
pub fn build_hdlr(handler_type: &[u8; 4]) -> (v: Vec<u8>)
    ensures
        v@ == hdlr_bytes(handler_type@),
{
    let mut p: Vec<u8> = Vec::new();
    push_be32(&mut p, 0);
    assert(p@ =~= be32(0));
    append(&mut p, handler_type);
    push_zeros(&mut p, 12);
    append(&mut p, PRODUCT_NAME.as_bytes());
    let ghost before = p@;
    p.push(0);
    assert(p@ =~= before + seq![0u8]);
    fullbox(&fourcc::HDLR, 0, 0, &p)
}

/// The data-information box: one self-contained reference.
pub open spec fn dinf_bytes() -> Seq<u8> {
    box_bytes(
        fourcc::DINF@,
        full_box_bytes(
            fourcc::DREF@,
            0,
            0,
            be32(1) + full_box_bytes(fourcc::URL@, 0, 1, Seq::empty()),
        ),
    )
}

/// Build the data-information box.
pub fn build_dinf() -> (v: Vec<u8>)
    ensures
        v@ == dinf_bytes(),
{
    let empty: Vec<u8> = Vec::new();
    let url: Vec<u8> = fullbox(&fourcc::URL, 0, 1, &empty);
    let mut dref_p: Vec<u8> = Vec::new();
    push_be32(&mut dref_p, 1);
    assert(dref_p@ =~= be32(1));
    append(&mut dref_p, &url);
    let dref: Vec<u8> = fullbox(&fourcc::DREF, 0, 0, &dref_p);
    mp4box(&fourcc::DINF, &dref)
}

/// The colour box: BT.709 primaries, transfer and matrix, limited range.
pub open spec fn colr_bytes() -> Seq<u8> {
    box_bytes(fourcc::COLR@, fourcc::NCLX@ + be16(1) + be16(1) + be16(1) + seq![0u8])
}

/// Build the colour box.
pub fn build_colr() -> (v: Vec<u8>)
    ensures
        v@ == colr_bytes(),
{
    let mut p: Vec<u8> = Vec::new();
    append(&mut p, &fourcc::NCLX);
    assert(p@ =~= fourcc::NCLX@);
    push_be16(&mut p, 1);
    push_be16(&mut p, 1);
    push_be16(&mut p, 1);
    let ghost before = p@;
    p.push(0);
    assert(p@ =~= before + seq![0u8]);
    mp4box(&fourcc::COLR, &p)
}

/// The H.264 sample entry: picture size, 72 dpi, depth 24, the decoder configuration record and
/// the colour box.
pub open spec fn avc1_bytes(avcc: Seq<u8>, width: int, height: int) -> Seq<u8> {
    box_bytes(
        fourcc::AVC1@,
        zeros(6) + be16(1) + be16(0) + be16(0) + zeros(12) + be16(width) + be16(height) + be32(
            0x0048_0000,
        ) + be32(0x0048_0000) + be32(0) + be16(1) + zeros(32) + be16(0x0018) + be16(0xFFFF)
            + box_bytes(fourcc::AVCC@, avcc) + colr_bytes(),
    )
}

/// Build the H.264 sample entry.
pub fn build_avc1(avcc: &[u8], width: u32, height: u32) -> (v: Vec<u8>)
    ensures
        v@ == avc1_bytes(avcc@, width as int, height as int),
{
    let mut p: Vec<u8> = Vec::new();
    push_zeros(&mut p, 6);
    assert(p@ =~= zeros(6));
    push_be16(&mut p, 1);
    push_be16(&mut p, 0);
    push_be16(&mut p, 0);
    push_zeros(&mut p, 12);
    push_be16_low(&mut p, width as u64);
    push_be16_low(&mut p, height as u64);
    push_be32(&mut p, 0x0048_0000);
    push_be32(&mut p, 0x0048_0000);
    push_be32(&mut p, 0);
    push_be16(&mut p, 1);
    push_zeros(&mut p, 32);
    push_be16(&mut p, 0x0018);
    push_be16(&mut p, 0xFFFF);
    let record: Vec<u8> = mp4box(&fourcc::AVCC, avcc);
    append(&mut p, &record);
    let colr: Vec<u8> = build_colr();
    append(&mut p, &colr);
    mp4box(&fourcc::AVC1, &p)
}

/// The sample-description box with one entry.
pub open spec fn stsd_bytes(sample_entry: Seq<u8>) -> Seq<u8> {
    full_box_bytes(fourcc::STSD@, 0, 0, be32(1) + sample_entry)
}

/// Build the sample-description box.
pub fn build_stsd(sample_entry: &[u8]) -> (v: Vec<u8>)
    ensures
        v@ == stsd_bytes(sample_entry@),
{
    let mut p: Vec<u8> = Vec::new();
    push_be32(&mut p, 1);
    assert(p@ =~= be32(1));
    append(&mut p, sample_entry);
    fullbox(&fourcc::STSD, 0, 0, &p)
}

/// The sample table of a fragmented track: one sample description and empty tables.
pub open spec fn empty_stbl_bytes(sample_entry: Seq<u8>) -> Seq<u8> {
    box_bytes(
        fourcc::STBL@,
        stsd_bytes(sample_entry) + full_box_bytes(fourcc::STTS@, 0, 0, be32(0)) + full_box_bytes(
            fourcc::STSC@,
            0,
            0,
            be32(0),
        ) + full_box_bytes(fourcc::STSZ@, 0, 0, be32(0) + be32(0)) + full_box_bytes(
            fourcc::STCO@,
            0,
            0,
            be32(0),
        ),
    )
}

/// Build the sample table of a fragmented track.
pub fn build_stbl(sample_entry: &[u8]) -> (v: Vec<u8>)
    ensures
        v@ == empty_stbl_bytes(sample_entry@),
{
    let mut zero: Vec<u8> = Vec::new();
    push_be32(&mut zero, 0);
    assert(zero@ =~= be32(0));
    let mut two: Vec<u8> = Vec::new();
    push_be32(&mut two, 0);
    assert(two@ =~= be32(0));
    push_be32(&mut two, 0);
    let mut p: Vec<u8> = build_stsd(sample_entry);
    let stts: Vec<u8> = fullbox(&fourcc::STTS, 0, 0, &zero);
    append(&mut p, &stts);
    let stsc: Vec<u8> = fullbox(&fourcc::STSC, 0, 0, &zero);
    append(&mut p, &stsc);
    let stsz: Vec<u8> = fullbox(&fourcc::STSZ, 0, 0, &two);
    append(&mut p, &stsz);
    let stco: Vec<u8> = fullbox(&fourcc::STCO, 0, 0, &zero);
    append(&mut p, &stco);
    mp4box(&fourcc::STBL, &p)
}

/// The video media-information box around a sample table.
pub open spec fn video_minf_bytes(stbl: Seq<u8>) -> Seq<u8> {
    box_bytes(
        fourcc::MINF@,
        full_box_bytes(fourcc::VMHD@, 0, 1, zeros(8)) + dinf_bytes() + stbl,
    )
}

/// The audio media-information box around a sample table.
pub open spec fn audio_minf_bytes(stbl: Seq<u8>) -> Seq<u8> {
    box_bytes(
        fourcc::MINF@,
        full_box_bytes(fourcc::SMHD@, 0, 0, zeros(4)) + dinf_bytes() + stbl,
    )
}

/// A media box.
pub open spec fn mdia_bytes(mdhd: Seq<u8>, hdlr: Seq<u8>, minf: Seq<u8>) -> Seq<u8> {
    box_bytes(fourcc::MDIA@, mdhd + hdlr + minf)
}

/// Wrap a sample table in the video media-information box.
pub fn wrap_video_minf(stbl: &[u8]) -> (v: Vec<u8>)
    ensures
        v@ == video_minf_bytes(stbl@),
{
    let mut graphics: Vec<u8> = Vec::new();
    push_zeros(&mut graphics, 8);
    assert(graphics@ =~= zeros(8));
    let mut p: Vec<u8> = fullbox(&fourcc::VMHD, 0, 1, &graphics);
    let dinf: Vec<u8> = build_dinf();
    append(&mut p, &dinf);
    append(&mut p, stbl);
    mp4box(&fourcc::MINF, &p)
}

/// Wrap a sample table in the audio media-information box.
pub fn wrap_audio_minf(stbl: &[u8]) -> (v: Vec<u8>)
    ensures
        v@ == audio_minf_bytes(stbl@),
{
    let mut balance: Vec<u8> = Vec::new();
    push_zeros(&mut balance, 4);
    assert(balance@ =~= zeros(4));
    let mut p: Vec<u8> = fullbox(&fourcc::SMHD, 0, 0, &balance);
    let dinf: Vec<u8> = build_dinf();
    append(&mut p, &dinf);
    append(&mut p, stbl);
    mp4box(&fourcc::MINF, &p)
}

/// Join the three parts of a media box.
pub fn wrap_mdia(mdhd: &[u8], hdlr: &[u8], minf: &[u8]) -> (v: Vec<u8>)
    ensures
        v@ == mdia_bytes(mdhd@, hdlr@, minf@),
{
    let mut p: Vec<u8> = Vec::new();
    append(&mut p, mdhd);
    assert(p@ =~= mdhd@);
    append(&mut p, hdlr);
    append(&mut p, minf);
    mp4box(&fourcc::MDIA, &p)
}

/// The video media-information box of a fragmented movie.
pub fn build_video_minf(avcc: &[u8], width: u32, height: u32) -> (v: Vec<u8>)
    ensures
        v@ == video_minf_bytes(empty_stbl_bytes(avc1_bytes(avcc@, width as int, height as int))),
{
    let entry: Vec<u8> = build_avc1(avcc, width, height);
    let stbl: Vec<u8> = build_stbl(&entry);
    wrap_video_minf(&stbl)
}

/// The video media box of a fragmented movie.
pub open spec fn video_mdia_bytes(
    avcc: Seq<u8>,
    width: int,
    height: int,
    timescale: int,
) -> Seq<u8> {
    mdia_bytes(
        mdhd_bytes(timescale, 0),
        hdlr_bytes(fourcc::VIDE@),
        video_minf_bytes(empty_stbl_bytes(avc1_bytes(avcc, width, height))),
    )
}

/// Build the video media box of a fragmented movie.
pub fn build_video_mdia(avcc: &[u8], width: u32, height: u32, timescale: u32) -> (v: Vec<u8>)
    ensures
        v@ == video_mdia_bytes(avcc@, width as int, height as int, timescale as int),
{
    let mdhd: Vec<u8> = build_mdhd(timescale, 0);
    let hdlr: Vec<u8> = build_hdlr(&fourcc::VIDE);
    let minf: Vec<u8> = build_video_minf(avcc, width, height);
    wrap_mdia(&mdhd, &hdlr, &minf)
}

/// The video track of a fragmented movie.
pub open spec fn video_trak_bytes(
    avcc: Seq<u8>,
    width: int,
    height: int,
    timescale: int,
) -> Seq<u8> {
    box_bytes(
        fourcc::TRAK@,
        tkhd_bytes(VIDEO_TRACK_ID as int, width, height, 0, 0) + video_mdia_bytes(
            avcc,
            width,
            height,
            timescale,
        ),
    )
}

/// Build the video track of a fragmented movie.
pub fn build_video_trak(avcc: &[u8], width: u32, height: u32, timescale: u32) -> (v: Vec<u8>)
    ensures
        v@ == video_trak_bytes(avcc@, width as int, height as int, timescale as int),
{
    let mut p: Vec<u8> = build_tkhd(VIDEO_TRACK_ID, width, height, 0, 0);
    let mdia: Vec<u8> = build_video_mdia(avcc, width, height, timescale);
    append(&mut p, &mdia);
    mp4box(&fourcc::TRAK, &p)
}

/// The base-128 digits of `n` above the lowest, most significant first, each marked as followed
/// by another.
pub open spec fn length_head(n: int) -> Seq<u8>
    decreases n,
{
    if n <= 0 {
        Seq::empty()
    } else {
        length_head(n / 128).push((n % 128 + 128) as u8)
    }
}

/// A descriptor's length: base 128, the high bit set on every byte but the last, no more bytes
/// than needed.
pub open spec fn length_bytes(n: int) -> Seq<u8> {
    length_head(n / 128).push((n % 128) as u8)
}

/// The length of a descriptor's payload.
pub fn expandable_len(n: usize) -> (out: Vec<u8>)
    ensures
        out@ == length_bytes(n as int),
{
    let mut out: Vec<u8> = Vec::new();
    out.push((n % 128) as u8);
    let mut rest: usize = n / 128;
    while rest > 0
        invariant
            length_head(n as int / 128) + seq![(n as int % 128) as u8] == length_head(rest as int)
                + out@,
        decreases rest,
    {
        let ghost before = out@;
        let ghost digit = (rest as int % 128 + 128) as u8;
        out.insert(0, (rest % 128 + 128) as u8);
        assert(out@ =~= seq![digit] + before);
        assert(length_head(rest as int) + before =~= length_head(rest as int / 128) + out@);
        rest = rest / 128;
    }
    assert(length_head(0) + out@ =~= out@);
    assert(length_bytes(n as int) =~= length_head(n as int / 128) + seq![(n as int % 128) as u8]);
    out
}

/// One MPEG-4 descriptor: tag, length, payload.
pub open spec fn descriptor_bytes(tag: u8, payload: Seq<u8>) -> Seq<u8> {
    seq![tag] + length_bytes(payload.len() as int) + payload
}

/// Build a descriptor.
pub fn descriptor(tag: u8, payload: &[u8]) -> (v: Vec<u8>)
    ensures
        v@ == descriptor_bytes(tag, payload@),
{
    let mut v: Vec<u8> = Vec::new();
    v.push(tag);
    assert(v@ =~= seq![tag]);
    let length: Vec<u8> = expandable_len(payload.len());
    append(&mut v, &length);
    append(&mut v, payload);
    v
}

/// The elementary-stream descriptor box around a decoder's configuration: an ES descriptor that
/// holds a decoder configuration (AAC, audio stream, bitrates unspecified) and a sync-layer
/// configuration.
pub open spec fn esds_bytes(asc: Seq<u8>) -> Seq<u8> {
    full_box_bytes(
        fourcc::ESDS@,
        0,
        0,
        descriptor_bytes(
            0x03,
            be16(0) + seq![0u8] + descriptor_bytes(
                0x04,
                seq![0x40u8, 0x15] + zeros(3) + be32(0) + be32(0) + descriptor_bytes(0x05, asc),
            ) + descriptor_bytes(0x06, seq![0x02u8]),
        ),
    )
}

/// Build the elementary-stream descriptor box.
pub fn build_esds(asc: &[u8]) -> (v: Vec<u8>)
    ensures
        v@ == esds_bytes(asc@),
{
    let specific: Vec<u8> = descriptor(0x05, asc);
    let mut decoder_p: Vec<u8> = Vec::new();
    decoder_p.push(0x40);
    decoder_p.push(0x15);
    assert(decoder_p@ =~= seq![0x40u8, 0x15]);
    push_zeros(&mut decoder_p, 3);
    push_be32(&mut decoder_p, 0);
    push_be32(&mut decoder_p, 0);
    append(&mut decoder_p, &specific);
    let decoder: Vec<u8> = descriptor(0x04, &decoder_p);
    let mut sync_p: Vec<u8> = Vec::new();
    sync_p.push(0x02);
    assert(sync_p@ =~= seq![0x02u8]);
    let sync: Vec<u8> = descriptor(0x06, &sync_p);
    let mut es_p: Vec<u8> = Vec::new();
    push_be16(&mut es_p, 0);
    assert(es_p@ =~= be16(0));
    let ghost before = es_p@;
    es_p.push(0x00);
    assert(es_p@ =~= before + seq![0u8]);
    append(&mut es_p, &decoder);
    append(&mut es_p, &sync);
    let es: Vec<u8> = descriptor(0x03, &es_p);
    fullbox(&fourcc::ESDS, 0, 0, &es)
}

/// The AAC sample entry. The sample rate is a 16.16 fixed-point number.
pub open spec fn mp4a_bytes(config: ConfigView) -> Seq<u8> {
    box_bytes(
        fourcc::MP4A@,
        zeros(6) + be16(1) + zeros(8) + be16(config.channels) + be16(16) + be16(0) + be16(0)
            + be16(config.sample_rate) + be16(0) + esds_bytes(config.asc),
    )
}

/// Build the AAC sample entry.
pub fn build_mp4a(config: &AudioTrackConfig) -> (v: Vec<u8>)
    ensures
        v@ == mp4a_bytes(config@),
{
    let mut p: Vec<u8> = Vec::new();
    push_zeros(&mut p, 6);
    assert(p@ =~= zeros(6));
    push_be16(&mut p, 1);
    push_zeros(&mut p, 8);
    push_be16(&mut p, config.channels);
    push_be16(&mut p, 16);
    push_be16(&mut p, 0);
    push_be16(&mut p, 0);
    push_be16_low(&mut p, config.sample_rate as u64);
    push_be16(&mut p, 0);
    let esds: Vec<u8> = build_esds(&config.asc);
    append(&mut p, &esds);
    mp4box(&fourcc::MP4A, &p)
}

/// The audio media-information box of a fragmented movie.
pub fn build_audio_minf(config: &AudioTrackConfig) -> (v: Vec<u8>)
    ensures
        v@ == audio_minf_bytes(empty_stbl_bytes(mp4a_bytes(config@))),
{
    let entry: Vec<u8> = build_mp4a(config);
    let stbl: Vec<u8> = build_stbl(&entry);
    wrap_audio_minf(&stbl)
}

/// The audio media box of a fragmented movie.
pub open spec fn audio_mdia_bytes(config: ConfigView) -> Seq<u8> {
    mdia_bytes(
        mdhd_bytes(config.sample_rate, 0),
        hdlr_bytes(fourcc::SOUN@),
        audio_minf_bytes(empty_stbl_bytes(mp4a_bytes(config))),
    )
}

/// Build the audio media box of a fragmented movie.
pub fn build_audio_mdia(config: &AudioTrackConfig) -> (v: Vec<u8>)
    ensures
        v@ == audio_mdia_bytes(config@),
{
    let mdhd: Vec<u8> = build_mdhd(config.sample_rate, 0);
    let hdlr: Vec<u8> = build_hdlr(&fourcc::SOUN);
    let minf: Vec<u8> = build_audio_minf(config);
    wrap_mdia(&mdhd, &hdlr, &minf)
}

/// An audio track of a fragmented movie.
pub open spec fn audio_trak_bytes(track_id: int, config: ConfigView) -> Seq<u8> {
    box_bytes(
        fourcc::TRAK@,
        tkhd_bytes(track_id, 0, 0, 0x0100, 0) + audio_mdia_bytes(config),
    )
}

/// The track-extends box: the defaults of a track's fragments.
pub open spec fn trex_bytes(track_id: int, default_sample_duration: int) -> Seq<u8> {
    full_box_bytes(
        fourcc::TREX@,
        0,
        0,
        be32(track_id) + be32(1) + be32(default_sample_duration) + be32(0) + be32(0),
    )
}

/// Build the track-extends box.
pub fn build_trex(track_id: u32, default_sample_duration: u32) -> (v: Vec<u8>)
    ensures
        v@ == trex_bytes(track_id as int, default_sample_duration as int),
{
    let mut p: Vec<u8> = Vec::new();
    push_be32(&mut p, track_id);
    assert(p@ =~= be32(track_id as int));
    push_be32(&mut p, 1);
    push_be32(&mut p, default_sample_duration);
    push_be32(&mut p, 0);
    push_be32(&mut p, 0);
    fullbox(&fourcc::TREX, 0, 0, &p)
}

} // verus!
