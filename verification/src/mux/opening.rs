//! What a player reads in the head of a movie that is still being written.

use vstd::prelude::*;

use crate::bytes::{be16, be24, be32, lemma_be16_reads_back, lemma_be32_reads_back, zeros};
use crate::mux::boxes::{
    audio_mdia_bytes, audio_trak_bytes, avc1_bytes, box_bytes, dinf_bytes, empty_stbl_bytes,
    ftyp_bytes, lemma_box_len, matrix_bytes, mdhd_bytes, mp4a_bytes, mvhd_bytes, tkhd_bytes,
    trex_bytes, video_trak_bytes, ConfigView,
};
use crate::mux::decode::{
    child, full_payload, lemma_child, lemma_codes, lemma_last_child, u16_at, u32_at,
};
use crate::mux::fourcc;
use crate::mux::movie::{audio_traks, audio_trexes, moov_bytes, mvex_bytes};
use crate::mux::playback::{boxes_of, lemma_box_skip, lemma_boxes_step, tracks_in};
use crate::mux::timeline::TrackView;
use crate::mux::track::{
    avc1_payload, dref_bytes, hdlr_payload, header_reads, lemma_avc1, lemma_entry, lemma_esds,
    lemma_hdlr, lemma_mdhd, lemma_mp4a, lemma_tkhd, lemma_track_tree, mdhd_payload, media_reads,
    mp4a_payload, picture_reads, sample_table, sound_reads, tkhd_payload, track_tree,
};

verus! {

/// Law: a file begins by saying that it is of the brand `isom`, and can be read as `isom`, `iso2`, `avc1`
/// and `mp41`.
pub proof fn lemma_file_says_its_brands()
    ensures
        child(ftyp_bytes(), seq![0x66u8, 0x74, 0x79, 0x70]) == Some(
            seq![0x69u8, 0x73, 0x6F, 0x6D, 0, 0, 0, 0, 0x69, 0x73, 0x6F, 0x6D]
                + seq![0x69u8, 0x73, 0x6F, 0x32, 0x61, 0x76, 0x63, 0x31, 0x6D, 0x70, 0x34, 0x31],
        ),
{
    lemma_codes();
    let p = fourcc::ISOM@ + be32(0) + fourcc::ISOM@ + fourcc::ISO2@ + fourcc::AVC1@ + fourcc::MP41@;
    assert(p =~= seq![0x69u8, 0x73, 0x6F, 0x6D, 0, 0, 0, 0, 0x69, 0x73, 0x6F, 0x6D]
        + seq![0x69u8, 0x73, 0x6F, 0x32, 0x61, 0x76, 0x63, 0x31, 0x6D, 0x70, 0x34, 0x31]);
    lemma_last_child(fourcc::FTYP@, p, fourcc::FTYP@);
}

/// Whether a sample table has no samples: its samples are in the fragments.
pub open spec fn is_empty_table(stbl: Seq<u8>) -> bool {
    &&& child(stbl, fourcc::STTS@) matches Some(p) && u32_at(p, 4) == 0
    &&& child(stbl, fourcc::STSC@) matches Some(p) && u32_at(p, 4) == 0
    &&& child(stbl, fourcc::STSZ@) matches Some(p) && u32_at(p, 4) == 0 && u32_at(p, 8) == 0
    &&& child(stbl, fourcc::STCO@) matches Some(p) && u32_at(p, 4) == 0
}

/// The payload of an empty sample table with a sample description.
#[verifier::opaque]
pub open spec fn empty_payload(stsd: Seq<u8>) -> Seq<u8> {
    let none = full_payload(0, 0, be32(0));
    box_bytes(fourcc::STSD@, stsd) + box_bytes(fourcc::STTS@, none) + box_bytes(
        fourcc::STSC@,
        none,
    ) + box_bytes(fourcc::STSZ@, full_payload(0, 0, be32(0) + be32(0))) + box_bytes(
        fourcc::STCO@,
        none,
    )
}

/// An empty sample table is read.
proof fn lemma_empty_table(stsd: Seq<u8>)
    requires
        stsd.len() + 8 <= u32::MAX,
    ensures
        is_empty_table(empty_payload(stsd)),
        child(empty_payload(stsd), fourcc::STSD@) == Some(stsd),
{
    reveal(empty_payload);
    lemma_codes();
    let none = full_payload(0, 0, be32(0));
    let two = full_payload(0, 0, be32(0) + be32(0));
    lemma_be32_reads_back(0);
    assert(none.subrange(4, 8) =~= be32(0));
    assert(two.subrange(4, 8) =~= be32(0));
    assert(two.subrange(8, 12) =~= be32(0));
    lemma_five_boxes(stsd, none, none, two, none);
}

/// Five boxes of a sample table, one after the other, are found.
proof fn lemma_five_boxes(a: Seq<u8>, b: Seq<u8>, c: Seq<u8>, d: Seq<u8>, e: Seq<u8>)
    requires
        a.len() + 8 <= u32::MAX,
        b.len() + 8 <= u32::MAX,
        c.len() + 8 <= u32::MAX,
        d.len() + 8 <= u32::MAX,
        e.len() + 8 <= u32::MAX,
    ensures
        ({
            let s = box_bytes(fourcc::STSD@, a) + box_bytes(fourcc::STTS@, b) + box_bytes(
                fourcc::STSC@,
                c,
            ) + box_bytes(fourcc::STSZ@, d) + box_bytes(fourcc::STCO@, e);
            &&& child(s, fourcc::STSD@) == Some(a)
            &&& child(s, fourcc::STTS@) == Some(b)
            &&& child(s, fourcc::STSC@) == Some(c)
            &&& child(s, fourcc::STSZ@) == Some(d)
            &&& child(s, fourcc::STCO@) == Some(e)
        }),
{
    lemma_codes();
    let (ta, tb, tc, td, te) = (
        fourcc::STSD@,
        fourcc::STTS@,
        fourcc::STSC@,
        fourcc::STSZ@,
        fourcc::STCO@,
    );
    assert(ta[3] == 0x64 && tb[3] == 0x73 && tc[3] == 0x63 && td[3] == 0x7A && te[3] == 0x6F);
    let e1 = box_bytes(te, e);
    let d1 = box_bytes(td, d) + e1;
    let c1 = box_bytes(tc, c) + d1;
    let b1 = box_bytes(tb, b) + c1;
    let s = box_bytes(ta, a) + box_bytes(tb, b) + box_bytes(tc, c) + box_bytes(td, d) + e1;
    assert(s =~= box_bytes(ta, a) + b1);
    lemma_child(ta, a, b1, ta);
    lemma_child(ta, a, b1, tb);
    lemma_child(ta, a, b1, tc);
    lemma_child(ta, a, b1, td);
    lemma_child(ta, a, b1, te);
    lemma_child(tb, b, c1, tb);
    lemma_child(tb, b, c1, tc);
    lemma_child(tb, b, c1, td);
    lemma_child(tb, b, c1, te);
    lemma_child(tc, c, d1, tc);
    lemma_child(tc, c, d1, td);
    lemma_child(tc, c, d1, te);
    lemma_child(td, d, e1, td);
    lemma_child(td, d, e1, te);
    lemma_last_child(te, e, te);
}

/// The table of a track without samples is a box.
proof fn lemma_empty_stbl(entry: Seq<u8>)
    ensures
        empty_stbl_bytes(entry) == box_bytes(
            fourcc::STBL@,
            empty_payload(full_payload(0, 0, be32(1) + entry)),
        ),
{
    reveal(empty_payload);
}

/// The video track of a movie that is being written is a track with its parts.
proof fn lemma_video_trak_parts(avcc: Seq<u8>, width: int, height: int, timescale: int)
    ensures
        video_trak_bytes(avcc, width, height, timescale) == box_bytes(
            fourcc::TRAK@,
            track_tree(
                tkhd_payload(1, width, height, 0, 0),
                Seq::empty(),
                mdhd_payload(timescale, 0),
                hdlr_payload(fourcc::VIDE@),
                fourcc::VMHD@,
                full_payload(0, 1, zeros(8)),
                dref_bytes(),
                empty_payload(full_payload(0, 0, be32(1) + avc1_bytes(avcc, width, height))),
            ),
        ),
{
    reveal(tkhd_payload);
    reveal(mdhd_payload);
    reveal(hdlr_payload);
    let tkhd = box_bytes(fourcc::TKHD@, tkhd_payload(1, width, height, 0, 0));
    assert(tkhd_bytes(1, width, height, 0, 0) == tkhd);
    let none: Seq<u8> = Seq::empty();
    assert(tkhd + none =~= tkhd);
    lemma_empty_stbl(avc1_bytes(avcc, width, height));
    assert(mdhd_bytes(timescale, 0) == box_bytes(fourcc::MDHD@, mdhd_payload(timescale, 0)));
}

/// A sample description is no longer than the table it stands in.
proof fn lemma_description_is_shorter(stsd: Seq<u8>)
    ensures
        stsd.len() + 8 <= empty_payload(stsd).len(),
{
    reveal(empty_payload);
    lemma_codes();
    lemma_box_len(fourcc::STSD@, stsd);
}

/// Law: a player that opens a movie while it is written reads in its video track the track's id, its size
/// in pixels, its timescale and its decoder configuration record; its samples are in the fragments.
pub proof fn lemma_opening_video_track_reads_back(
    avcc: Seq<u8>,
    width: int,
    height: int,
    timescale: int,
) -> (trak: Seq<u8>)
    requires
        0 <= width <= u16::MAX,
        0 <= height <= u16::MAX,
        0 <= timescale <= u32::MAX,
        video_trak_bytes(avcc, width, height, timescale).len() <= u32::MAX,
    ensures
        video_trak_bytes(avcc, width, height, timescale) == box_bytes(fourcc::TRAK@, trak),
        header_reads(trak, 1, 0, width, height, 0),
        media_reads(trak, timescale, 0, seq![0x76u8, 0x69, 0x64, 0x65]),
        picture_reads(trak, width, height, avcc),
        sample_table(trak) matches Some(stbl) && is_empty_table(stbl),
{
    lemma_codes();
    let entry = avc1_bytes(avcc, width, height);
    let stsd = full_payload(0, 0, be32(1) + entry);
    let stbl = empty_payload(stsd);
    let head = full_payload(0, 1, zeros(8));
    let dref = dref_bytes();
    let tkhd = tkhd_payload(1, width, height, 0, 0);
    let mdhd = mdhd_payload(timescale, 0);
    let hdlr = hdlr_payload(fourcc::VIDE@);
    let none: Seq<u8> = Seq::empty();
    let trak = track_tree(tkhd, none, mdhd, hdlr, fourcc::VMHD@, head, dref, stbl);
    lemma_video_trak_parts(avcc, width, height, timescale);
    lemma_tkhd(1, width, height, 0, 0);
    lemma_mdhd(timescale, 0);
    lemma_hdlr(fourcc::VIDE@);
    lemma_box_len(fourcc::TRAK@, trak);
    lemma_track_tree(tkhd, none, none, mdhd, hdlr, fourcc::VMHD@, head, dref, stbl);
    lemma_description_is_shorter(stsd);
    lemma_empty_table(stsd);
    lemma_avc1(avcc, width, height);
    lemma_box_len(fourcc::AVC1@, avc1_payload(avcc, width, height));
    lemma_entry(fourcc::AVC1@, avc1_payload(avcc, width, height));
    assert(picture_reads(trak, width, height, avcc));
    trak
}

/// An audio track of a movie that is being written is a track with its parts.
proof fn lemma_audio_trak_parts(id: int, config: ConfigView)
    ensures
        audio_trak_bytes(id, config) == box_bytes(
            fourcc::TRAK@,
            track_tree(
                tkhd_payload(id, 0, 0, 0x0100, 0),
                Seq::empty(),
                mdhd_payload(config.sample_rate, 0),
                hdlr_payload(fourcc::SOUN@),
                fourcc::SMHD@,
                full_payload(0, 0, zeros(4)),
                dref_bytes(),
                empty_payload(full_payload(0, 0, be32(1) + mp4a_bytes(config))),
            ),
        ),
{
    reveal(tkhd_payload);
    reveal(mdhd_payload);
    reveal(hdlr_payload);
    let tkhd = box_bytes(fourcc::TKHD@, tkhd_payload(id, 0, 0, 0x0100, 0));
    assert(tkhd_bytes(id, 0, 0, 0x0100, 0) == tkhd);
    let none: Seq<u8> = Seq::empty();
    assert(tkhd + none =~= tkhd);
    lemma_empty_stbl(mp4a_bytes(config));
    assert(mdhd_bytes(config.sample_rate, 0) == box_bytes(
        fourcc::MDHD@,
        mdhd_payload(config.sample_rate, 0),
    ));
}

/// Law: a player that opens a movie while it is written reads in an audio track the track's id, its
/// channels, its sample rate and its decoder configuration; its access units are in the fragments.
pub proof fn lemma_opening_audio_track_reads_back(id: int, config: ConfigView) -> (trak: Seq<u8>)
    requires
        0 <= id <= u32::MAX,
        0 <= config.channels <= u16::MAX,
        1 <= config.sample_rate <= u16::MAX,
        audio_trak_bytes(id, config).len() <= u32::MAX,
    ensures
        audio_trak_bytes(id, config) == box_bytes(fourcc::TRAK@, trak),
        header_reads(trak, id, 0, 0, 0, 0x0100),
        media_reads(trak, config.sample_rate, 0, seq![0x73u8, 0x6F, 0x75, 0x6E]),
        sound_reads(trak, config),
        sample_table(trak) matches Some(stbl) && is_empty_table(stbl),
{
    lemma_codes();
    let entry = mp4a_bytes(config);
    let stsd = full_payload(0, 0, be32(1) + entry);
    let stbl = empty_payload(stsd);
    let head = full_payload(0, 0, zeros(4));
    let dref = dref_bytes();
    let tkhd = tkhd_payload(id, 0, 0, 0x0100, 0);
    let mdhd = mdhd_payload(config.sample_rate, 0);
    let hdlr = hdlr_payload(fourcc::SOUN@);
    let none: Seq<u8> = Seq::empty();
    let trak = track_tree(tkhd, none, mdhd, hdlr, fourcc::SMHD@, head, dref, stbl);
    lemma_audio_trak_parts(id, config);
    lemma_tkhd(id, 0, 0, 0x0100, 0);
    lemma_mdhd(config.sample_rate, 0);
    lemma_hdlr(fourcc::SOUN@);
    lemma_box_len(fourcc::TRAK@, trak);
    lemma_track_tree(tkhd, none, none, mdhd, hdlr, fourcc::SMHD@, head, dref, stbl);
    lemma_description_is_shorter(stsd);
    lemma_empty_table(stsd);
    lemma_mp4a(config);
    lemma_esds(config.asc);
    lemma_box_len(fourcc::MP4A@, mp4a_payload(config));
    lemma_entry(fourcc::MP4A@, mp4a_payload(config));
    assert(sound_reads(trak, config));
    trak
}

/// Whether a player reads the defaults of a track's fragments: its id, its one sample description, how
/// long each sample lasts, and nothing else.
pub open spec fn defaults_read(trex: Seq<u8>, id: int, delta: int) -> bool {
    &&& u32_at(trex, 4) == id
    &&& u32_at(trex, 8) == 1
    &&& u32_at(trex, 12) == delta
    &&& u32_at(trex, 16) == 0
    &&& u32_at(trex, 20) == 0
}

/// The defaults of a track's fragments are read.
proof fn lemma_trex(id: int, delta: int) -> (p: Seq<u8>)
    requires
        0 <= id <= u32::MAX,
        0 <= delta <= u32::MAX,
    ensures
        trex_bytes(id, delta) == box_bytes(fourcc::TREX@, p),
        p.len() == 24,
        defaults_read(p, id, delta),
{
    let p = full_payload(0, 0, be32(id) + be32(1) + be32(delta) + be32(0) + be32(0));
    assert(p.subrange(4, 8) =~= be32(id));
    assert(p.subrange(8, 12) =~= be32(1));
    assert(p.subrange(12, 16) =~= be32(delta));
    assert(p.subrange(16, 20) =~= be32(0));
    assert(p.subrange(20, 24) =~= be32(0));
    lemma_be32_reads_back(id);
    lemma_be32_reads_back(1);
    lemma_be32_reads_back(delta);
    lemma_be32_reads_back(0);
    p
}

/// Whether tracks can be named in a movie.
pub open spec fn ids_fit(audio: Seq<TrackView>) -> bool {
    forall|t: int| 0 <= t < audio.len() ==> 0 <= (#[trigger] audio[t]).track_id <= u32::MAX
}

/// Whether defaults of fragments are those of the audio tracks, in order: 1024 samples each.
pub open spec fn audio_defaults_read(trexes: Seq<Seq<u8>>, audio: Seq<TrackView>) -> bool {
    &&& trexes.len() == audio.len()
    &&& forall|t: int|
        0 <= t < audio.len() ==> defaults_read(#[trigger] trexes[t], audio[t].track_id, 1_024)
}

/// The defaults of the audio tracks are found, in order.
proof fn lemma_audio_trexes(audio: Seq<TrackView>, n: int, rest: Seq<u8>) -> (trexes: Seq<Seq<u8>>)
    requires
        0 <= n <= audio.len(),
        ids_fit(audio),
    ensures
        boxes_of(audio_trexes(audio, n) + rest, fourcc::TREX@) == trexes + boxes_of(
            rest,
            fourcc::TREX@,
        ),
        audio_defaults_read(trexes, audio.take(n)),
        audio_trexes(audio, n).len() == 32 * n,
    decreases n,
{
    lemma_codes();
    if n > 0 {
        let t = audio[n - 1];
        let p = lemma_trex(t.track_id, 1_024);
        let bytes = box_bytes(fourcc::TREX@, p);
        lemma_box_len(fourcc::TREX@, p);
        assert(audio_trexes(audio, n) + rest =~= audio_trexes(audio, n - 1) + (bytes + rest));
        let before = lemma_audio_trexes(audio, n - 1, bytes + rest);
        lemma_boxes_step(fourcc::TREX@, p, rest, fourcc::TREX@);
        let all = before.push(p);
        assert(before + (seq![p] + boxes_of(rest, fourcc::TREX@)) =~= all + boxes_of(
            rest,
            fourcc::TREX@,
        ));
        assert forall|k: int| 0 <= k < audio.take(n).len() implies defaults_read(
            #[trigger] all[k],
            audio.take(n)[k].track_id,
            1_024,
        ) by {
            if k < n - 1 {
                assert(all[k] == before[k]);
                assert(audio.take(n - 1)[k] == audio.take(n)[k]);
            }
        }
        all
    } else {
        let none: Seq<Seq<u8>> = Seq::empty();
        assert(audio_trexes(audio, 0) + rest =~= rest);
        assert(none + boxes_of(rest, fourcc::TREX@) =~= boxes_of(rest, fourcc::TREX@));
        none
    }
}

/// Law: a movie that is being written tells the defaults of every track's fragments: the video's first,
/// a thousand units for each sample, and then each audio track's, 1024 for each.
pub proof fn lemma_defaults_read_back(audio: Seq<TrackView>) -> (r: (Seq<u8>, Seq<u8>, Seq<Seq<u8>>))
    requires
        ids_fit(audio),
    ensures
        ({
            let (mvex, video, others) = r;
            &&& mvex_bytes(audio) == box_bytes(fourcc::MVEX@, mvex)
            &&& boxes_of(mvex, seq![0x74u8, 0x72, 0x65, 0x78]) == seq![video] + others
            &&& defaults_read(video, 1, 1_000)
            &&& audio_defaults_read(others, audio)
            &&& mvex.len() == 32 + 32 * audio.len()
        }),
{
    lemma_codes();
    let n = audio.len() as int;
    let none: Seq<u8> = Seq::empty();
    let video = lemma_trex(1, 1_000);
    let others = lemma_audio_trexes(audio, n, none);
    let traks = audio_trexes(audio, n);
    let mvex = trex_bytes(1, 1_000) + traks;
    lemma_box_len(fourcc::TREX@, video);
    assert(traks + none =~= traks);
    assert(audio.take(n) =~= audio);
    assert(boxes_of(none, fourcc::TREX@) =~= Seq::empty());
    assert(others + Seq::<Seq<u8>>::empty() =~= others);
    lemma_boxes_step(fourcc::TREX@, video, traks, fourcc::TREX@);
    (mvex, video, others)
}

/// The payload of an audio track's box.
pub open spec fn opening_trak(t: TrackView) -> Seq<u8> {
    audio_trak_bytes(t.track_id, t.config).skip(8)
}

/// The audio tracks are found, in order.
proof fn lemma_opening_traks(audio: Seq<TrackView>, n: int, rest: Seq<u8>)
    requires
        0 <= n <= audio.len(),
        audio_traks(audio, n).len() <= u32::MAX,
    ensures
        boxes_of(audio_traks(audio, n) + rest, fourcc::TRAK@) == audio.take(n).map_values(
            |t: TrackView| opening_trak(t),
        ) + boxes_of(rest, fourcc::TRAK@),
    decreases n,
{
    let f = |t: TrackView| opening_trak(t);
    lemma_codes();
    if n > 0 {
        let t = audio[n - 1];
        let p = tkhd_bytes(t.track_id, 0, 0, 0x0100, 0) + audio_mdia_bytes(t.config);
        let bytes = box_bytes(fourcc::TRAK@, p);
        lemma_box_skip(fourcc::TRAK@, p);
        assert(audio_traks(audio, n) == audio_traks(audio, n - 1) + bytes);
        assert(audio_traks(audio, n) + rest =~= audio_traks(audio, n - 1) + (bytes + rest));
        lemma_opening_traks(audio, n - 1, bytes + rest);
        lemma_boxes_step(fourcc::TRAK@, p, rest, fourcc::TRAK@);
        assert(audio.take(n).map_values(f) =~= audio.take(n - 1).map_values(f).push(p));
        let before = audio.take(n - 1).map_values(f);
        assert(before + (seq![p] + boxes_of(rest, fourcc::TRAK@)) =~= before.push(p) + boxes_of(
            rest,
            fourcc::TRAK@,
        ));
    } else {
        assert(audio_traks(audio, 0) + rest =~= rest);
        assert(audio.take(0).map_values(f) =~= Seq::empty());
        assert(Seq::<Seq<u8>>::empty() + boxes_of(rest, fourcc::TRAK@) =~= boxes_of(
            rest,
            fourcc::TRAK@,
        ));
    }
}

/// A movie header, and what a player reads in it: its timescale, its duration, that it plays at its own
/// speed and volume, and the next free id.
proof fn lemma_mvhd(next_id: int, duration: int) -> (p: Seq<u8>)
    requires
        0 <= next_id <= u32::MAX,
        0 <= duration <= u32::MAX,
    ensures
        mvhd_bytes(next_id, duration) == box_bytes(fourcc::MVHD@, p),
        movie_header_reads(p, next_id, duration),
        p.len() == 100,
{
    let front = seq![0u8] + be24(0) + be32(0) + be32(0) + be32(1_000) + be32(duration) + be32(
        0x0001_0000,
    ) + be16(0x0100);
    let matrix = matrix_bytes();
    let back = be16(0) + zeros(8) + matrix + zeros(24) + be32(next_id);
    let rest = be32(0) + be32(0) + be32(1_000) + be32(duration) + be32(0x0001_0000) + be16(0x0100)
        + be16(0) + zeros(8) + matrix + zeros(24) + be32(next_id);
    let p = seq![0u8] + be24(0) + rest;
    assert(front.len() == 26 && matrix.len() == 36 && back.len() == 74);
    assert(p =~= front + back);
    assert(front.subrange(12, 16) =~= be32(1_000));
    assert(front.subrange(16, 20) =~= be32(duration));
    assert(front.subrange(20, 24) =~= be32(0x0001_0000));
    assert(front.subrange(24, 26) =~= be16(0x0100));
    assert(back.subrange(70, 74) =~= be32(next_id));
    assert(p.subrange(12, 16) =~= front.subrange(12, 16));
    assert(p.subrange(16, 20) =~= front.subrange(16, 20));
    assert(p.subrange(20, 24) =~= front.subrange(20, 24));
    assert(p.subrange(24, 26) =~= front.subrange(24, 26));
    assert(p.subrange(96, 100) =~= back.subrange(70, 74));
    lemma_be32_reads_back(1_000);
    lemma_be32_reads_back(duration);
    lemma_be32_reads_back(0x0001_0000);
    lemma_be16_reads_back(0x0100);
    lemma_be32_reads_back(next_id);
    p
}

/// Whether a player reads in a movie header its timescale, its duration, that it plays at its own speed
/// and volume, and the next free id.
pub open spec fn movie_header_reads(mvhd: Seq<u8>, next_id: int, duration: int) -> bool {
    &&& u32_at(mvhd, 12) == 1_000
    &&& u32_at(mvhd, 16) == duration
    &&& u32_at(mvhd, 20) == 0x0001_0000
    &&& u16_at(mvhd, 24) == 0x0100
    &&& u32_at(mvhd, 96) == next_id
}

/// Law: the head of a movie that is being written holds a header, the video track and every audio track,
/// in order, and the defaults of their fragments. The header leaves the duration open.
pub proof fn lemma_opening_movie_reads_back(
    avcc: Seq<u8>,
    width: int,
    height: int,
    timescale: int,
    audio: Seq<TrackView>,
) -> (r: (Seq<u8>, Seq<u8>))
    requires
        ids_fit(audio),
        audio.len() + 2 <= u32::MAX,
        moov_bytes(avcc, width, height, timescale, audio).len() <= u32::MAX,
    ensures
        ({
            let (moov, video) = r;
            &&& moov_bytes(avcc, width, height, timescale, audio) == box_bytes(fourcc::MOOV@, moov)
            &&& video_trak_bytes(avcc, width, height, timescale) == box_bytes(fourcc::TRAK@, video)
            &&& child(moov, fourcc::MVHD@) matches Some(mvhd) && movie_header_reads(
                mvhd,
                audio.len() + 2int,
                0,
            )
            &&& tracks_in(moov) == seq![video] + audio.map_values(|t: TrackView| opening_trak(t))
            &&& child(moov, fourcc::MVEX@) matches Some(mvex) && box_bytes(fourcc::MVEX@, mvex)
                == mvex_bytes(audio)
        }),
{
    lemma_codes();
    reveal(moov_bytes);
    let n = audio.len() as int;
    let mvhd = lemma_mvhd(n + 2, 0);
    let (mvex, _, _) = lemma_defaults_read_back(audio);
    let video = tkhd_bytes(1, width, height, 0, 0) + crate::mux::boxes::video_mdia_bytes(
        avcc,
        width,
        height,
        timescale,
    );
    let a = box_bytes(fourcc::MVHD@, mvhd);
    let b = box_bytes(fourcc::TRAK@, video);
    let c = audio_traks(audio, n);
    let d = box_bytes(fourcc::MVEX@, mvex);
    let moov = a + b + c + d;
    lemma_box_len(fourcc::MOOV@, moov);
    lemma_box_len(fourcc::MVHD@, mvhd);
    lemma_box_len(fourcc::TRAK@, video);
    lemma_box_len(fourcc::MVEX@, mvex);
    assert(moov =~= a + (b + (c + d)));
    assert(fourcc::MVHD@[2] == 0x68 && fourcc::MVEX@[2] == 0x65 && fourcc::TRAK@[0] == 0x74
        && fourcc::MVEX@[0] == 0x6D && fourcc::MVHD@[0] == 0x6D);
    lemma_child(fourcc::MVHD@, mvhd, b + (c + d), fourcc::MVHD@);
    lemma_child(fourcc::MVHD@, mvhd, b + (c + d), fourcc::MVEX@);
    lemma_child(fourcc::TRAK@, video, c + d, fourcc::MVEX@);
    lemma_past_traks(audio, n, d);
    lemma_last_child(fourcc::MVEX@, mvex, fourcc::MVEX@);
    lemma_boxes_step(fourcc::MVHD@, mvhd, b + (c + d), fourcc::TRAK@);
    lemma_boxes_step(fourcc::TRAK@, video, c + d, fourcc::TRAK@);
    lemma_opening_traks(audio, n, d);
    let none: Seq<u8> = Seq::empty();
    assert(d + none =~= d);
    lemma_boxes_step(fourcc::MVEX@, mvex, none, fourcc::TRAK@);
    assert(boxes_of(none, fourcc::TRAK@) =~= Seq::empty());
    assert(audio.take(n) =~= audio);
    let traks = audio.map_values(|t: TrackView| opening_trak(t));
    let nothing: Seq<Seq<u8>> = Seq::empty();
    assert(nothing + nothing =~= nothing);
    assert(traks + nothing =~= traks);
    assert(nothing + (seq![video] + traks) =~= seq![video] + traks);
    (moov, video)
}

/// A search for the defaults passes over the audio tracks.
proof fn lemma_past_traks(audio: Seq<TrackView>, n: int, rest: Seq<u8>)
    requires
        0 <= n <= audio.len(),
        audio_traks(audio, n).len() <= u32::MAX,
    ensures
        child(audio_traks(audio, n) + rest, fourcc::MVEX@) == child(rest, fourcc::MVEX@),
    decreases n,
{
    lemma_codes();
    if n > 0 {
        let t = audio[n - 1];
        let p = tkhd_bytes(t.track_id, 0, 0, 0x0100, 0) + audio_mdia_bytes(t.config);
        let bytes = box_bytes(fourcc::TRAK@, p);
        lemma_box_skip(fourcc::TRAK@, p);
        assert(audio_traks(audio, n) + rest =~= audio_traks(audio, n - 1) + (bytes + rest));
        lemma_past_traks(audio, n - 1, bytes + rest);
        assert(fourcc::TRAK@[0] == 0x74 && fourcc::MVEX@[0] == 0x6D);
        lemma_child(fourcc::TRAK@, p, rest, fourcc::MVEX@);
    } else {
        assert(audio_traks(audio, 0) + rest =~= rest);
    }
}

/// Law: pictures are shown as they are: the matrix that they are shown with neither turns nor scales nor
/// moves them.
pub proof fn lemma_matrix_is_unity(k: int)
    requires
        0 <= k < 9,
    ensures
        matrix_bytes().len() == 36,
        u32_at(matrix_bytes(), 4 * k) == if k == 0 || k == 4 {
            0x0001_0000int
        } else if k == 8 {
            0x4000_0000
        } else {
            0
        },
{
    let m = matrix_bytes();
    lemma_be32_reads_back(0);
    lemma_be32_reads_back(0x0001_0000);
    lemma_be32_reads_back(0x4000_0000);
    if k == 0 || k == 4 {
        assert(m.subrange(4 * k, 4 * k + 4) =~= be32(0x0001_0000));
    } else if k == 8 {
        assert(m.subrange(4 * k, 4 * k + 4) =~= be32(0x4000_0000));
    } else {
        assert(m.subrange(4 * k, 4 * k + 4) =~= be32(0));
    }
}

/// Law: the media of a track are in the file itself: its one data reference has no place and says so.
pub proof fn lemma_media_are_in_the_file()
    ensures
        child(dinf_bytes(), seq![0x64u8, 0x69, 0x6E, 0x66]) matches Some(dinf) && (child(
            dinf,
            seq![0x64u8, 0x72, 0x65, 0x66],
        ) matches Some(dref) && u32_at(dref, 4) == 1 && (child(
            dref.skip(8),
            seq![0x75u8, 0x72, 0x6C, 0x20],
        ) matches Some(url) && url.len() == 4 && u32_at(url, 0) == 1)),
{
    lemma_codes();
    let none: Seq<u8> = Seq::empty();
    let url = full_payload(0, 1, none);
    let dref = full_payload(0, 0, be32(1) + box_bytes(fourcc::URL@, url));
    let dinf = box_bytes(fourcc::DREF@, dref);
    lemma_be32_reads_back(1);
    assert(url.subrange(0, 4) =~= be32(1));
    assert(dref.subrange(4, 8) =~= be32(1));
    assert(dref.skip(8) =~= box_bytes(fourcc::URL@, url));
    lemma_box_len(fourcc::URL@, url);
    lemma_box_len(fourcc::DREF@, dref);
    lemma_last_child(fourcc::URL@, url, fourcc::URL@);
    lemma_last_child(fourcc::DREF@, dref, fourcc::DREF@);
    lemma_last_child(fourcc::DINF@, dinf, fourcc::DINF@);
    assert(dinf_bytes() == box_bytes(fourcc::DINF@, dinf));
}

} // verus!
