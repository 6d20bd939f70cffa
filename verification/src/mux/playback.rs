//! What a player finds in a finished file: its tracks, and their samples.

use vstd::prelude::*;

use crate::bytes::{be16, be24, be32, lemma_be32_reads_back, zeros};
use crate::constants::mux::{MOVIE_TIMESCALE, VIDEO_SAMPLE_DELTA};
use crate::mux::boxes::{box_bytes, lemma_box_len, matrix_bytes, mvhd_bytes, ConfigView};
use crate::mux::decode::{index_fits, lemma_codes, reads_as, u32_at};
use crate::mux::fmp4::has_placeholder;
use crate::mux::fourcc;
use crate::mux::layout::{finished_file, lemma_finished_layout, lemma_finished_samples};
use crate::mux::movie::{final_duration, final_moov_bytes, final_traks, last_track_id, track_offset};
use crate::mux::placement::{first_sample, lies_at, looked_up};
use crate::mux::reader::box_from;
use crate::mux::roundtrip::{lemma_final_moov, lemma_mvhd_len, lemma_search_finds_moov};
use crate::mux::tables::{final_audio_trak_bytes, final_video_trak_bytes, movie_time, IndexView};
use crate::mux::timeline::{MovieView, TrackView};
use crate::mux::track::{
    delay_reads, header_reads, is_nearest_ms, lemma_audio_trak_is_a_box,
    lemma_audio_track_reads_back, lemma_video_track_reads_back, media_reads, picture_reads,
    sample_table, sound_reads, time_fits,
};

verus! {

/// The payloads of the boxes of type `typ` among those that stand one after the other in `s`.
pub open spec fn boxes_of(s: Seq<u8>, typ: Seq<u8>) -> Seq<Seq<u8>>
    decreases s.len(),
{
    let n = u32_at(s, 0);
    if s.len() < 8 || n < 8 || n > s.len() {
        Seq::empty()
    } else {
        (if s.subrange(4, 8) == typ {
            seq![s.subrange(8, n)]
        } else {
            Seq::empty()
        }) + boxes_of(s.skip(n), typ)
    }
}

/// The payload of a file's movie box.
pub open spec fn read_moov(file: Seq<u8>) -> Option<Seq<u8>> {
    match box_from(file, 0, seq![0x6Du8, 0x6F, 0x6F, 0x76]) {
        Some((at, len)) => if at + len <= file.len() {
            Some(file.subrange(at as int, at + len))
        } else {
            None
        },
        None => None,
    }
}

/// The payloads of the tracks in a movie box.
pub open spec fn tracks_in(moov: Seq<u8>) -> Seq<Seq<u8>> {
    boxes_of(moov, seq![0x74u8, 0x72, 0x61, 0x6B])
}

/// A box is taken, or passed over.
pub proof fn lemma_boxes_step(first: Seq<u8>, payload: Seq<u8>, rest: Seq<u8>, typ: Seq<u8>)
    requires
        first.len() == 4,
        payload.len() + 8 <= u32::MAX,
    ensures
        boxes_of(box_bytes(first, payload) + rest, typ) == (if first == typ {
            seq![payload]
        } else {
            Seq::empty()
        }) + boxes_of(rest, typ),
{
    reveal(box_bytes);
    let n = payload.len() + 8;
    let s = box_bytes(first, payload) + rest;
    lemma_be32_reads_back(n as int);
    assert(s.subrange(0, 4) =~= be32(n as int));
    assert(s.subrange(4, 8) =~= first);
    assert(s.subrange(8, n as int) =~= payload);
    assert(s.skip(n as int) =~= rest);
}

/// The payload of an audio track's box.
pub open spec fn audio_trak(t: TrackView) -> Seq<u8> {
    final_audio_trak_bytes(t.track_id, t.config, track_offset(t), t.index).skip(8)
}

/// Whether a track has access units.
pub open spec fn has_units(t: TrackView) -> bool {
    t.index.sizes.len() > 0
}

/// The boxes of the audio tracks that have access units, in order.
pub open spec fn audio_traks_of(audio: Seq<TrackView>) -> Seq<Seq<u8>> {
    audio.filter(|t: TrackView| has_units(t)).map_values(|t: TrackView| audio_trak(t))
}

/// The payload of a box stands behind eight bytes.
pub proof fn lemma_box_skip(typ: Seq<u8>, payload: Seq<u8>)
    requires
        typ.len() == 4,
    ensures
        box_bytes(typ, payload).skip(8) == payload,
        box_bytes(typ, payload).len() == payload.len() + 8,
{
    reveal(box_bytes);
    assert(box_bytes(typ, payload).skip(8) =~= payload);
}

/// The payload of a movie box in a finished file.
proof fn lemma_moov_is_read(m: MovieView, payload: Seq<u8>)
    requires
        m.ok(),
        has_placeholder(m.head),
        8 <= payload.len(),
        payload.len() + 8 <= u32::MAX,
    ensures
        read_moov(finished_file(m.stream, box_bytes(fourcc::MOOV@, payload))) == Some(payload),
{
    lemma_codes();
    let moov = box_bytes(fourcc::MOOV@, payload);
    let file = finished_file(m.stream, moov);
    let s = m.stream.len() as int;
    lemma_search_finds_moov(m, payload);
    lemma_finished_layout(m, moov);
    lemma_box_skip(fourcc::MOOV@, payload);
    assert(file.skip(s) =~= moov);
    assert(file.subrange(s + 8, s + 8 + payload.len()) =~= moov.skip(8));
}

/// A track's box is its payload behind a header.
proof fn lemma_audio_trak(t: TrackView)
    ensures
        final_audio_trak_bytes(t.track_id, t.config, track_offset(t), t.index) == box_bytes(
            fourcc::TRAK@,
            audio_trak(t),
        ),
        final_audio_trak_bytes(t.track_id, t.config, track_offset(t), t.index).len()
            == audio_trak(t).len() + 8,
{
    lemma_codes();
    let bytes = final_audio_trak_bytes(t.track_id, t.config, track_offset(t), t.index);
    let p = lemma_audio_trak_is_a_box(t.track_id, t.config, track_offset(t), t.index);
    lemma_box_skip(fourcc::TRAK@, p);
}

/// A movie header is a box.
proof fn lemma_mvhd_is_a_box(next_id: int, duration: int) -> (p: Seq<u8>)
    ensures
        mvhd_bytes(next_id, duration) == box_bytes(fourcc::MVHD@, p),
{
    let rest = be32(0) + be32(0) + be32(MOVIE_TIMESCALE as int) + be32(duration) + be32(0x0001_0000)
        + be16(0x0100) + be16(0) + zeros(8) + matrix_bytes() + zeros(24) + be32(next_id);
    seq![0u8] + be24(0) + rest
}

/// The audio tracks are found, in order.
proof fn lemma_audio_traks(audio: Seq<TrackView>, n: int, rest: Seq<u8>)
    requires
        0 <= n <= audio.len(),
        final_traks(audio, n).len() <= u32::MAX,
    ensures
        boxes_of(final_traks(audio, n) + rest, fourcc::TRAK@) == audio_traks_of(audio.take(n))
            + boxes_of(rest, fourcc::TRAK@),
    decreases n,
{
    let pred = |t: TrackView| has_units(t);
    let f = |t: TrackView| audio_trak(t);
    reveal(Seq::filter);
    if n > 0 {
        let t = audio[n - 1];
        assert(audio.take(n).drop_last() =~= audio.take(n - 1));
        if has_units(t) {
            lemma_audio_trak(t);
            let bytes = box_bytes(fourcc::TRAK@, audio_trak(t));
            assert(final_traks(audio, n) == final_traks(audio, n - 1) + bytes);
            assert(final_traks(audio, n) + rest =~= final_traks(audio, n - 1) + (bytes + rest));
            lemma_audio_traks(audio, n - 1, bytes + rest);
            lemma_codes();
            lemma_boxes_step(fourcc::TRAK@, audio_trak(t), rest, fourcc::TRAK@);
            let before = audio_traks_of(audio.take(n - 1));
            assert(audio_traks_of(audio.take(n)) =~= before.push(audio_trak(t)));
            assert(before + (seq![audio_trak(t)] + boxes_of(rest, fourcc::TRAK@)) =~= before.push(
                audio_trak(t),
            ) + boxes_of(rest, fourcc::TRAK@));
        } else {
            lemma_audio_traks(audio, n - 1, rest);
            assert(audio_traks_of(audio.take(n)) =~= audio_traks_of(audio.take(n - 1)));
        }
    } else {
        assert(audio.take(0) =~= Seq::empty());
        assert(audio_traks_of(audio.take(0)) =~= Seq::empty());
        assert(final_traks(audio, 0) + rest =~= rest);
        assert(Seq::<Seq<u8>>::empty() + boxes_of(rest, fourcc::TRAK@) =~= boxes_of(
            rest,
            fourcc::TRAK@,
        ));
    }
}

/// The movie box of a finished movie holds a header and the tracks.
proof fn lemma_tracks_in(
    mvhd: Seq<u8>,
    video: Seq<u8>,
    audio: Seq<TrackView>,
)
    requires
        mvhd.len() + 8 <= u32::MAX,
        video.len() + 8 <= u32::MAX,
        final_traks(audio, audio.len() as int).len() <= u32::MAX,
    ensures
        tracks_in(
            box_bytes(fourcc::MVHD@, mvhd) + (box_bytes(fourcc::TRAK@, video) + final_traks(
                audio,
                audio.len() as int,
            )),
        ) == seq![video] + audio_traks_of(audio),
{
    lemma_codes();
    let n = audio.len() as int;
    let none: Seq<u8> = Seq::empty();
    let traks = final_traks(audio, n);
    lemma_boxes_step(
        fourcc::MVHD@,
        mvhd,
        box_bytes(fourcc::TRAK@, video) + traks,
        fourcc::TRAK@,
    );
    assert(fourcc::MVHD@[0] == 0x6D && fourcc::TRAK@[0] == 0x74);
    lemma_boxes_step(fourcc::TRAK@, video, traks, fourcc::TRAK@);
    lemma_audio_traks(audio, n, none);
    assert(traks + none =~= traks);
    assert(audio.take(n) =~= audio);
    assert(boxes_of(none, fourcc::TRAK@) =~= Seq::empty());
    assert(audio_traks_of(audio) + Seq::<Seq<u8>>::empty() =~= audio_traks_of(audio));
    assert(Seq::<Seq<u8>>::empty() + (seq![video] + audio_traks_of(audio)) =~= seq![video]
        + audio_traks_of(audio));
}

/// Whether a finished movie fits the tables of its file.
pub open spec fn movie_fits(m: MovieView, width: int, height: int, timescale: int) -> bool {
    &&& 0 <= width <= u16::MAX
    &&& 0 <= height <= u16::MAX
    &&& 1 <= timescale <= u32::MAX
    &&& index_fits(m.video_index)
    &&& m.video_index.sizes.len() * 1_000 <= u32::MAX
    &&& time_fits(m.video_index.sizes.len() * 1_000int, timescale)
    &&& forall|t: int| 0 <= t < m.audio.len() ==> track_fits_tables(#[trigger] m.audio[t])
}

/// Whether an audio track fits the tables of its file.
pub open spec fn track_fits_tables(t: TrackView) -> bool {
    &&& 0 <= t.track_id <= u32::MAX
    &&& 0 <= t.config.channels <= u16::MAX
    &&& 1 <= t.config.sample_rate <= u16::MAX
    &&& index_fits(t.index)
    &&& t.index.sizes.len() * 1_024 <= u32::MAX
    &&& time_fits(t.index.sizes.len() * 1_024int, t.config.sample_rate)
    &&& time_fits(track_offset(t), t.config.sample_rate)
}

/// Whether a player reads a video track: its size in pixels, its decoder configuration, its timescale,
/// how long it lasts, and its samples.
pub open spec fn plays_video(
    trak: Seq<u8>,
    avcc: Seq<u8>,
    width: int,
    height: int,
    timescale: int,
    index: IndexView,
) -> bool {
    let units = index.sizes.len() * 1_000int;
    &&& picture_reads(trak, width, height, avcc)
    &&& exists|ms: int|
        #[trigger] header_reads(trak, 1, ms, width, height, 0) && is_nearest_ms(ms, units, timescale)
    &&& media_reads(trak, timescale, units, seq![0x76u8, 0x69, 0x64, 0x65])
    &&& sample_table(trak) matches Some(stbl) && reads_as(stbl, index, 1_000)
}

/// Whether a player reads an audio track: its decoder configuration, where it begins in the movie,
/// how long it lasts, and its access units.
pub open spec fn plays_audio(
    trak: Seq<u8>,
    id: int,
    config: ConfigView,
    offset: int,
    index: IndexView,
) -> bool {
    let units = index.sizes.len() * 1_024int;
    &&& sound_reads(trak, config)
    &&& exists|delay: int, media: int|
        {
            &&& #[trigger] delay_reads(trak, delay, media)
            &&& is_nearest_ms(delay, offset, config.sample_rate)
            &&& is_nearest_ms(media, units, config.sample_rate)
            &&& header_reads(trak, id, (delay + media) % 0x1_0000_0000, 0, 0, 0x0100)
        }
    &&& media_reads(trak, config.sample_rate, units, seq![0x73u8, 0x6F, 0x75, 0x6E])
    &&& sample_table(trak) matches Some(stbl) && reads_as(stbl, index, 1_024)
}

/// An audio track is no longer than all.
proof fn lemma_traks_bound(audio: Seq<TrackView>, n: int, t: int)
    requires
        0 <= t < n <= audio.len(),
        has_units(audio[t]),
    ensures
        audio_trak(audio[t]).len() + 8 <= final_traks(audio, n).len(),
    decreases n,
{
    if t < n - 1 {
        lemma_traks_bound(audio, n - 1, t);
    } else {
        lemma_audio_trak(audio[t]);
    }
}

/// Law: a finished file plays. A player finds in it the movie box, with the video track first and
/// behind it the audio tracks that have access units, in order; it reads of each track what was
/// written: of the video its size, its decoder configuration and its samples, of each audio track its
/// decoder configuration, where it begins and its access units.
pub proof fn lemma_finished_file_plays(
    m: MovieView,
    avcc: Seq<u8>,
    width: int,
    height: int,
    timescale: int,
)
    requires
        m.ok(),
        has_placeholder(m.head),
        movie_fits(m, width, height, timescale),
        final_moov_bytes(avcc, width, height, timescale, m.video_index, m.audio).len()
            <= u32::MAX,
    ensures
        ({
            let file = finished_file(
                m.stream,
                final_moov_bytes(avcc, width, height, timescale, m.video_index, m.audio),
            );
            let heard = m.audio.filter(|t: TrackView| has_units(t));
            &&& read_moov(file) matches Some(moov) && tracks_in(moov).len() == 1 + heard.len()
                && plays_video(tracks_in(moov)[0], avcc, width, height, timescale, m.video_index)
                && forall|k: int|
                0 <= k < heard.len() ==> plays_audio(
                    #[trigger] tracks_in(moov)[1 + k],
                    heard[k].track_id,
                    heard[k].config,
                    heard[k].initial_offset.unwrap_or(0),
                    heard[k].index,
                )
        }),
{
    let n = m.audio.len() as int;
    let video_dur = movie_time(m.video_index.sizes.len() * VIDEO_SAMPLE_DELTA, timescale);
    let next_id = last_track_id(m.audio, n) + 1;
    let duration = final_duration(video_dur, m.audio, n);
    let mvhd = mvhd_bytes(next_id, duration);
    let video_bytes = final_video_trak_bytes(avcc, width, height, timescale, m.video_index);
    let traks = final_traks(m.audio, n);
    let payload = mvhd + (video_bytes + traks);
    let moov = box_bytes(fourcc::MOOV@, payload);
    lemma_codes();
    lemma_final_moov(m, avcc, width, height, timescale);
    lemma_mvhd_len(next_id, duration);
    lemma_box_len(fourcc::MOOV@, payload);
    let video = lemma_video_track_reads_back(avcc, width, height, timescale, m.video_index);
    lemma_box_len(fourcc::TRAK@, video);
    lemma_moov_is_read(m, payload);
    let p = lemma_mvhd_is_a_box(next_id, duration);
    lemma_box_len(fourcc::MVHD@, p);
    lemma_tracks_in(p, video, m.audio);
    let pred = |t: TrackView| has_units(t);
    let heard = m.audio.filter(pred);
    let tracks = tracks_in(payload);
    assert(tracks == seq![video] + audio_traks_of(m.audio));
    assert forall|k: int| 0 <= k < heard.len() implies plays_audio(
        #[trigger] tracks[1 + k],
        heard[k].track_id,
        heard[k].config,
        heard[k].initial_offset.unwrap_or(0),
        heard[k].index,
    ) by {
        let i = crate::seqs::lemma_filter_item(m.audio, pred, k);
        let t = m.audio[i];
        assert(track_fits_tables(m.audio[i]));
        assert(tracks[1 + k] == audio_trak(t));
        lemma_audio_trak(t);
        lemma_traks_bound(m.audio, n, i);
        let (trak, delay, media) = lemma_audio_track_reads_back(
            t.track_id,
            t.config,
            track_offset(t),
            t.index,
        );
        lemma_box_skip(fourcc::TRAK@, trak);
        assert(delay_reads(tracks[1 + k], delay, media));
    }
}

/// Law: a player that follows a track's tables in a finished file finds every sample, as it was
/// written.
pub proof fn lemma_finished_file_holds_samples(
    m: MovieView,
    moov: Seq<u8>,
    index: IndexView,
    written: Seq<(Seq<u8>, bool)>,
    i: int,
) -> (r: (int, int))
    requires
        m.ok(),
        has_placeholder(m.head),
        crate::mux::placement::describes(index, written, m.stream, m.head.len() as int),
        forall|k: int| 0 <= k < written.len() ==> (#[trigger] written[k]).0.len() <= u32::MAX,
        0 <= i < written.len(),
    ensures
        0 <= r.0 < index.chunks.len(),
        0 <= r.1 < index.chunks[r.0].1,
        i == first_sample(index.chunks, r.0) + r.1,
        index.sizes.len() == written.len(),
        index.sizes[i] == written[i].0.len(),
        index.sync[i] == written[i].1,
        lies_at(finished_file(m.stream, moov), looked_up(index, r.0, r.1), written[i].0),
{
    crate::mux::placement::lemma_every_sample_has_a_chunk(
        index,
        written,
        m.stream,
        m.head.len() as int,
        i,
    );
    let c = choose|c: int|
        0 <= c < index.chunks.len() && #[trigger] first_sample(index.chunks, c) <= i < first_sample(
            index.chunks,
            c,
        ) + index.chunks[c].1;
    let k = i - first_sample(index.chunks, c);
    lemma_finished_samples(m, moov, index, written, c, k);
    (c, k)
}

} // verus!
