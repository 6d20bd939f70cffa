//! The movie boxes: the one that a fragmented movie begins with, and the one that a finished movie
//! ends with.

use vstd::prelude::*;

use crate::bytes::append;
use crate::constants::mux::{AUDIO_SAMPLE_DELTA, MOVIE_TIMESCALE, VIDEO_SAMPLE_DELTA};
use crate::mux::boxes::{
    audio_trak_bytes, box_bytes, build_audio_mdia, build_mvhd, build_tkhd, build_trex,
    build_video_trak, ftyp_bytes, large_header, mp4box, mvhd_bytes, trex_bytes, video_trak_bytes,
    FIRST_AUDIO_TRACK_ID, PLACEHOLDER_LEN, VIDEO_TRACK_ID,
};
use crate::mux::fmp4::AudioTrack;
use crate::mux::fourcc;
use crate::mux::tables::{
    add_movie_ts, build_final_audio_trak, build_final_video_trak, final_audio_trak_bytes,
    final_video_trak_bytes, movie_time, to_movie_ts, IndexView, TrackIndex,
};
use crate::mux::timeline::TrackView;

verus! {

/// What a list of tracks holds.
pub open spec fn track_views(audio: Seq<AudioTrack>) -> Seq<TrackView> {
    audio.map_values(|t: AudioTrack| t@)
}

/// The first `n` audio tracks of a fragmented movie.
pub open spec fn audio_traks(audio: Seq<TrackView>, n: int) -> Seq<u8>
    decreases n,
{
    if n <= 0 {
        Seq::empty()
    } else {
        audio_traks(audio, n - 1) + audio_trak_bytes(audio[n - 1].track_id, audio[n - 1].config)
    }
}

/// The fragment defaults of the first `n` audio tracks.
pub open spec fn audio_trexes(audio: Seq<TrackView>, n: int) -> Seq<u8>
    decreases n,
{
    if n <= 0 {
        Seq::empty()
    } else {
        audio_trexes(audio, n - 1) + trex_bytes(audio[n - 1].track_id, AUDIO_SAMPLE_DELTA as int)
    }
}

/// The movie-extends box: the fragment defaults of every track.
pub open spec fn mvex_bytes(audio: Seq<TrackView>) -> Seq<u8> {
    box_bytes(
        fourcc::MVEX@,
        trex_bytes(VIDEO_TRACK_ID as int, VIDEO_SAMPLE_DELTA as int) + audio_trexes(
            audio,
            audio.len() as int,
        ),
    )
}

/// The movie box of a fragmented movie.
#[verifier::opaque]
pub open spec fn moov_bytes(
    avcc: Seq<u8>,
    width: int,
    height: int,
    timescale: int,
    audio: Seq<TrackView>,
) -> Seq<u8> {
    box_bytes(
        fourcc::MOOV@,
        mvhd_bytes(FIRST_AUDIO_TRACK_ID + audio.len(), 0) + video_trak_bytes(
            avcc,
            width,
            height,
            timescale,
        ) + audio_traks(audio, audio.len() as int) + mvex_bytes(audio),
    )
}

/// What a file begins with: the file-type box, the placeholder, the movie box.
pub open spec fn head_bytes(
    avcc: Seq<u8>,
    width: int,
    height: int,
    timescale: int,
    audio: Seq<TrackView>,
) -> Seq<u8> {
    ftyp_bytes() + large_header(fourcc::FREE@, PLACEHOLDER_LEN as int) + moov_bytes(
        avcc,
        width,
        height,
        timescale,
        audio,
    )
}

/// Build an audio track of a fragmented movie.
pub fn build_audio_trak(track: &AudioTrack) -> (v: Vec<u8>)
    ensures
        v@ == audio_trak_bytes(track@.track_id, track@.config),
{
    let mut p: Vec<u8> = build_tkhd(track.track_id, 0, 0, 0x0100, 0);
    let mdia: Vec<u8> = build_audio_mdia(&track.config);
    append(&mut p, &mdia);
    mp4box(&fourcc::TRAK, &p)
}

/// Build the movie-extends box.
pub fn build_mvex(audio: &[AudioTrack]) -> (v: Vec<u8>)
    ensures
        v@ == mvex_bytes(track_views(audio@)),
{
    let ghost views = track_views(audio@);
    let mut p: Vec<u8> = build_trex(VIDEO_TRACK_ID, VIDEO_SAMPLE_DELTA);
    let ghost first = p@;
    assert(p@ =~= first + audio_trexes(views, 0));
    let mut i: usize = 0;
    while i < audio.len()
        invariant
            i <= audio.len(),
            views == track_views(audio@),
            p@ == first + audio_trexes(views, i as int),
        decreases audio.len() - i,
    {
        let trex: Vec<u8> = build_trex(audio[i].track_id, AUDIO_SAMPLE_DELTA);
        append(&mut p, &trex);
        assert(views[i as int] == audio@[i as int]@);
        assert(p@ =~= first + audio_trexes(views, i + 1));
        i = i + 1;
    }
    mp4box(&fourcc::MVEX, &p)
}

/// Build the movie box of a fragmented movie.
pub fn build_moov(
    avcc: &[u8],
    width: u32,
    height: u32,
    timescale: u32,
    audio: &[AudioTrack],
) -> (v: Vec<u8>)
    requires
        audio@.len() + FIRST_AUDIO_TRACK_ID <= u32::MAX,
    ensures
        v@ == moov_bytes(
            avcc@,
            width as int,
            height as int,
            timescale as int,
            track_views(audio@),
        ),
{
    reveal(moov_bytes);
    let ghost views = track_views(audio@);
    let mut p: Vec<u8> = build_mvhd(FIRST_AUDIO_TRACK_ID + audio.len() as u32, 0);
    let video: Vec<u8> = build_video_trak(avcc, width, height, timescale);
    append(&mut p, &video);
    let ghost first = p@;
    assert(p@ =~= first + audio_traks(views, 0));
    let mut i: usize = 0;
    while i < audio.len()
        invariant
            i <= audio.len(),
            views == track_views(audio@),
            p@ == first + audio_traks(views, i as int),
        decreases audio.len() - i,
    {
        let trak: Vec<u8> = build_audio_trak(&audio[i]);
        append(&mut p, &trak);
        assert(views[i as int] == audio@[i as int]@);
        assert(p@ =~= first + audio_traks(views, i + 1));
        i = i + 1;
    }
    let mvex: Vec<u8> = build_mvex(audio);
    append(&mut p, &mvex);
    mp4box(&fourcc::MOOV, &p)
}

/// Whether a track goes into the finished movie: tracks without access units are left out.
pub open spec fn survives(track: TrackView) -> bool {
    track.index.sizes.len() > 0
}

/// Where a track's first access unit lies.
pub open spec fn track_offset(track: TrackView) -> int {
    track.initial_offset.unwrap_or(0)
}

/// The audio tracks of a finished movie, among the first `n`.
pub open spec fn final_traks(audio: Seq<TrackView>, n: int) -> Seq<u8>
    decreases n,
{
    if n <= 0 {
        Seq::empty()
    } else if survives(audio[n - 1]) {
        final_traks(audio, n - 1) + final_audio_trak_bytes(
            audio[n - 1].track_id,
            audio[n - 1].config,
            track_offset(audio[n - 1]),
            audio[n - 1].index,
        )
    } else {
        final_traks(audio, n - 1)
    }
}

/// Where a track ends in the movie's timescale.
pub open spec fn track_end(track: TrackView) -> int {
    (movie_time(track_offset(track), track.config.sample_rate) + movie_time(
        track.index.sizes.len() * AUDIO_SAMPLE_DELTA,
        track.config.sample_rate,
    )) % 0x1_0000_0000
}

/// The longest of `video` and the surviving tracks among the first `n`.
pub open spec fn final_duration(video: int, audio: Seq<TrackView>, n: int) -> int
    decreases n,
{
    if n <= 0 {
        video
    } else {
        let before = final_duration(video, audio, n - 1);
        if survives(audio[n - 1]) && track_end(audio[n - 1]) > before {
            track_end(audio[n - 1])
        } else {
            before
        }
    }
}

/// The highest track id of the video track and the surviving tracks among the first `n`.
pub open spec fn last_track_id(audio: Seq<TrackView>, n: int) -> int
    decreases n,
{
    if n <= 0 {
        VIDEO_TRACK_ID as int
    } else {
        let before = last_track_id(audio, n - 1);
        if survives(audio[n - 1]) && audio[n - 1].track_id > before {
            audio[n - 1].track_id
        } else {
            before
        }
    }
}

/// The movie box of a finished movie.
#[verifier::opaque]
pub open spec fn final_moov_bytes(
    avcc: Seq<u8>,
    width: int,
    height: int,
    timescale: int,
    video_index: IndexView,
    audio: Seq<TrackView>,
) -> Seq<u8> {
    let n = audio.len() as int;
    let video_dur = movie_time(video_index.sizes.len() * VIDEO_SAMPLE_DELTA, timescale);
    box_bytes(
        fourcc::MOOV@,
        mvhd_bytes(last_track_id(audio, n) + 1, final_duration(video_dur, audio, n))
            + final_video_trak_bytes(avcc, width, height, timescale, video_index) + final_traks(audio, n),
    )
}

/// Whether the durations of an index's track can be computed in 64 bits.
pub open spec fn duration_fits(index: IndexView) -> bool {
    index.sizes.len() * AUDIO_SAMPLE_DELTA * MOVIE_TIMESCALE + u32::MAX <= u64::MAX
}

/// Whether a track's durations can be computed in 64 bits.
pub open spec fn track_fits(track: TrackView) -> bool {
    &&& duration_fits(track.index)
    &&& track_offset(track) * MOVIE_TIMESCALE + u32::MAX <= u64::MAX
    &&& track.track_id < u32::MAX
}

/// Build the movie box of a finished movie: the tracks that hold anything, with their sample
/// tables and durations.
pub fn build_final_moov(
    avcc: &[u8],
    width: u32,
    height: u32,
    timescale: u32,
    video_index: &TrackIndex,
    audio: &[AudioTrack],
) -> (v: Vec<u8>)
    requires
        duration_fits(video_index@),
        forall|i: int| 0 <= i < audio@.len() ==> track_fits((#[trigger] audio@[i])@),
    ensures
        v@ == final_moov_bytes(
            avcc@,
            width as int,
            height as int,
            timescale as int,
            video_index@,
            track_views(audio@),
        ),
{
    reveal(final_moov_bytes);
    let ghost views = track_views(audio@);
    let ghost video_dur = movie_time(
        video_index@.sizes.len() * VIDEO_SAMPLE_DELTA,
        timescale as int,
    );
    let media_dur: u64 = video_index.sample_count() * VIDEO_SAMPLE_DELTA as u64;
    let mut duration: u32 = to_movie_ts(media_dur, timescale);
    let mut last_id: u32 = VIDEO_TRACK_ID;
    let mut traks: Vec<u8> = Vec::new();
    let mut i: usize = 0;
    while i < audio.len()
        invariant
            i <= audio.len(),
            views == track_views(audio@),
            forall|k: int| 0 <= k < audio@.len() ==> track_fits((#[trigger] audio@[k])@),
            duration == final_duration(video_dur, views, i as int),
            last_id == last_track_id(views, i as int),
            last_id < u32::MAX,
            traks@ == final_traks(views, i as int),
        decreases audio.len() - i,
    {
        let track: &AudioTrack = &audio[i];
        assert(views[i as int] == audio@[i as int]@);
        assert(track_fits(audio@[i as int]@));
        let n: u64 = track.index.sample_count();
        if n > 0 {
            let offset: u64 = match track.initial_offset {
                Some(offset) => offset,
                None => 0,
            };
            let media: u32 = to_movie_ts(n * AUDIO_SAMPLE_DELTA as u64, track.config.sample_rate);
            let delay: u32 = to_movie_ts(offset, track.config.sample_rate);
            let end: u32 = add_movie_ts(delay, media);
            if end > duration {
                duration = end;
            }
            if track.track_id > last_id {
                last_id = track.track_id;
            }
            let trak: Vec<u8> = build_final_audio_trak(
                track.track_id,
                &track.config,
                offset,
                &track.index,
            );
            append(&mut traks, &trak);
        }
        i = i + 1;
    }
    let mut p: Vec<u8> = build_mvhd(last_id + 1, duration);
    let video: Vec<u8> = build_final_video_trak(avcc, width, height, timescale, video_index);
    append(&mut p, &video);
    append(&mut p, &traks);
    mp4box(&fourcc::MOOV, &p)
}

/// Law: the finished movie's next free track id is above the id of every track that is in it.
pub proof fn lemma_next_id_above_survivors(audio: Seq<TrackView>, n: int, t: int)
    requires
        0 <= t < n <= audio.len(),
        survives(audio[t]),
    ensures
        audio[t].track_id <= last_track_id(audio, n),
        VIDEO_TRACK_ID <= last_track_id(audio, n),
    decreases n,
{
    if t < n - 1 {
        lemma_next_id_above_survivors(audio, n - 1, t);
    } else {
        lemma_video_id_lowest(audio, n - 1);
    }
}

/// The highest id is at least the video track's.
proof fn lemma_video_id_lowest(audio: Seq<TrackView>, n: int)
    ensures
        VIDEO_TRACK_ID <= last_track_id(audio, n),
    decreases n,
{
    if n > 0 {
        lemma_video_id_lowest(audio, n - 1);
    }
}

/// Law: the finished movie lasts as long as its longest track.
pub proof fn lemma_duration_covers_tracks(video: int, audio: Seq<TrackView>, n: int)
    requires
        0 <= n <= audio.len(),
    ensures
        video <= final_duration(video, audio, n),
        forall|t: int|
            0 <= t < n && survives(#[trigger] audio[t]) ==> track_end(audio[t]) <= final_duration(
                video,
                audio,
                n,
            ),
        final_duration(video, audio, n) == video || exists|t: int|
            0 <= t < n && survives(#[trigger] audio[t]) && track_end(audio[t]) == final_duration(
                video,
                audio,
                n,
            ),
    decreases n,
{
    if n > 0 {
        lemma_duration_covers_tracks(video, audio, n - 1);
        let last = audio[n - 1];
        if survives(last) && track_end(last) > final_duration(video, audio, n - 1) {
            assert(track_end(audio[n - 1]) == final_duration(video, audio, n));
        }
    }
}

} // verus!
