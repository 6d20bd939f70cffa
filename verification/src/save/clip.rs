//! The file that a clip's packets make.

use vstd::prelude::*;

use crate::bytes::append;
use crate::encode::{EncodedAudioPacket, EncodedPacket};
use crate::mux::boxes::{AudioTrackConfig, FIRST_AUDIO_TRACK_ID};
use crate::mux::fmp4::{
    created_movie, header_fault, header_record, packed_rate, setup_view, Finished, Fmp4Writer,
    SetupView,
};
use crate::mux::layout::finished_file;
use crate::mux::movie::final_moov_bytes;
use crate::mux::nal::avcc_sample;
use crate::mux::placement::lemma_push_sample_grows;
use crate::mux::timeline::{
    gap_fits, gap_units, head_silence, lemma_flush_tracks_grows, lemma_place_grows,
    lemma_release_grows, MovieView, MAX_STREAM_LEN,
};
use crate::save::feed::{lemma_order_is_unique, merged_feed, stably_sorted, window_feed, Feed};
use crate::save::window::{window_tracks, SaveError, SaveWindow};

verus! {

/// A window's packets in the order in which they go to the muxer.
pub open spec fn ordered_feed<'a>(
    video: Seq<EncodedPacket>,
    audio: Seq<Seq<EncodedAudioPacket>>,
) -> Seq<Feed<'a>> {
    choose|feed: Seq<Feed<'a>>| stably_sorted(feed, window_feed(video, audio))
}

/// The movie after the first `n` packets of a feed.
pub open spec fn fed(movie: MovieView, feed: Seq<Feed>, n: int) -> MovieView
    decreases n,
{
    if n <= 0 {
        movie
    } else {
        let before = fed(movie, feed, n - 1);
        match feed[n - 1] {
            Feed::Video(p) => before.write_video(p.data@, p.pts as int, p.is_keyframe),
            Feed::Audio(t, a) => before.write_audio(t as int, a.pts as int, a.data@),
        }
    }
}

/// The movie that a feed makes.
pub open spec fn clip_movie(movie: MovieView, feed: Seq<Feed>) -> MovieView {
    fed(movie, feed, feed.len() as int).flush_all()
}

/// The file of a finished movie. A movie without video stays as it is.
pub open spec fn movie_file(movie: MovieView, setup: SetupView) -> Seq<u8> {
    if movie.video_written.len() == 0 {
        movie.stream
    } else {
        finished_file(
            movie.stream,
            final_moov_bytes(
                setup.avcc,
                setup.width,
                setup.height,
                setup.timescale,
                movie.video_index,
                movie.audio,
            ),
        )
    }
}

/// Whether every audio packet lies within reach of every video packet.
pub open spec fn times_fit(feed: Seq<Feed>) -> bool {
    forall|i: int, j: int|
        #![trigger feed[i], feed[j]]
        0 <= i < feed.len() && 0 <= j < feed.len() ==> match (feed[i], feed[j]) {
            (Feed::Audio(_, a), Feed::Video(p)) => gap_fits(a.pts as int, p.pts as int),
            _ => true,
        }
}

/// Whether a time lies within reach of every video packet.
spec fn reaches_video(feed: Seq<Feed>, pts: int) -> bool {
    forall|j: int|
        0 <= j < feed.len() ==> match #[trigger] feed[j] {
            Feed::Video(p) => gap_fits(pts, p.pts as int),
            Feed::Audio(_, _) => true,
        }
}

/// Whether every audio packet lies within reach of a time.
spec fn audio_reaches(feed: Seq<Feed>, origin: int) -> bool {
    forall|i: int|
        0 <= i < feed.len() ==> match #[trigger] feed[i] {
            Feed::Video(_) => true,
            Feed::Audio(_, a) => gap_fits(a.pts as int, origin),
        }
}

/// Whether what a movie holds back lies within reach of every video packet, and its origin within
/// reach of every audio packet.
spec fn within_reach(m: MovieView, feed: Seq<Feed>) -> bool {
    &&& m.origin matches Some(origin) ==> audio_reaches(feed, origin)
    &&& forall|t: int, k: int|
        0 <= t < m.audio.len() && 0 <= k < m.audio[t].prebuffer.len() ==> reaches_video(
            feed,
            (#[trigger] m.audio[t].prebuffer[k]).0,
        )
}

/// Whether two movies hold back the same units, and have the same origin.
spec fn same_held(a: MovieView, b: MovieView) -> bool {
    &&& a.origin == b.origin
    &&& a.audio.len() == b.audio.len()
    &&& forall|t: int|
        0 <= t < a.audio.len() ==> (#[trigger] a.audio[t]).prebuffer == b.audio[t].prebuffer
}

/// Adding silence changes nothing of what is held back.
proof fn lemma_silence_holds(m: MovieView, t: int, n: int)
    requires
        0 <= t < m.audio.len(),
    ensures
        same_held(m.push_silence(t, n), m),
    decreases n,
{
    if n > 0 {
        lemma_silence_holds(m, t, n - 1);
    }
}

/// Placing a unit changes nothing of what is held back.
proof fn lemma_place_holds(m: MovieView, t: int, origin: int, pts: int, unit: Seq<u8>)
    requires
        0 <= t < m.audio.len(),
    ensures
        same_held(m.place_audio(t, origin, pts, unit), m),
{
    if m.audio[t].initial_offset is None && pts >= origin {
        let gap = gap_units(pts, origin);
        let silence = head_silence(gap, m.audio[t].config.silent_au.len() > 0);
        let started = m.with_offset(t, gap - silence * crate::constants::mux::AUDIO_SAMPLE_DELTA);
        lemma_silence_holds(started, t, silence);
    }
}

/// Placing units changes nothing of what is held back.
proof fn lemma_place_units_holds(
    m: MovieView,
    t: int,
    origin: int,
    units: Seq<(int, Seq<u8>)>,
    n: int,
)
    requires
        0 <= t < m.audio.len(),
    ensures
        same_held(m.place_units(t, origin, units, n), m),
    decreases n,
{
    if n > 0 {
        lemma_place_units_holds(m, t, origin, units, n - 1);
        lemma_place_holds(
            m.place_units(t, origin, units, n - 1),
            t,
            origin,
            units[n - 1].0,
            units[n - 1].1,
        );
    }
}

/// Releasing the first tracks empties what they hold back, and leaves the others.
proof fn lemma_release_holds(m: MovieView, origin: int, n: int)
    requires
        n <= m.audio.len(),
    ensures
        m.release_held(origin, n).origin == m.origin,
        m.release_held(origin, n).audio.len() == m.audio.len(),
        forall|t: int|
            0 <= t < m.audio.len() ==> (#[trigger] m.release_held(origin, n).audio[t]).prebuffer
                == if t < n {
                Seq::<(int, Seq<u8>)>::empty()
            } else {
                m.audio[t].prebuffer
            },
    decreases n,
{
    if n > 0 {
        lemma_release_holds(m, origin, n - 1);
        let before = m.release_held(origin, n - 1);
        let held = before.audio[n - 1].prebuffer;
        lemma_place_units_holds(
            before.without_prebuffer(n - 1),
            n - 1,
            origin,
            held,
            held.len() as int,
        );
    }
}

/// Units within reach can be placed.
proof fn lemma_units_can_be_placed(
    m: MovieView,
    t: int,
    origin: int,
    units: Seq<(int, Seq<u8>)>,
    n: int,
)
    requires
        n <= units.len(),
        forall|k: int| 0 <= k < units.len() ==> gap_fits((#[trigger] units[k]).0, origin),
    ensures
        m.can_place_units(t, origin, units, n),
    decreases n,
{
    if n > 0 {
        lemma_units_can_be_placed(m, t, origin, units, n - 1);
    }
}

/// What is held back within reach of the origin can be released.
proof fn lemma_held_can_be_released(m: MovieView, origin: int, n: int)
    requires
        n <= m.audio.len(),
        forall|t: int, k: int|
            0 <= t < m.audio.len() && 0 <= k < m.audio[t].prebuffer.len() ==> gap_fits(
                (#[trigger] m.audio[t].prebuffer[k]).0,
                origin,
            ),
    ensures
        m.can_release(origin, n),
    decreases n,
{
    if n > 0 {
        lemma_held_can_be_released(m, origin, n - 1);
        lemma_release_holds(m, origin, n - 1);
        let before = m.release_held(origin, n - 1);
        let held = before.audio[n - 1].prebuffer;
        assert(held == m.audio[n - 1].prebuffer);
        lemma_units_can_be_placed(
            before.without_prebuffer(n - 1),
            n - 1,
            origin,
            held,
            held.len() as int,
        );
    }
}

/// Taking in a video packet makes no shorter a stream.
proof fn lemma_write_video_grows(m: MovieView, data: Seq<u8>, pts: int, is_keyframe: bool)
    ensures
        m.stream.len() <= m.write_video(data, pts, is_keyframe).stream.len(),
{
    let sample = (avcc_sample(data), is_keyframe);
    if sample.0.len() > 0 {
        if m.origin is None {
            lemma_release_grows(
                MovieView { origin: Some(pts), ..m },
                pts,
                0,
                m.audio.len() as int,
            );
            lemma_push_sample_grows(m.with_origin(pts), sample);
        } else {
            lemma_push_sample_grows(m, sample);
        }
    }
}

/// Taking in an audio packet makes no shorter a stream.
proof fn lemma_write_audio_grows(m: MovieView, t: int, pts: int, unit: Seq<u8>)
    ensures
        m.stream.len() <= m.write_audio(t, pts, unit).stream.len(),
{
    if t < m.audio.len() {
        if let Some(origin) = m.origin {
            lemma_place_grows(m, t, origin, pts, unit);
        }
    }
}

/// A longer feed makes no shorter a stream.
proof fn lemma_fed_grows(movie: MovieView, feed: Seq<Feed>, a: int, b: int)
    requires
        0 <= a <= b <= feed.len(),
    ensures
        fed(movie, feed, a).stream.len() <= fed(movie, feed, b).stream.len(),
    decreases b,
{
    if a < b {
        lemma_fed_grows(movie, feed, a, b - 1);
        let before = fed(movie, feed, b - 1);
        match feed[b - 1] {
            Feed::Video(p) => {
                lemma_write_video_grows(before, p.data@, p.pts as int, p.is_keyframe);
            },
            Feed::Audio(t, x) => {
                lemma_write_audio_grows(before, t as int, x.pts as int, x.data@);
            },
        }
    }
}

/// A packet of the feed can be taken in, and leaves what is held back within reach.
proof fn lemma_feed_step(m: MovieView, feed: Seq<Feed>, i: int)
    requires
        0 <= i < feed.len(),
        times_fit(feed),
        within_reach(m, feed),
    ensures
        match feed[i] {
            Feed::Video(p) => {
                &&& m.can_write_video(p.data@, p.pts as int)
                &&& within_reach(m.write_video(p.data@, p.pts as int, p.is_keyframe), feed)
            },
            Feed::Audio(t, a) => {
                &&& m.can_write_audio(t as int, a.pts as int)
                &&& within_reach(m.write_audio(t as int, a.pts as int, a.data@), feed)
            },
        },
{
    match feed[i] {
        Feed::Video(p) => {
            let pts = p.pts as int;
            if avcc_sample(p.data@).len() > 0 && m.origin is None {
                let started = MovieView { origin: Some(pts), ..m };
                let n = m.audio.len() as int;
                assert forall|t: int, k: int|
                    0 <= t < started.audio.len() && 0 <= k
                        < started.audio[t].prebuffer.len() implies gap_fits(
                    (#[trigger] started.audio[t].prebuffer[k]).0,
                    pts,
                ) by {
                    assert(reaches_video(feed, m.audio[t].prebuffer[k].0));
                    assert(feed[i] == feed[i]);
                }
                lemma_held_can_be_released(started, pts, n);
                lemma_release_holds(started, pts, n);
                assert(audio_reaches(feed, pts)) by {
                    assert forall|j: int| 0 <= j < feed.len() implies match #[trigger] feed[j] {
                        Feed::Video(_) => true,
                        Feed::Audio(_, a) => gap_fits(a.pts as int, pts),
                    } by {
                        assert(feed[i] == feed[i]);
                    }
                }
                let next = m.write_video(p.data@, pts, p.is_keyframe);
                assert(forall|t: int|
                    0 <= t < next.audio.len() ==> (#[trigger] next.audio[t]).prebuffer.len() == 0);
            } else {
                let next = m.write_video(p.data@, pts, p.is_keyframe);
                assert(next.audio == m.audio);
                assert(next.origin == m.origin);
            }
        },
        Feed::Audio(t, a) => {
            let pts = a.pts as int;
            let next = m.write_audio(t as int, pts, a.data@);
            if t < m.audio.len() {
                match m.origin {
                    Some(origin) => {
                        assert(audio_reaches(feed, origin));
                        lemma_place_holds(m, t as int, origin, pts, a.data@);
                        assert forall|u: int, k: int|
                            0 <= u < next.audio.len() && 0 <= k
                                < next.audio[u].prebuffer.len() implies reaches_video(
                            feed,
                            (#[trigger] next.audio[u].prebuffer[k]).0,
                        ) by {
                            assert(next.audio[u].prebuffer == m.audio[u].prebuffer);
                            assert(reaches_video(feed, m.audio[u].prebuffer[k].0));
                        }
                    },
                    None => {
                        assert(reaches_video(feed, pts)) by {
                            assert forall|j: int|
                                0 <= j < feed.len() implies match #[trigger] feed[j] {
                                Feed::Video(p) => gap_fits(pts, p.pts as int),
                                Feed::Audio(_, _) => true,
                            } by {
                                assert(feed[i] == feed[i]);
                            }
                        }
                        assert forall|u: int, k: int|
                            0 <= u < next.audio.len() && 0 <= k
                                < next.audio[u].prebuffer.len() implies reaches_video(
                            feed,
                            (#[trigger] next.audio[u].prebuffer[k]).0,
                        ) by {
                            if u != t || k < m.audio[u].prebuffer.len() {
                                assert(next.audio[u].prebuffer[k] == m.audio[u].prebuffer[k]);
                            }
                        }
                    },
                }
            }
        },
    }
}

/// Make the file of a clip. The sequence header is the video encoder's, in Annex-B form; its frame
/// size and frame rate are packed.
pub fn save_clip(
    window: &SaveWindow,
    sequence_header: &[u8],
    frame_size: u64,
    frame_rate: u64,
    audio_tracks: &[AudioTrackConfig],
) -> (r: Result<Vec<u8>, SaveError>)
    requires
        packed_rate(frame_rate as int) * 1000 <= u32::MAX,
        audio_tracks@.len() + FIRST_AUDIO_TRACK_ID <= u32::MAX,
        times_fit(ordered_feed(window.video@, window_tracks(window.audio@))),
        clip_movie(
            created_movie(
                sequence_header@,
                frame_size as int,
                frame_rate as int,
                audio_tracks@,
            ),
            ordered_feed(window.video@, window_tracks(window.audio@)),
        ).stream.len() <= MAX_STREAM_LEN,
    ensures
        r is Ok <==> header_fault(sequence_header@) is None,
        r matches Err(e) ==> e matches SaveError::Mux(why) && header_fault(sequence_header@)
            == Some(why.text()),
        r matches Ok(file) ==> file@ == movie_file(
            clip_movie(
                created_movie(
                    sequence_header@,
                    frame_size as int,
                    frame_rate as int,
                    audio_tracks@,
                ),
                ordered_feed(window.video@, window_tracks(window.audio@)),
            ),
            setup_view(
                header_record(sequence_header@),
                frame_size as int / 0x1_0000_0000,
                frame_size as int % 0x1_0000_0000,
                packed_rate(frame_rate as int) * 1000,
            ),
        ),
{
    let ghost movie = created_movie(
        sequence_header@,
        frame_size as int,
        frame_rate as int,
        audio_tracks@,
    );
    let feed: Vec<Feed<'_>> = merged_feed(window);
    let ghost order: Seq<Feed<'_>> = ordered_feed(window.video@, window_tracks(window.audio@));
    let ghost n = feed@.len() as int;
    proof {
        let items: Seq<Feed<'_>> = window_feed(window.video@, window_tracks(window.audio@));
        assert(stably_sorted(feed@, items));
        assert(stably_sorted(order, items));
        assert forall|key: (int, int)|
            #[trigger] feed@.filter(crate::save::feed::has_key(key)) == order.filter(
                crate::save::feed::has_key(key),
            ) by {
            assert(order.filter(crate::save::feed::has_key(key)) == items.filter(
                crate::save::feed::has_key(key),
            ));
        }
        lemma_order_is_unique(feed@, order);
        let last = fed(movie, order, n);
        lemma_flush_tracks_grows(last.flush_video(), 0, last.audio.len() as int);
        lemma_fed_grows(movie, order, 0, n);
    }
    let (mut mux, mut file): (Fmp4Writer, Vec<u8>) = match Fmp4Writer::create(
        sequence_header,
        frame_size,
        frame_rate,
        audio_tracks,
    ) {
        Ok(started) => started,
        Err(e) => {
            return Err(SaveError::Mux(e));
        },
    };
    let ghost setup = mux.setup();
    let mut i: usize = 0;
    while i < feed.len()
        invariant
            i <= feed@.len(),
            n == feed@.len(),
            times_fit(feed@),
            mux.wf(),
            mux.setup() == setup,
            mux@ == fed(movie, feed@, i as int),
            within_reach(mux@, feed@),
            file@ == mux@.stream,
            fed(movie, feed@, n).stream.len() <= MAX_STREAM_LEN,
        decreases feed@.len() - i,
    {
        proof {
            lemma_feed_step(mux@, feed@, i as int);
            lemma_fed_grows(movie, feed@, i + 1, n);
        }
        let bytes: Vec<u8> = match feed[i] {
            Feed::Video(p) => mux.write_video_packet(p),
            Feed::Audio(track, a) => mux.write_audio_packet(track, a),
        };
        append(&mut file, &bytes);
        i = i + 1;
    }
    let last: Finished = mux.finish();
    Ok(last.apply(file))
}

} // verus!
