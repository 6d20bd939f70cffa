//! What a movie shows and sounds: that no sample is lost, added or moved out of order.

use vstd::prelude::*;

use crate::constants::mux::AUDIO_SAMPLE_DELTA;
use crate::mux::fragment::SampleView;
use crate::mux::nal::avcc_sample;
use crate::mux::timeline::{
    gap_units, head_silence, lemma_gap_nonnegative, lemma_head_silence, sync_samples, MovieView,
    TrackView,
};

verus! {

/// The video samples of a movie, written or not.
pub open spec fn shown(m: MovieView) -> Seq<SampleView> {
    m.video_written + m.video_pending
}

/// The units of a track, written or not.
pub open spec fn heard(track: TrackView) -> Seq<Seq<u8>> {
    track.written.map_values(|s: SampleView| s.0) + track.pending
}

/// `n` times the same unit.
pub open spec fn repeated(unit: Seq<u8>, n: int) -> Seq<Seq<u8>> {
    Seq::new(n as nat, |i: int| unit)
}

/// Whether two movies show the same and sound the same, but for track `t`.
pub open spec fn same_content_but(a: MovieView, b: MovieView, t: int) -> bool {
    &&& shown(a) == shown(b)
    &&& a.audio.len() == b.audio.len()
    &&& forall|u: int|
        0 <= u < a.audio.len() && u != t ==> heard(#[trigger] a.audio[u]) == heard(b.audio[u])
}

/// Writing the video fragment changes neither what a movie shows nor what it sounds.
pub proof fn lemma_flush_video_content(m: MovieView)
    ensures
        shown(m.flush_video()) == shown(m),
        m.flush_video().audio == m.audio,
        m.flush_video().video_pending.len() == 0,
{
    assert(shown(m.flush_video()) =~= shown(m));
}

/// Writing a track's fragment changes neither what a movie shows nor what it sounds.
pub proof fn lemma_flush_audio_content(m: MovieView, t: int)
    requires
        0 <= t < m.audio.len(),
    ensures
        same_content_but(m.flush_audio(t), m, t),
        heard(m.flush_audio(t).audio[t]) == heard(m.audio[t]),
        m.flush_audio(t).audio[t].pending.len() == 0,
        m.flush_audio(t).audio[t].config == m.audio[t].config,
        m.flush_audio(t).video_pending == m.video_pending,
        forall|u: int|
            0 <= u < m.audio.len() && u != t ==> #[trigger] m.flush_audio(t).audio[u]
                == m.audio[u],
{
    let next = m.flush_audio(t);
    if m.audio[t].pending.len() > 0 {
        assert(sync_samples(m.audio[t].pending).map_values(|s: SampleView| s.0)
            =~= m.audio[t].pending);
        assert(heard(next.audio[t]) =~= heard(m.audio[t]));
    }
}

/// Law: a unit added to a track is heard after all others, and nothing else changes.
pub proof fn lemma_unit_is_heard(m: MovieView, t: int, unit: Seq<u8>)
    requires
        0 <= t < m.audio.len(),
    ensures
        same_content_but(m.push_unit(t, unit), m, t),
        heard(m.push_unit(t, unit).audio[t]) == heard(m.audio[t]).push(unit),
        m.push_unit(t, unit).audio[t].config == m.audio[t].config,
{
    let next = m.buffer_unit(t, unit);
    assert(heard(next.audio[t]) =~= heard(m.audio[t]).push(unit));
    lemma_flush_audio_content(next, t);
}

/// Silence is heard as often as it is added.
proof fn lemma_silence_is_heard(m: MovieView, t: int, n: int)
    requires
        0 <= t < m.audio.len(),
        0 <= n,
    ensures
        same_content_but(m.push_silence(t, n), m, t),
        heard(m.push_silence(t, n).audio[t]) == heard(m.audio[t]) + repeated(
            m.audio[t].config.silent_au,
            n,
        ),
        m.push_silence(t, n).audio[t].config == m.audio[t].config,
    decreases n,
{
    let silence = m.audio[t].config.silent_au;
    if n > 0 {
        lemma_silence_is_heard(m, t, n - 1);
        let before = m.push_silence(t, n - 1);
        lemma_unit_is_heard(before, t, silence);
        assert(repeated(silence, n) =~= repeated(silence, n - 1).push(silence));
        assert(heard(m.push_silence(t, n).audio[t]) =~= heard(m.audio[t]) + repeated(silence, n));
    } else {
        assert(heard(m.audio[t]) =~= heard(m.audio[t]) + repeated(silence, 0));
    }
}

/// What placing a unit adds to a track: the unit; before a track's first unit the silence that
/// fills the gap; and nothing where the track has not begun and the unit lies before the origin.
pub open spec fn added_units(track: TrackView, origin: int, pts: int, unit: Seq<u8>) -> Seq<
    Seq<u8>,
> {
    if track.initial_offset is Some {
        seq![unit]
    } else if pts < origin {
        Seq::empty()
    } else {
        repeated(
            track.config.silent_au,
            head_silence(gap_units(pts, origin), track.config.silent_au.len() > 0),
        ).push(unit)
    }
}

/// Law: placing a unit adds it to its track, behind the silence that a late track begins with, and
/// changes nothing else. Only what lies before the origin is dropped, and only before a track has
/// begun.
pub proof fn lemma_placed_unit_is_heard(
    m: MovieView,
    t: int,
    origin: int,
    pts: int,
    unit: Seq<u8>,
)
    requires
        0 <= t < m.audio.len(),
    ensures
        same_content_but(m.place_audio(t, origin, pts, unit), m, t),
        heard(m.place_audio(t, origin, pts, unit).audio[t]) == heard(m.audio[t]) + added_units(
            m.audio[t],
            origin,
            pts,
            unit,
        ),
{
    let track = m.audio[t];
    let next = m.place_audio(t, origin, pts, unit);
    let added = added_units(track, origin, pts, unit);
    if track.initial_offset is Some {
        lemma_unit_is_heard(m, t, unit);
        assert(heard(next.audio[t]) =~= heard(track) + added);
    } else if pts < origin {
        assert(heard(next.audio[t]) =~= heard(track) + added);
    } else {
        let gap = gap_units(pts, origin);
        let silence = head_silence(gap, track.config.silent_au.len() > 0);
        lemma_gap_nonnegative(pts, origin);
        lemma_head_silence(gap, track.config.silent_au.len() > 0);
        let started = m.with_offset(t, gap - silence * AUDIO_SAMPLE_DELTA);
        assert(heard(started.audio[t]) == heard(track));
        lemma_silence_is_heard(started, t, silence);
        lemma_unit_is_heard(started.push_silence(t, silence), t, unit);
        assert(heard(next.audio[t]) =~= heard(track) + added);
    }
}

/// Placing units shows nothing.
proof fn lemma_place_units_shows(
    m: MovieView,
    t: int,
    origin: int,
    units: Seq<(int, Seq<u8>)>,
    n: int,
)
    requires
        0 <= t < m.audio.len(),
    ensures
        shown(m.place_units(t, origin, units, n)) == shown(m),
        m.place_units(t, origin, units, n).audio.len() == m.audio.len(),
    decreases n,
{
    if n > 0 {
        lemma_place_units_shows(m, t, origin, units, n - 1);
        lemma_placed_unit_is_heard(
            m.place_units(t, origin, units, n - 1),
            t,
            origin,
            units[n - 1].0,
            units[n - 1].1,
        );
    }
}

/// Placing what was held back shows nothing.
proof fn lemma_release_shows(m: MovieView, origin: int, n: int)
    requires
        n <= m.audio.len(),
    ensures
        shown(m.release_held(origin, n)) == shown(m),
        m.release_held(origin, n).audio.len() == m.audio.len(),
    decreases n,
{
    if n > 0 {
        lemma_release_shows(m, origin, n - 1);
        let before = m.release_held(origin, n - 1);
        let held = before.audio[n - 1].prebuffer;
        let base = before.without_prebuffer(n - 1);
        assert(shown(base) == shown(before));
        lemma_place_units_shows(base, n - 1, origin, held, held.len() as int);
    }
}

/// Law: a video packet is shown after all others, as its length-prefixed sample; one without
/// pictures is not shown.
pub proof fn lemma_packet_is_shown(m: MovieView, data: Seq<u8>, pts: int, is_keyframe: bool)
    ensures
        shown(m.write_video(data, pts, is_keyframe)) == if avcc_sample(data).len() == 0 {
            shown(m)
        } else {
            shown(m).push((avcc_sample(data), is_keyframe))
        },
{
    let sample = (avcc_sample(data), is_keyframe);
    if sample.0.len() > 0 {
        let before = if m.origin is None {
            m.with_origin(pts)
        } else {
            m
        };
        if m.origin is None {
            let started = MovieView { origin: Some(pts), ..m };
            assert(shown(started) == shown(m));
            lemma_release_shows(started, pts, m.audio.len() as int);
        }
        let next = MovieView { video_pending: before.video_pending.push(sample), ..before };
        assert(shown(next) =~= shown(before).push(sample));
        lemma_flush_video_content(next);
    }
}

/// Law: an audio packet shows nothing.
pub proof fn lemma_audio_packet_shows_nothing(m: MovieView, t: int, pts: int, unit: Seq<u8>)
    requires
        0 <= t,
    ensures
        shown(m.write_audio(t, pts, unit)) == shown(m),
{
    if t < m.audio.len() {
        if let Some(origin) = m.origin {
            lemma_placed_unit_is_heard(m, t, origin, pts, unit);
        }
    }
}

/// Writing the fragments of the first tracks changes no content.
proof fn lemma_flush_tracks_content(m: MovieView, n: int)
    requires
        n <= m.audio.len(),
    ensures
        shown(m.flush_tracks(n)) == shown(m),
        m.flush_tracks(n).video_pending == m.video_pending,
        m.flush_tracks(n).audio.len() == m.audio.len(),
        forall|t: int|
            0 <= t < m.audio.len() ==> heard(#[trigger] m.flush_tracks(n).audio[t]) == heard(
                m.audio[t],
            ),
        forall|t: int|
            0 <= t < n ==> (#[trigger] m.flush_tracks(n).audio[t]).pending.len() == 0,
    decreases n,
{
    if n > 0 {
        lemma_flush_tracks_content(m, n - 1);
        let before = m.flush_tracks(n - 1);
        lemma_flush_audio_content(before, n - 1);
        assert forall|t: int| 0 <= t < m.audio.len() implies heard(
            #[trigger] m.flush_tracks(n).audio[t],
        ) == heard(m.audio[t]) by {
            if t != n - 1 {
                assert(before.flush_audio(n - 1).audio[t] == before.audio[t]);
            }
        }
        assert forall|t: int| 0 <= t < n implies (
        #[trigger] m.flush_tracks(n).audio[t]).pending.len() == 0 by {
            if t != n - 1 {
                assert(before.flush_audio(n - 1).audio[t] == before.audio[t]);
            }
        }
    }
}

/// Law: finishing a movie writes everything it shows and sounds, and nothing else.
pub proof fn lemma_finished_movie_is_complete(m: MovieView)
    ensures
        m.flush_all().video_written == shown(m),
        m.flush_all().audio.len() == m.audio.len(),
        forall|t: int|
            0 <= t < m.audio.len() ==> (#[trigger] m.flush_all().audio[t]).written.map_values(
                |s: SampleView| s.0,
            ) == heard(m.audio[t]),
{
    let n = m.audio.len() as int;
    let flushed = m.flush_video();
    let last = m.flush_all();
    lemma_flush_video_content(m);
    lemma_flush_tracks_content(flushed, n);
    assert(last.video_written =~= shown(last));
    assert forall|t: int| 0 <= t < n implies (
    #[trigger] last.audio[t]).written.map_values(|s: SampleView| s.0) == heard(m.audio[t]) by {
        assert(last.audio[t].pending.len() == 0);
        assert(last.audio[t].written.map_values(|s: SampleView| s.0) =~= heard(last.audio[t]));
    }
}

} // verus!
