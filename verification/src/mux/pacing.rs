//! When sound and pictures go out, what stands before late sound, and how long a movie lasts.

use vstd::prelude::*;

use crate::mux::boxes::VIDEO_TRACK_ID;
use crate::mux::fmp4::lemma_gap_is_nearest;
use crate::mux::fragment::SampleView;
use crate::mux::movie::{final_duration, last_track_id, survives, track_end, track_offset};
use crate::mux::tables::{lemma_movie_time_is_nearest, movie_time};
use crate::mux::timeline::{gap_units, head_silence, lemma_gap_nonnegative, MovieView, TrackView};
use crate::mux::track::{is_nearest_ms, time_fits};

verus! {

/// Law: late sound begins with silence, as many units of 1024 samples as fit before its first, 94 at the
/// most; without a unit of silence there is none. The gap is the time from the first picture on, in
/// samples at 48 kHz, to the nearest.
pub proof fn lemma_late_sound_begins_with_silence(pts: int, origin: int, have_template: bool)
    ensures
        ({
            let gap = gap_units(pts, origin);
            let silence = head_silence(gap, have_template);
            &&& pts <= origin ==> gap == 0
            &&& pts >= origin ==> -10_000_000 <= 2 * (gap * 10_000_000 - (pts - origin) * 48_000)
                <= 10_000_000
            &&& !have_template ==> silence == 0
            &&& have_template && gap >= 94 * 1_024 ==> silence == 94
            &&& have_template && gap < 94 * 1_024 ==> 0 <= gap - silence * 1_024 < 1_024
        }),
{
    lemma_gap_nonnegative(pts, origin);
    if pts >= origin {
        lemma_gap_is_nearest(pts, origin);
    }
}

/// Law: sound goes out in fragments of 47 units: with the 47th unit that a track holds, a fragment with
/// these units is written and the track holds none; until then nothing is written.
pub proof fn lemma_sound_goes_out_in_fragments(m: MovieView, t: int, unit: Seq<u8>)
    requires
        0 <= t < m.audio.len(),
        m.audio[t].pending.len() < 47,
    ensures
        ({
            let next = m.push_unit(t, unit);
            let held = m.audio[t].pending.push(unit);
            &&& held.len() < 47 ==> next.audio[t].pending == held && next.fragments == m.fragments
                && next.stream == m.stream
            &&& held.len() == 47 ==> next.audio[t].pending.len() == 0 && next.fragments.len()
                == m.fragments.len() + 1 && next.fragments.drop_last() == m.fragments
            &&& held.len() == 47 ==> {
                let fragment = next.fragments.last();
                &&& fragment.samples.map_values(|s: SampleView| s.0) == held
                &&& fragment.track_id == m.audio[t].track_id
                &&& fragment.delta == 1_024
                &&& forall|i: int|
                    0 <= i < fragment.samples.len() ==> (#[trigger] fragment.samples[i]).1
            }
            &&& next.origin == m.origin
            &&& next.video_pending == m.video_pending
            &&& forall|u: int| 0 <= u < m.audio.len() && u != t ==> next.audio[u] == m.audio[u]
        }),
{
    let next = m.push_unit(t, unit);
    let held = m.audio[t].pending.push(unit);
    if held.len() == 47 {
        let fragment = next.fragments.last();
        assert(fragment.samples.map_values(|s: SampleView| s.0) =~= held);
        assert(next.fragments.drop_last() =~= m.fragments);
    }
}

/// Law: pictures go out a second at a time: with the last frame of a second that is held, a fragment with
/// these frames is written and none is held; until then nothing is written.
pub proof fn lemma_pictures_go_out_by_the_second(m: MovieView, sample: SampleView)
    requires
        m.video_pending.len() < m.frames,
    ensures
        ({
            let next = m.push_sample(sample);
            let held = m.video_pending.push(sample);
            &&& held.len() < m.frames ==> next.video_pending == held && next.fragments
                == m.fragments && next.stream == m.stream
            &&& held.len() == m.frames ==> next.video_pending.len() == 0 && next.fragments.len()
                == m.fragments.len() + 1 && next.fragments.drop_last() == m.fragments
            &&& held.len() == m.frames ==> {
                let fragment = next.fragments.last();
                &&& fragment.samples == held
                &&& fragment.track_id == 1
                &&& fragment.delta == 1_000
                &&& fragment.base_decode_time == m.video_written.len() * 1_000
            }
            &&& next.origin == m.origin
            &&& next.audio == m.audio
        }),
{
    let next = m.push_sample(sample);
    let held = m.video_pending.push(sample);
    if held.len() == m.frames {
        assert(next.fragments.drop_last() =~= m.fragments);
    }
}

/// Law: a movie lasts as long as the longest of its tracks: no track that sounds anything lasts longer,
/// nor does the picture, and one of them lasts as long.
pub proof fn lemma_movie_lasts_as_long_as_its_tracks(video: int, audio: Seq<TrackView>, n: int)
    requires
        0 <= n <= audio.len(),
    ensures
        final_duration(video, audio, n) >= video,
        forall|t: int|
            0 <= t < n && (#[trigger] audio[t]).index.sizes.len() > 0 ==> final_duration(
                video,
                audio,
                n,
            ) >= track_end(audio[t]),
        final_duration(video, audio, n) == video || exists|t: int|
            0 <= t < n && (#[trigger] audio[t]).index.sizes.len() > 0 && track_end(audio[t])
                == final_duration(video, audio, n),
    decreases n,
{
    if n > 0 {
        lemma_movie_lasts_as_long_as_its_tracks(video, audio, n - 1);
        let t = audio[n - 1];
        assert(survives(t) <==> t.index.sizes.len() > 0);
    }
}

/// Law: a track ends where its delay and its access units do, 1024 samples each, both to the nearest
/// millisecond.
pub proof fn lemma_track_ends_after_its_units(t: TrackView) -> (r: (int, int))
    requires
        1 <= t.config.sample_rate,
        time_fits(track_offset(t), t.config.sample_rate),
        time_fits(t.index.sizes.len() * 1_024int, t.config.sample_rate),
    ensures
        is_nearest_ms(r.0, track_offset(t), t.config.sample_rate),
        is_nearest_ms(r.1, t.index.sizes.len() * 1_024int, t.config.sample_rate),
        track_end(t) == (r.0 + r.1) % 0x1_0000_0000,
{
    lemma_movie_time_is_nearest(track_offset(t), t.config.sample_rate);
    lemma_movie_time_is_nearest(t.index.sizes.len() * 1_024int, t.config.sample_rate);
    (
        movie_time(track_offset(t), t.config.sample_rate),
        movie_time(t.index.sizes.len() * 1_024int, t.config.sample_rate),
    )
}

/// Law: the next free id is above that of every track that goes into the movie.
pub proof fn lemma_next_id_is_free(audio: Seq<TrackView>, n: int)
    requires
        0 <= n <= audio.len(),
    ensures
        last_track_id(audio, n) >= 1,
        forall|t: int|
            0 <= t < n && (#[trigger] audio[t]).index.sizes.len() > 0 ==> audio[t].track_id
                <= last_track_id(audio, n),
        last_track_id(audio, n) == 1 || exists|t: int|
            0 <= t < n && (#[trigger] audio[t]).index.sizes.len() > 0 && audio[t].track_id
                == last_track_id(audio, n),
    decreases n,
{
    if n > 0 {
        lemma_next_id_is_free(audio, n - 1);
        let t = audio[n - 1];
        assert(survives(t) <==> t.index.sizes.len() > 0);
    } else {
        assert(VIDEO_TRACK_ID == 1);
    }
}

} // verus!
