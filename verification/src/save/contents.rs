//! What a saved clip holds: the pictures and the sound of the packets that were fed, and the tables
//! by which a player finds them.

use vstd::prelude::*;

use crate::constants::mux::AUDIO_SAMPLE_DELTA;
use crate::mux::boxes::{AudioTrackConfig, ConfigView};
use crate::mux::content::{
    added_units, heard, lemma_finished_movie_is_complete, lemma_flush_audio_content,
    lemma_placed_unit_is_heard, repeated, shown,
};
use crate::mux::fmp4::{
    created_movie, has_placeholder, header_record, new_tracks, packed_rate, setup_view,
};
use crate::mux::fragment::SampleView;
use crate::mux::movie::final_moov_bytes;
use crate::mux::nal::{avcc_sample, is_unit, joined_stream, FramedUnit};
use crate::mux::parameters::{
    is_first, lemma_header_gives_its_parameter_sets, lemma_packed_rate_unpacks, read_record,
    unit_bytes,
};
use crate::mux::playback::{
    has_units, lemma_finished_file_plays, movie_fits, plays_audio, plays_video, read_moov,
    tracks_in,
};
use crate::mux::timeline::{gap_units, head_silence, MovieView, TrackView};
use crate::save::clip::{clip_movie, fed, movie_file};
use crate::save::feed::Feed;
use crate::save::laws::{fed_samples, lemma_clip_shows_its_packets};

verus! {

/// The time of the first video packet with pictures among the first `n` packets of a feed.
pub open spec fn origin_of(feed: Seq<Feed>, n: int) -> Option<int>
    decreases n,
{
    if n <= 0 {
        None
    } else {
        match origin_of(feed, n - 1) {
            Some(origin) => Some(origin),
            None => match feed[n - 1] {
                Feed::Video(p) => if avcc_sample(p.data@).len() > 0 {
                    Some(p.pts as int)
                } else {
                    None
                },
                Feed::Audio(_, _) => None,
            },
        }
    }
}

/// The access units of track `t` among the first `n` packets of a feed, with their times.
pub open spec fn units_of(feed: Seq<Feed>, n: int, t: int) -> Seq<(int, Seq<u8>)>
    decreases n,
{
    if n <= 0 {
        Seq::empty()
    } else {
        let before = units_of(feed, n - 1, t);
        match feed[n - 1] {
            Feed::Video(_) => before,
            Feed::Audio(u, a) => if u == t {
                before.push((a.pts as int, a.data@))
            } else {
                before
            },
        }
    }
}

/// The first of some units at or after the origin, if there is one.
pub open spec fn first_from(units: Seq<(int, Seq<u8>)>, origin: int) -> Option<int>
    decreases units.len(),
{
    if units.len() == 0 {
        None
    } else {
        match first_from(units.drop_last(), origin) {
            Some(k) => Some(k),
            None => if units.last().0 >= origin {
                Some(units.len() - 1)
            } else {
                None
            },
        }
    }
}

/// How many units of silence stand before a track whose first unit is at `pts`.
pub open spec fn silence_before(config: ConfigView, pts: int, origin: int) -> int {
    head_silence(gap_units(pts, origin), config.silent_au.len() > 0)
}

/// What a track of some units sounds: from the first unit at or after the origin on, every unit,
/// behind as many units of silence as fit the gap before the first.
pub open spec fn sound_of(config: ConfigView, units: Seq<(int, Seq<u8>)>, origin: int) -> Seq<
    Seq<u8>,
> {
    match first_from(units, origin) {
        None => Seq::empty(),
        Some(k) => repeated(config.silent_au, silence_before(config, units[k].0, origin))
            + units.skip(k).map_values(|u: (int, Seq<u8>)| u.1),
    }
}

/// The place of the first unit.
proof fn lemma_first_from(units: Seq<(int, Seq<u8>)>, origin: int)
    ensures
        first_from(units, origin) matches Some(k) ==> 0 <= k < units.len() && units[k].0 >= origin
            && forall|j: int| 0 <= j < k ==> (#[trigger] units[j]).0 < origin,
        first_from(units, origin) is None ==> forall|j: int|
            0 <= j < units.len() ==> (#[trigger] units[j]).0 < origin,
    decreases units.len(),
{
    if units.len() > 0 {
        let before = units.drop_last();
        lemma_first_from(before, origin);
        let k = match first_from(units, origin) {
            Some(k) => k,
            None => units.len() as int,
        };
        assert forall|j: int| 0 <= j < k implies (#[trigger] units[j]).0 < origin by {
            if j < before.len() {
                assert(before[j] == units[j]);
            }
        }
    }
}

/// One unit more is sounded behind the others.
proof fn lemma_sound_grows(config: ConfigView, units: Seq<(int, Seq<u8>)>, origin: int, u: (
    int,
    Seq<u8>,
))
    ensures
        sound_of(config, units.push(u), origin) == if first_from(units, origin) is Some {
            sound_of(config, units, origin).push(u.1)
        } else if u.0 < origin {
            Seq::empty()
        } else {
            repeated(config.silent_au, silence_before(config, u.0, origin)).push(u.1)
        },
        first_from(units.push(u), origin) is Some <==> first_from(units, origin) is Some || u.0
            >= origin,
        first_from(units, origin) matches Some(k) ==> first_from(units.push(u), origin) == Some(k),
{
    let all = units.push(u);
    assert(all.drop_last() =~= units);
    lemma_first_from(units, origin);
    match first_from(units, origin) {
        Some(k) => {
            let silence = repeated(config.silent_au, silence_before(config, units[k].0, origin));
            let f = |u: (int, Seq<u8>)| u.1;
            assert(all.skip(k).map_values(f) =~= units.skip(k).map_values(f).push(u.1));
            assert(silence + units.skip(k).map_values(f).push(u.1) =~= (silence
                + units.skip(k).map_values(f)).push(u.1));
        },
        None => {
            if u.0 >= origin {
                let f = |u: (int, Seq<u8>)| u.1;
                let silence = repeated(config.silent_au, silence_before(config, u.0, origin));
                assert(all.skip(units.len() as int).map_values(f) =~= seq![u.1]);
                assert(silence + seq![u.1] =~= silence.push(u.1));
            }
        },
    }
}

/// Adding a unit leaves the other tracks, and of its own all but what it sounds.
proof fn lemma_push_leaves(m: MovieView, t: int, unit: Seq<u8>)
    requires
        0 <= t < m.audio.len(),
    ensures
        ({
            let next = m.push_unit(t, unit);
            &&& next.origin == m.origin
            &&& next.audio.len() == m.audio.len()
            &&& next.audio[t].config == m.audio[t].config
            &&& next.audio[t].prebuffer == m.audio[t].prebuffer
            &&& next.audio[t].initial_offset == m.audio[t].initial_offset
            &&& forall|u: int|
                0 <= u < m.audio.len() && u != t ==> #[trigger] next.audio[u] == m.audio[u]
        }),
{
}

/// Adding silence leaves the other tracks, and of its own all but what it sounds.
proof fn lemma_silence_leaves(m: MovieView, t: int, n: int)
    requires
        0 <= t < m.audio.len(),
    ensures
        ({
            let next = m.push_silence(t, n);
            &&& next.origin == m.origin
            &&& next.audio.len() == m.audio.len()
            &&& next.audio[t].config == m.audio[t].config
            &&& next.audio[t].prebuffer == m.audio[t].prebuffer
            &&& next.audio[t].initial_offset == m.audio[t].initial_offset
            &&& forall|u: int|
                0 <= u < m.audio.len() && u != t ==> #[trigger] next.audio[u] == m.audio[u]
        }),
    decreases n,
{
    if n > 0 {
        lemma_silence_leaves(m, t, n - 1);
        let before = m.push_silence(t, n - 1);
        lemma_push_leaves(before, t, before.audio[t].config.silent_au);
    }
}

/// Where a track begins: its first unit, behind the silence, lies at the unit of the audio timescale
/// nearest to its time.
pub open spec fn offset_of(config: ConfigView, pts: int, origin: int) -> int {
    gap_units(pts, origin) - silence_before(config, pts, origin) * 1_024
}

/// Placing a unit leaves the other tracks.
proof fn lemma_place_leaves(m: MovieView, t: int, origin: int, pts: int, unit: Seq<u8>)
    requires
        0 <= t < m.audio.len(),
    ensures
        ({
            let next = m.place_audio(t, origin, pts, unit);
            &&& next.origin == m.origin
            &&& next.audio.len() == m.audio.len()
            &&& next.audio[t].config == m.audio[t].config
            &&& next.audio[t].prebuffer == m.audio[t].prebuffer
            &&& next.audio[t].initial_offset == if m.audio[t].initial_offset is Some || pts
                < origin {
                m.audio[t].initial_offset
            } else {
                Some(offset_of(m.audio[t].config, pts, origin))
            }
            &&& forall|u: int|
                0 <= u < m.audio.len() && u != t ==> #[trigger] next.audio[u] == m.audio[u]
        }),
{
    let track = m.audio[t];
    if track.initial_offset is Some {
        lemma_push_leaves(m, t, unit);
    } else if pts >= origin {
        let gap = gap_units(pts, origin);
        let silence = head_silence(gap, track.config.silent_au.len() > 0);
        assert(AUDIO_SAMPLE_DELTA == 1_024);
        let started = m.with_offset(t, gap - silence * AUDIO_SAMPLE_DELTA);
        lemma_silence_leaves(started, t, silence);
        lemma_push_leaves(started.push_silence(t, silence), t, unit);
    }
}

/// What is known of a track that has taken in some units.
pub open spec fn track_so_far(
    track: TrackView,
    config: ConfigView,
    units: Seq<(int, Seq<u8>)>,
    origin: int,
) -> bool {
    &&& track.config == config
    &&& heard(track) == sound_of(config, units, origin)
    &&& track.initial_offset == match first_from(units, origin) {
        Some(k) => Some(offset_of(config, units[k].0, origin)),
        None => None,
    }
}

/// A unit that is placed is one unit more.
proof fn lemma_place_step(
    m: MovieView,
    t: int,
    origin: int,
    units: Seq<(int, Seq<u8>)>,
    u: (int, Seq<u8>),
    config: ConfigView,
)
    requires
        0 <= t < m.audio.len(),
        track_so_far(m.audio[t], config, units, origin),
    ensures
        track_so_far(
            m.place_audio(t, origin, u.0, u.1).audio[t],
            config,
            units.push(u),
            origin,
        ),
{
    let track = m.audio[t];
    lemma_place_leaves(m, t, origin, u.0, u.1);
    lemma_placed_unit_is_heard(m, t, origin, u.0, u.1);
    lemma_sound_grows(config, units, origin, u);
    lemma_first_from(units, origin);
    let all = units.push(u);
    assert(all.drop_last() =~= units);
    let added = added_units(track, origin, u.0, u.1);
    if first_from(units, origin) is Some {
        assert(heard(track) + seq![u.1] =~= heard(track).push(u.1));
    } else {
        assert(heard(track) =~= Seq::empty());
        if u.0 < origin {
            assert(heard(track) + added =~= Seq::empty());
        } else {
            assert(heard(track) + added =~= added);
        }
    }
}

/// Units that are placed are so many units more.
proof fn lemma_place_units_step(
    m: MovieView,
    t: int,
    origin: int,
    units: Seq<(int, Seq<u8>)>,
    n: int,
    config: ConfigView,
)
    requires
        0 <= t < m.audio.len(),
        0 <= n <= units.len(),
        track_so_far(m.audio[t], config, Seq::empty(), origin),
    ensures
        ({
            let next = m.place_units(t, origin, units, n);
            &&& next.origin == m.origin
            &&& next.audio.len() == m.audio.len()
            &&& track_so_far(next.audio[t], config, units.take(n), origin)
            &&& next.audio[t].prebuffer == m.audio[t].prebuffer
            &&& forall|u: int|
                0 <= u < m.audio.len() && u != t ==> #[trigger] next.audio[u] == m.audio[u]
        }),
    decreases n,
{
    if n > 0 {
        lemma_place_units_step(m, t, origin, units, n - 1, config);
        let before = m.place_units(t, origin, units, n - 1);
        lemma_place_step(before, t, origin, units.take(n - 1), units[n - 1], config);
        lemma_place_leaves(before, t, origin, units[n - 1].0, units[n - 1].1);
        assert(units.take(n - 1).push(units[n - 1]) =~= units.take(n));
    } else {
        assert(units.take(0) =~= Seq::empty());
    }
}

/// Whether a track waits for the origin, and holds back some units.
pub open spec fn waits(track: TrackView, config: ConfigView, units: Seq<(int, Seq<u8>)>) -> bool {
    &&& track.config == config
    &&& track.prebuffer == units
    &&& heard(track).len() == 0
    &&& track.initial_offset is None
}

/// Tracks that waited have taken in what they held back.
proof fn lemma_release_step(
    m: MovieView,
    origin: int,
    n: int,
    configs: Seq<ConfigView>,
    held: Seq<Seq<(int, Seq<u8>)>>,
)
    requires
        0 <= n <= m.audio.len(),
        configs.len() == m.audio.len(),
        held.len() == m.audio.len(),
        forall|t: int|
            0 <= t < m.audio.len() ==> waits(#[trigger] m.audio[t], configs[t], held[t]),
    ensures
        ({
            let next = m.release_held(origin, n);
            &&& next.origin == m.origin
            &&& next.audio.len() == m.audio.len()
            &&& forall|t: int|
                0 <= t < n ==> track_so_far(
                    #[trigger] next.audio[t],
                    configs[t],
                    held[t],
                    origin,
                )
            &&& forall|t: int| n <= t < m.audio.len() ==> #[trigger] next.audio[t] == m.audio[t]
        }),
    decreases n,
{
    if n > 0 {
        lemma_release_step(m, origin, n - 1, configs, held);
        let before = m.release_held(origin, n - 1);
        let t = n - 1;
        assert(before.audio[t] == m.audio[t]);
        assert(waits(m.audio[t], configs[t], held[t]));
        let base = before.without_prebuffer(t);
        assert(heard(base.audio[t]) == heard(m.audio[t]));
        assert(heard(base.audio[t]) =~= Seq::empty());
        assert(track_so_far(base.audio[t], configs[t], Seq::empty(), origin));
        lemma_place_units_step(base, t, origin, held[t], held[t].len() as int, configs[t]);
        assert(held[t].take(held[t].len() as int) =~= held[t]);
        let next = m.release_held(origin, n);
        assert forall|u: int| 0 <= u < n implies track_so_far(
            #[trigger] next.audio[u],
            configs[u],
            held[u],
            origin,
        ) by {
            if u < t {
                assert(next.audio[u] == base.audio[u]);
                assert(base.audio[u] == before.audio[u]);
            }
        }
        assert forall|u: int| n <= u < m.audio.len() implies #[trigger] next.audio[u]
            == m.audio[u] by {
            assert(next.audio[u] == base.audio[u]);
        }
    }
}

/// A video sample leaves the tracks.
proof fn lemma_sample_leaves(m: MovieView, sample: SampleView)
    ensures
        m.push_sample(sample).audio == m.audio,
        m.push_sample(sample).origin == m.origin,
{
}

/// What is known of a movie that was fed some packets.
spec fn fed_so_far(m: MovieView, feed: Seq<Feed>, n: int, configs: Seq<ConfigView>) -> bool {
    &&& m.audio.len() == configs.len()
    &&& m.origin == origin_of(feed, n)
    &&& forall|t: int|
        0 <= t < configs.len() ==> match origin_of(feed, n) {
            None => waits(#[trigger] m.audio[t], configs[t], units_of(feed, n, t)),
            Some(origin) => track_so_far(m.audio[t], configs[t], units_of(feed, n, t), origin),
        }
}

/// A movie before its first packet.
pub open spec fn is_new(movie: MovieView, configs: Seq<ConfigView>) -> bool {
    &&& movie.origin is None
    &&& shown(movie).len() == 0
    &&& movie.audio.len() == configs.len()
    &&& forall|t: int|
        0 <= t < configs.len() ==> waits(#[trigger] movie.audio[t], configs[t], Seq::empty())
}

/// Feeding keeps what is known.
proof fn lemma_fed_so_far(movie: MovieView, feed: Seq<Feed>, n: int, configs: Seq<ConfigView>)
    requires
        0 <= n <= feed.len(),
        is_new(movie, configs),
    ensures
        fed_so_far(fed(movie, feed, n), feed, n, configs),
    decreases n,
{
    if n > 0 {
        lemma_fed_so_far(movie, feed, n - 1, configs);
        let m = fed(movie, feed, n - 1);
        let next = fed(movie, feed, n);
        match feed[n - 1] {
            Feed::Video(p) => {
                let sample = (avcc_sample(p.data@), p.is_keyframe);
                let pts = p.pts as int;
                assert forall|t: int| 0 <= t < configs.len() implies units_of(feed, n, t)
                    == #[trigger] units_of(feed, n - 1, t) by {}
                if sample.0.len() > 0 {
                    if m.origin is None {
                        let started = MovieView { origin: Some(pts), ..m };
                        let held = Seq::new(
                            configs.len(),
                            |t: int| units_of(feed, n - 1, t),
                        );
                        assert forall|t: int| 0 <= t < m.audio.len() implies waits(
                            #[trigger] started.audio[t],
                            configs[t],
                            held[t],
                        ) by {
                            assert(waits(m.audio[t], configs[t], units_of(feed, n - 1, t)));
                        }
                        let count = m.audio.len() as int;
                        lemma_release_step(started, pts, count, configs, held);
                        let released = started.release_held(pts, count);
                        lemma_sample_leaves(released, sample);
                        assert forall|t: int| 0 <= t < configs.len() implies track_so_far(
                            #[trigger] next.audio[t],
                            configs[t],
                            units_of(feed, n, t),
                            pts,
                        ) by {
                            assert(track_so_far(released.audio[t], configs[t], held[t], pts));
                        }
                    } else {
                        lemma_sample_leaves(m, sample);
                        assert forall|t: int| 0 <= t < configs.len() implies track_so_far(
                            #[trigger] next.audio[t],
                            configs[t],
                            units_of(feed, n, t),
                            m.origin->0,
                        ) by {
                            assert(next.audio[t] == m.audio[t]);
                        }
                    }
                } else {
                    assert(next == m);
                    assert(origin_of(feed, n) == origin_of(feed, n - 1));
                }
            },
            Feed::Audio(t, a) => {
                let t = t as int;
                let pts = a.pts as int;
                assert(origin_of(feed, n) == origin_of(feed, n - 1));
                if t < m.audio.len() {
                    match m.origin {
                        None => {
                            assert forall|u: int| 0 <= u < configs.len() implies waits(
                                #[trigger] next.audio[u],
                                configs[u],
                                units_of(feed, n, u),
                            ) by {
                                assert(waits(m.audio[u], configs[u], units_of(feed, n - 1, u)));
                                assert(heard(next.audio[u]) == heard(m.audio[u]));
                            }
                        },
                        Some(origin) => {
                            assert(track_so_far(
                                m.audio[t],
                                configs[t],
                                units_of(feed, n - 1, t),
                                origin,
                            ));
                            lemma_place_step(
                                m,
                                t,
                                origin,
                                units_of(feed, n - 1, t),
                                (pts, a.data@),
                                configs[t],
                            );
                            lemma_place_leaves(m, t, origin, pts, a.data@);
                            assert forall|u: int| 0 <= u < configs.len() implies track_so_far(
                                #[trigger] next.audio[u],
                                configs[u],
                                units_of(feed, n, u),
                                origin,
                            ) by {
                                if u != t {
                                    assert(next.audio[u] == m.audio[u]);
                                    assert(units_of(feed, n, u) == units_of(feed, n - 1, u));
                                }
                            }
                        },
                    }
                } else {
                    assert forall|u: int| 0 <= u < configs.len() implies units_of(feed, n, u)
                        == #[trigger] units_of(feed, n - 1, u) by {}
                    assert forall|u: int| 0 <= u < configs.len() implies match origin_of(feed, n) {
                        None => waits(#[trigger] next.audio[u], configs[u], units_of(feed, n, u)),
                        Some(origin) => track_so_far(
                            next.audio[u],
                            configs[u],
                            units_of(feed, n, u),
                            origin,
                        ),
                    } by {
                        assert(next.audio[u] == m.audio[u]);
                        assert(units_of(feed, n, u) == units_of(feed, n - 1, u));
                    }
                }
            },
        }
    } else {
        assert forall|t: int| 0 <= t < configs.len() implies waits(
            #[trigger] movie.audio[t],
            configs[t],
            units_of(feed, 0, t),
        ) by {
            assert(units_of(feed, 0, t) =~= Seq::empty());
        }
    }
}

/// Flushing leaves where tracks begin.
proof fn lemma_flush_leaves(m: MovieView, n: int)
    requires
        n <= m.audio.len(),
    ensures
        m.flush_tracks(n).audio.len() == m.audio.len(),
        forall|t: int|
            0 <= t < m.audio.len() ==> (#[trigger] m.flush_tracks(n).audio[t]).initial_offset
                == m.audio[t].initial_offset && m.flush_tracks(n).audio[t].config
                == m.audio[t].config,
    decreases n,
{
    if n > 0 {
        lemma_flush_leaves(m, n - 1);
        let before = m.flush_tracks(n - 1);
        lemma_flush_audio_content(before, n - 1);
        assert forall|t: int| 0 <= t < m.audio.len() implies (
        #[trigger] m.flush_tracks(n).audio[t]).initial_offset == m.audio[t].initial_offset
            && m.flush_tracks(n).audio[t].config == m.audio[t].config by {
            assert(before.audio[t].initial_offset == m.audio[t].initial_offset);
        }
    }
}

/// Law: what a clip sounds. Once a video packet with pictures has come, whose time is the clip's
/// zero, each track sounds every one of its packets from the first at or after that time on, in the
/// order in which they came, whether they came before the video packet or behind it; before them
/// stands silence, as much as fits the gap; and the first packet lies where its time says. A clip
/// without pictures sounds nothing.
pub proof fn lemma_clip_sounds_its_packets(
    movie: MovieView,
    feed: Seq<Feed>,
    configs: Seq<ConfigView>,
    t: int,
)
    requires
        is_new(movie, configs),
        0 <= t < configs.len(),
    ensures
        ({
            let track = clip_movie(movie, feed).audio[t];
            let sounded = track.written.map_values(|s: SampleView| s.0);
            let units = units_of(feed, feed.len() as int, t);
            &&& track.config == configs[t]
            &&& match origin_of(feed, feed.len() as int) {
                None => sounded.len() == 0,
                Some(origin) => sounded == sound_of(configs[t], units, origin)
                    && track.initial_offset == match first_from(units, origin) {
                    Some(k) => Some(offset_of(configs[t], units[k].0, origin)),
                    None => None,
                },
            }
        }),
{
    let n = feed.len() as int;
    lemma_fed_so_far(movie, feed, n, configs);
    let m = fed(movie, feed, n);
    lemma_finished_movie_is_complete(m);
    let flushed = m.flush_video();
    lemma_flush_leaves(flushed, m.audio.len() as int);
    let last = m.flush_all();
    assert(last.audio[t].written.map_values(|s: SampleView| s.0) == heard(m.audio[t]));
    assert(last.audio[t].initial_offset == flushed.audio[t].initial_offset);
}

/// The configurations of some tracks.
pub open spec fn config_views(configs: Seq<AudioTrackConfig>) -> Seq<ConfigView> {
    configs.map_values(|c: AudioTrackConfig| c@)
}

/// Law: a movie that was just started has shown and sounded nothing, and has a track for each
/// configuration.
pub proof fn lemma_created_is_new(
    header: Seq<u8>,
    frame_size: int,
    frame_rate: int,
    configs: Seq<AudioTrackConfig>,
)
    ensures
        is_new(created_movie(header, frame_size, frame_rate, configs), config_views(configs)),
{
    let movie = created_movie(header, frame_size, frame_rate, configs);
    let views = config_views(configs);
    assert forall|t: int| 0 <= t < views.len() implies waits(
        #[trigger] movie.audio[t],
        views[t],
        Seq::empty(),
    ) by {
        assert(movie.audio[t] == new_tracks(configs)[t]);
    }
}

/// Law: a saved clip plays. Made with a sequence header that holds parameter sets, for pictures of
/// `w` by `h` pixels at `fps` frames a second, the clip's file has a movie box whose first track is
/// the video: a player reads its size, the encoder's first sequence and picture parameter set, that
/// each sample lasts one frame, and as many samples as packets with pictures were fed. Behind it
/// stand the audio tracks that sound anything, each with its own configuration.
pub proof fn lemma_saved_clip_plays(
    units: Seq<FramedUnit>,
    s: int,
    p: int,
    w: int,
    h: int,
    fps: int,
    configs: Seq<AudioTrackConfig>,
    feed: Seq<Feed>,
) -> (record: Seq<u8>)
    requires
        forall|i: int| 0 <= i < units.len() ==> is_unit((#[trigger] units[i]).bytes),
        is_first(unit_bytes(units), 7, s),
        is_first(unit_bytes(units), 8, p),
        4 <= units[s].bytes.len() <= u16::MAX,
        units[p].bytes.len() <= u16::MAX,
        0 <= w,
        0 <= h,
        1 <= fps,
        ({
            let header = joined_stream(units);
            let size = w * 0x1_0000_0000 + h;
            let rate = fps * 0x1_0000_0000 + 1;
            let m = clip_movie(created_movie(header, size, rate, configs), feed);
            &&& m.ok()
            &&& has_placeholder(m.head)
            &&& movie_fits(m, w, h, fps * 1_000)
            &&& final_moov_bytes(
                header_record(header),
                w,
                h,
                fps * 1_000,
                m.video_index,
                m.audio,
            ).len() <= u32::MAX
        }),
        fed_samples(feed, feed.len() as int).len() > 0,
    ensures
        ({
            let header = joined_stream(units);
            let size = w * 0x1_0000_0000 + h;
            let rate = fps * 0x1_0000_0000 + 1;
            let m = clip_movie(created_movie(header, size, rate, configs), feed);
            let file = movie_file(
                m,
                setup_view(
                    header_record(header),
                    size / 0x1_0000_0000,
                    size % 0x1_0000_0000,
                    packed_rate(rate) * 1000,
                ),
            );
            let sounding = m.audio.filter(|t: TrackView| has_units(t));
            &&& read_record(record) == Some((units[s].bytes, units[p].bytes))
            &&& m.video_index.sizes.len() == fed_samples(feed, feed.len() as int).len()
            &&& m.video_written == fed_samples(feed, feed.len() as int)
            &&& read_moov(file) matches Some(moov) && tracks_in(moov).len() == 1 + sounding.len()
                && plays_video(tracks_in(moov)[0], record, w, h, fps * 1_000, m.video_index)
                && forall|k: int|
                0 <= k < sounding.len() ==> plays_audio(
                    #[trigger] tracks_in(moov)[1 + k],
                    sounding[k].track_id,
                    sounding[k].config,
                    sounding[k].initial_offset.unwrap_or(0),
                    sounding[k].index,
                )
        }),
{
    let header = joined_stream(units);
    let size = w * 0x1_0000_0000 + h;
    let rate = fps * 0x1_0000_0000 + 1;
    let movie = created_movie(header, size, rate, configs);
    let m = clip_movie(movie, feed);
    let record = header_record(header);
    assert(size / 0x1_0000_0000 == w && size % 0x1_0000_0000 == h);
    assert(rate / 0x1_0000_0000 == fps && rate % 0x1_0000_0000 == 1);
    lemma_packed_rate_unpacks(fps, 1);
    lemma_header_gives_its_parameter_sets(units, s, p);
    lemma_clip_shows_its_packets(movie, feed);
    lemma_finished_file_plays(m, record, w, h, fps * 1_000);
    record
}

} // verus!
