//! The state of a movie that is being written, and what each packet makes of it.

use vstd::prelude::*;

use crate::constants::mux::{AUDIO_SAMPLE_DELTA, AUDIO_TIMESCALE, VIDEO_SAMPLE_DELTA};
use crate::constants::units::TICKS_PER_SECOND;
use crate::mux::boxes::{joined, lemma_box_len, ConfigView, VIDEO_TRACK_ID};
use crate::mux::fourcc;
use crate::mux::fragment::{mdat_bytes, moof_bytes, moof_len, payloads, SampleView};
use crate::mux::nal::avcc_sample;
use crate::mux::tables::IndexView;

verus! {

/// Access units in a fragment: about one second.
pub const AUDIO_FRAGMENT_AUS: usize = 47;

/// The most access units of silence put before a track that starts late: about two seconds.
pub const MAX_HEAD_SILENCE_AUS: u64 = 94;

/// The longest stream for which the durations in the movie's tables fit in 64 bits.
pub const MAX_STREAM_LEN: u64 = 0x8000_0000_0000;

/// The distance from `origin` to `pts` in units of the audio timescale, to the nearest one (up from
/// a half), and zero if `pts` is earlier.
pub open spec fn gap_units(pts: int, origin: int) -> int {
    if pts <= origin {
        0
    } else {
        (2 * (pts - origin) * AUDIO_TIMESCALE + TICKS_PER_SECOND) / (2 * TICKS_PER_SECOND as int)
    }
}

/// The number of silent units before a track's first unit: as many as fit in the gap, up to the
/// cap, and none without a template.
pub open spec fn head_silence(gap: int, have_template: bool) -> int {
    if !have_template {
        0
    } else if gap / AUDIO_SAMPLE_DELTA as int <= MAX_HEAD_SILENCE_AUS {
        gap / AUDIO_SAMPLE_DELTA as int
    } else {
        MAX_HEAD_SILENCE_AUS as int
    }
}

/// Whether the distance between two times, and the delay it makes in the movie, can be computed.
pub open spec fn gap_fits(pts: int, origin: int) -> bool {
    pts - origin <= i64::MAX && gap_units(pts, origin) <= 0x40_0000_0000_0000
}

/// One written fragment.
#[verifier::ext_equal]
pub struct FragmentView {
    pub sequence: int,
    pub track_id: int,
    pub base_decode_time: int,
    pub delta: int,
    pub samples: Seq<SampleView>,
}

impl FragmentView {
    /// The fragment's bytes.
    #[verifier::opaque]
    pub open spec fn bytes(self) -> Seq<u8> {
        moof_bytes(
            self.sequence,
            self.track_id,
            self.base_decode_time,
            self.delta,
            self.samples,
        ) + mdat_bytes(self.samples)
    }
}

/// One audio track of a movie that is being written.
#[verifier::ext_equal]
pub struct TrackView {
    pub track_id: int,
    pub config: ConfigView,
    /// Where the track's first unit lies after the origin, once it has one.
    pub initial_offset: Option<int>,
    /// Units that came before the origin was known, with their times.
    pub prebuffer: Seq<(int, Seq<u8>)>,
    /// Units of the current fragment.
    pub pending: Seq<Seq<u8>>,
    /// Units already written.
    pub written: Seq<SampleView>,
    pub index: IndexView,
}

/// A movie that is being written.
#[verifier::ext_equal]
pub struct MovieView {
    /// The number of samples in a video fragment: one second's.
    pub frames: int,
    /// The first video packet's time.
    pub origin: Option<int>,
    /// Video samples of the current fragment.
    pub video_pending: Seq<SampleView>,
    /// Video samples already written.
    pub video_written: Seq<SampleView>,
    pub video_index: IndexView,
    pub audio: Seq<TrackView>,
    /// The last fragment's number.
    pub sequence: int,
    /// The file-type box, the placeholder and the movie box.
    pub head: Seq<u8>,
    /// The fragments written so far.
    pub fragments: Seq<FragmentView>,
    /// Everything written so far.
    pub stream: Seq<u8>,
}

/// Access units as samples: decoding can start at each.
pub open spec fn sync_samples(units: Seq<Seq<u8>>) -> Seq<SampleView> {
    units.map_values(|u: Seq<u8>| (u, true))
}

/// The fragments' bytes, one by one.
pub open spec fn fragment_bytes(fragments: Seq<FragmentView>) -> Seq<Seq<u8>> {
    fragments.map_values(|f: FragmentView| f.bytes())
}

impl MovieView {
    /// The number of the next fragment.
    pub open spec fn next_sequence(self) -> int {
        (self.sequence + 1) % 0x1_0000_0000
    }

    /// The position of the first sample's bytes in the next fragment, if it has `n` samples.
    pub open spec fn next_payload(self, n: int) -> int {
        self.stream.len() + moof_len(n) + 8
    }

    /// Write the current video samples as a fragment.
    pub open spec fn flush_video(self) -> MovieView {
        if self.video_pending.len() == 0 {
            self
        } else {
            let fragment = FragmentView {
                sequence: self.next_sequence(),
                track_id: VIDEO_TRACK_ID as int,
                base_decode_time: self.video_written.len() * VIDEO_SAMPLE_DELTA,
                delta: VIDEO_SAMPLE_DELTA as int,
                samples: self.video_pending,
            };
            MovieView {
                video_pending: Seq::empty(),
                video_written: self.video_written + self.video_pending,
                video_index: self.video_index.with_chunk(
                    self.next_payload(self.video_pending.len() as int),
                    self.video_pending,
                ),
                sequence: self.next_sequence(),
                fragments: self.fragments.push(fragment),
                stream: self.stream + fragment.bytes(),
                ..self
            }
        }
    }

    /// Write the current units of track `t` as a fragment.
    pub open spec fn flush_audio(self, t: int) -> MovieView {
        let track = self.audio[t];
        if track.pending.len() == 0 {
            self
        } else {
            let samples = sync_samples(track.pending);
            let fragment = FragmentView {
                sequence: self.next_sequence(),
                track_id: track.track_id,
                base_decode_time: track.initial_offset.unwrap_or(0) + track.written.len()
                    * AUDIO_SAMPLE_DELTA,
                delta: AUDIO_SAMPLE_DELTA as int,
                samples,
            };
            MovieView {
                audio: self.audio.update(
                    t,
                    TrackView {
                        pending: Seq::empty(),
                        written: track.written + samples,
                        index: track.index.with_chunk(
                            self.next_payload(samples.len() as int),
                            samples,
                        ),
                        ..track
                    },
                ),
                sequence: self.next_sequence(),
                fragments: self.fragments.push(fragment),
                stream: self.stream + fragment.bytes(),
                ..self
            }
        }
    }

    /// Add a unit to the current fragment of track `t`.
    pub open spec fn buffer_unit(self, t: int, unit: Seq<u8>) -> MovieView {
        MovieView {
            audio: self.audio.update(
                t,
                TrackView { pending: self.audio[t].pending.push(unit), ..self.audio[t] },
            ),
            ..self
        }
    }

    /// Add a unit to track `t`, and write the fragment once it is complete.
    pub open spec fn push_unit(self, t: int, unit: Seq<u8>) -> MovieView {
        let next = self.buffer_unit(t, unit);
        if next.audio[t].pending.len() >= AUDIO_FRAGMENT_AUS {
            next.flush_audio(t)
        } else {
            next
        }
    }

    /// Add `n` units of silence to track `t`.
    pub open spec fn push_silence(self, t: int, n: int) -> MovieView
        decreases n,
    {
        if n <= 0 {
            self
        } else {
            let before = self.push_silence(t, n - 1);
            before.push_unit(t, before.audio[t].config.silent_au)
        }
    }

    /// Set where the first unit of track `t` lies.
    pub open spec fn with_offset(self, t: int, offset: int) -> MovieView {
        MovieView {
            audio: self.audio.update(
                t,
                TrackView { initial_offset: Some(offset), ..self.audio[t] },
            ),
            ..self
        }
    }

    /// Whether a unit at `pts` would be the first of track `t`.
    pub open spec fn starts_track(self, t: int, origin: int, pts: int) -> bool {
        self.audio[t].initial_offset is None && pts >= origin
    }

    /// Place a unit of track `t`. A track's first unit fixes the track's offset, with silence
    /// before it where the track starts late; a unit before the origin, and before any other, is
    /// dropped.
    pub open spec fn place_audio(self, t: int, origin: int, pts: int, unit: Seq<u8>) -> MovieView {
        let track = self.audio[t];
        if track.initial_offset is Some {
            self.push_unit(t, unit)
        } else if pts < origin {
            self
        } else {
            let gap = gap_units(pts, origin);
            let silence = head_silence(gap, track.config.silent_au.len() > 0);
            self.with_offset(t, gap - silence * AUDIO_SAMPLE_DELTA).push_silence(
                t,
                silence,
            ).push_unit(t, unit)
        }
    }

    /// Place the first `n` of some units of track `t`.
    pub open spec fn place_units(
        self,
        t: int,
        origin: int,
        units: Seq<(int, Seq<u8>)>,
        n: int,
    ) -> MovieView
        decreases n,
    {
        if n <= 0 {
            self
        } else {
            self.place_units(t, origin, units, n - 1).place_audio(
                t,
                origin,
                units[n - 1].0,
                units[n - 1].1,
            )
        }
    }

    /// Empty the prebuffer of track `t`.
    pub open spec fn without_prebuffer(self, t: int) -> MovieView {
        MovieView {
            audio: self.audio.update(
                t,
                TrackView { prebuffer: Seq::empty(), ..self.audio[t] },
            ),
            ..self
        }
    }

    /// Place the units that tracks below `n` hold back.
    pub open spec fn release_held(self, origin: int, n: int) -> MovieView
        decreases n,
    {
        if n <= 0 {
            self
        } else {
            let before = self.release_held(origin, n - 1);
            let held = before.audio[n - 1].prebuffer;
            before.without_prebuffer(n - 1).place_units(n - 1, origin, held, held.len() as int)
        }
    }

    /// Add a sample to the current video fragment, and write it once it is complete.
    pub open spec fn push_sample(self, sample: SampleView) -> MovieView {
        let next = MovieView { video_pending: self.video_pending.push(sample), ..self };
        if next.video_pending.len() >= self.frames {
            next.flush_video()
        } else {
            next
        }
    }

    /// Fix the origin, and place the units that were held back for it.
    pub open spec fn with_origin(self, origin: int) -> MovieView {
        MovieView { origin: Some(origin), ..self }.release_held(origin, self.audio.len() as int)
    }

    /// Take in a video packet. One without pictures is ignored; the first other one fixes the
    /// origin.
    pub open spec fn write_video(self, data: Seq<u8>, pts: int, is_keyframe: bool) -> MovieView {
        let sample = avcc_sample(data);
        if sample.len() == 0 {
            self
        } else if self.origin is None {
            self.with_origin(pts).push_sample((sample, is_keyframe))
        } else {
            self.push_sample((sample, is_keyframe))
        }
    }

    /// Take in an audio packet. One for a track that does not exist is ignored; before the origin
    /// is known the packet is held back.
    pub open spec fn write_audio(self, t: int, pts: int, unit: Seq<u8>) -> MovieView {
        if t >= self.audio.len() {
            self
        } else {
            match self.origin {
                None => MovieView {
                    audio: self.audio.update(
                        t,
                        TrackView {
                            prebuffer: self.audio[t].prebuffer.push((pts, unit)),
                            ..self.audio[t]
                        },
                    ),
                    ..self
                },
                Some(origin) => self.place_audio(t, origin, pts, unit),
            }
        }
    }

    /// Write the current fragments of the tracks below `n`.
    pub open spec fn flush_tracks(self, n: int) -> MovieView
        decreases n,
    {
        if n <= 0 {
            self
        } else {
            self.flush_tracks(n - 1).flush_audio(n - 1)
        }
    }

    /// Write everything that is still held.
    pub open spec fn flush_all(self) -> MovieView {
        self.flush_video().flush_tracks(self.audio.len() as int)
    }

    /// Whether a unit of track `t` at `pts` can be placed.
    pub open spec fn can_place(self, t: int, origin: int, pts: int) -> bool {
        self.starts_track(t, origin, pts) ==> gap_fits(pts, origin)
    }
}


// Invariant.

impl TrackView {
    /// What holds of a track of a movie whose stream has `len` bytes.
    pub open spec fn ok(self, len: int) -> bool {
        &&& self.pending.len() < AUDIO_FRAGMENT_AUS
        &&& self.written.len() * 12 <= len
        &&& self.index.sizes.len() == self.written.len()
        &&& self.initial_offset matches Some(offset) ==> 0 <= offset <= 0x40_0000_0000_0000
        &&& self.initial_offset is None ==> self.pending.len() == 0 && self.written.len() == 0
    }
}

impl MovieView {
    /// The movie without its current video samples.
    pub open spec fn without_samples(self) -> MovieView {
        MovieView { video_pending: Seq::empty(), ..self }
    }

    /// The movie without the current units of track `t`.
    pub open spec fn without_units(self, t: int) -> MovieView {
        MovieView {
            audio: self.audio.update(t, TrackView { pending: Seq::empty(), ..self.audio[t] }),
            ..self
        }
    }

    /// What holds of a movie between packets.
    pub open spec fn ok(self) -> bool {
        &&& 0 <= self.sequence <= u32::MAX
        &&& 0 <= self.frames * VIDEO_SAMPLE_DELTA <= u32::MAX
        &&& self.video_pending.len() > 0 ==> self.video_pending.len() < self.frames
        &&& self.video_written.len() * 12 <= self.stream.len()
        &&& self.video_index.sizes.len() == self.video_written.len()
        &&& self.stream.len() <= MAX_STREAM_LEN
        &&& self.audio.len() + 2 <= u32::MAX
        &&& forall|t: int|
            0 <= t < self.audio.len() ==> (#[trigger] self.audio[t]).track_id == t + 2
                && self.audio[t].ok(self.stream.len() as int)
        &&& self.stream == self.head + joined(fragment_bytes(self.fragments))
    }
}

/// A fragment's bytes begin with a `moof` box of known length.
pub proof fn lemma_fragment_len(f: FragmentView)
    ensures
        f.bytes().len() >= moof_len(f.samples.len() as int) + 8,
{
    crate::mux::fragment::lemma_data_offset_points_at_payload(
        f.sequence,
        f.track_id,
        f.base_decode_time,
        f.delta,
        f.samples,
    );
    lemma_box_len(fourcc::MDAT@, joined(payloads(f.samples)));
    reveal(mdat_bytes);
    reveal(FragmentView::bytes);
}

/// Writing one more fragment adds its bytes.
proof fn lemma_push_fragment(head: Seq<u8>, fragments: Seq<FragmentView>, f: FragmentView)
    ensures
        head + joined(fragment_bytes(fragments)) + f.bytes() == head + joined(
            fragment_bytes(fragments.push(f)),
        ),
{
    assert(fragment_bytes(fragments.push(f)).drop_last() =~= fragment_bytes(fragments));
    assert(head + joined(fragment_bytes(fragments)) + f.bytes() =~= head + joined(
        fragment_bytes(fragments.push(f)),
    ));
}

/// Flushing video keeps the invariant. It also holds when the pending samples have just reached
/// the length of a fragment.
pub proof fn lemma_flush_video_ok(m: MovieView)
    requires
        m.without_samples().ok(),
        m.flush_video().stream.len() <= MAX_STREAM_LEN,
    ensures
        m.flush_video().ok(),
        m.stream.len() <= m.flush_video().stream.len(),
{
    let base = m.without_samples();
    let next = m.flush_video();
    if m.video_pending.len() > 0 {
        let f = next.fragments.last();
        lemma_fragment_len(f);
        lemma_push_fragment(m.head, m.fragments, f);
        assert forall|t: int| 0 <= t < next.audio.len() implies (#[trigger] next.audio[t]).track_id
            == t + 2 && next.audio[t].ok(next.stream.len() as int) by {
            assert(base.audio[t].ok(base.stream.len() as int));
        }
    } else {
        assert(m.video_pending =~= Seq::empty());
    }
}

/// Whether the invariant holds but that track `t` may hold a complete fragment.
pub open spec fn ok_but_full(m: MovieView, t: int) -> bool {
    let track = m.audio[t];
    &&& 0 <= t < m.audio.len()
    &&& track.pending.len() <= AUDIO_FRAGMENT_AUS
    &&& track.initial_offset is Some
    &&& m.without_units(t).ok()
}

/// Flushing a track keeps the invariant.
pub proof fn lemma_flush_audio_ok(m: MovieView, t: int)
    requires
        ok_but_full(m, t),
        m.flush_audio(t).stream.len() <= MAX_STREAM_LEN,
    ensures
        m.flush_audio(t).ok(),
        m.flush_audio(t).audio[t].pending.len() == 0,
        m.stream.len() <= m.flush_audio(t).stream.len(),
{
    let track = m.audio[t];
    let base = m.without_units(t);
    let next = m.flush_audio(t);
    assert(base.audio[t].ok(base.stream.len() as int));
    if track.pending.len() > 0 {
        let f = next.fragments.last();
        lemma_fragment_len(f);
        lemma_push_fragment(m.head, m.fragments, f);
        assert forall|u: int| 0 <= u < next.audio.len() implies (#[trigger] next.audio[u]).track_id
            == u + 2 && next.audio[u].ok(next.stream.len() as int) by {
            assert(base.audio[u].ok(base.stream.len() as int));
        }
    } else {
        assert(m.audio[t].pending =~= Seq::empty());
        assert(m.audio =~= base.audio);
    }
}

/// Flushing a track of a movie that is in order.
pub proof fn lemma_ok_flush_audio(m: MovieView, t: int)
    requires
        m.ok(),
        0 <= t < m.audio.len(),
        m.flush_audio(t).stream.len() <= MAX_STREAM_LEN,
    ensures
        m.flush_audio(t).ok(),
        m.flush_audio(t).audio.len() == m.audio.len(),
        m.stream.len() <= m.flush_audio(t).stream.len(),
{
    assert(m.audio[t].ok(m.stream.len() as int));
    if m.audio[t].pending.len() > 0 {
        lemma_emptied_ok(m, t);
        lemma_flush_audio_ok(m, t);
    }
}

/// Emptying a track's current fragment keeps the invariant.
proof fn lemma_emptied_ok(m: MovieView, t: int)
    requires
        m.ok(),
        0 <= t < m.audio.len(),
    ensures
        m.without_units(t).ok(),
{
    let next = m.without_units(t);
    assert forall|u: int| 0 <= u < next.audio.len() implies (#[trigger] next.audio[u]).track_id == u
        + 2 && next.audio[u].ok(next.stream.len() as int) by {
        assert(m.audio[u].ok(m.stream.len() as int));
    }
}

/// Adding a unit keeps the invariant.
pub proof fn lemma_push_unit_ok(m: MovieView, t: int, unit: Seq<u8>)
    requires
        m.ok(),
        0 <= t < m.audio.len(),
        m.audio[t].initial_offset is Some,
        m.push_unit(t, unit).stream.len() <= MAX_STREAM_LEN,
    ensures
        m.push_unit(t, unit).ok(),
        m.push_unit(t, unit).audio.len() == m.audio.len(),
        m.push_unit(t, unit).audio[t].initial_offset == m.audio[t].initial_offset,
        m.push_unit(t, unit).audio[t].config == m.audio[t].config,
        ok_but_full(m.buffer_unit(t, unit), t),
        m.stream.len() <= m.push_unit(t, unit).stream.len(),
{
    let next = m.buffer_unit(t, unit);
    assert(m.audio[t].ok(m.stream.len() as int));
    lemma_emptied_ok(m, t);
    assert(next.without_units(t).audio =~= m.without_units(t).audio);
    assert(ok_but_full(next, t));
    if next.audio[t].pending.len() >= AUDIO_FRAGMENT_AUS {
        lemma_flush_audio_ok(next, t);
    } else {
        assert forall|u: int| 0 <= u < next.audio.len() implies (#[trigger] next.audio[u]).track_id
            == u + 2 && next.audio[u].ok(next.stream.len() as int) by {
            assert(m.audio[u].ok(m.stream.len() as int));
        }
    }
}


/// More silence makes no shorter a stream.
pub proof fn lemma_silence_grows(m: MovieView, t: int, a: int, b: int)
    requires
        a <= b,
    ensures
        m.push_silence(t, a).stream.len() <= m.push_silence(t, b).stream.len(),
    decreases b,
{
    if b > 0 && a < b {
        lemma_silence_grows(m, t, a, b - 1);
    }
}

/// Adding silence keeps the invariant.
pub proof fn lemma_silence_ok(m: MovieView, t: int, n: int)
    requires
        m.ok(),
        0 <= t < m.audio.len(),
        m.audio[t].initial_offset is Some,
        m.push_silence(t, n).stream.len() <= MAX_STREAM_LEN,
    ensures
        m.push_silence(t, n).ok(),
        m.push_silence(t, n).audio.len() == m.audio.len(),
        m.push_silence(t, n).audio[t].initial_offset == m.audio[t].initial_offset,
        m.push_silence(t, n).audio[t].config == m.audio[t].config,
    decreases n,
{
    if n > 0 {
        let before = m.push_silence(t, n - 1);
        lemma_silence_grows(m, t, n - 1, n);
        lemma_silence_ok(m, t, n - 1);
        lemma_push_unit_ok(before, t, before.audio[t].config.silent_au);
    }
}

/// Silence and the offset after it make up the gap.
pub proof fn lemma_head_silence(gap: int, have_template: bool)
    requires
        gap >= 0,
    ensures
        0 <= head_silence(gap, have_template) <= MAX_HEAD_SILENCE_AUS,
        0 <= gap - head_silence(gap, have_template) * AUDIO_SAMPLE_DELTA <= gap,
{
}

/// Fixing a track's offset keeps the invariant.
pub proof fn lemma_with_offset_ok(m: MovieView, t: int, offset: int)
    requires
        m.ok(),
        0 <= t < m.audio.len(),
        0 <= offset <= 0x40_0000_0000_0000,
    ensures
        m.with_offset(t, offset).ok(),
{
    let next = m.with_offset(t, offset);
    assert forall|u: int| 0 <= u < next.audio.len() implies (#[trigger] next.audio[u]).track_id == u
        + 2 && next.audio[u].ok(next.stream.len() as int) by {
        assert(m.audio[u].ok(m.stream.len() as int));
    }
}

/// Placing a unit keeps the invariant.
pub proof fn lemma_place_ok(m: MovieView, t: int, origin: int, pts: int, unit: Seq<u8>)
    requires
        m.ok(),
        0 <= t < m.audio.len(),
        m.can_place(t, origin, pts),
        m.place_audio(t, origin, pts, unit).stream.len() <= MAX_STREAM_LEN,
    ensures
        m.place_audio(t, origin, pts, unit).ok(),
        m.place_audio(t, origin, pts, unit).audio.len() == m.audio.len(),
        m.stream.len() <= m.place_audio(t, origin, pts, unit).stream.len(),
{
    let track = m.audio[t];
    if track.initial_offset is Some {
        lemma_push_unit_ok(m, t, unit);
    } else if pts >= origin {
        let gap = gap_units(pts, origin);
        lemma_gap_nonnegative(pts, origin);
        let silence = head_silence(gap, track.config.silent_au.len() > 0);
        lemma_head_silence(gap, track.config.silent_au.len() > 0);
        let offset = gap - silence * AUDIO_SAMPLE_DELTA;
        let started = m.with_offset(t, offset);
        lemma_with_offset_ok(m, t, offset);
        lemma_silence_grows(started, t, 0, silence);
        lemma_silence_ok(started, t, silence);
        lemma_push_unit_ok(started.push_silence(t, silence), t, unit);
    }
}

/// A gap is not negative.
pub proof fn lemma_gap_nonnegative(pts: int, origin: int)
    ensures
        gap_units(pts, origin) >= 0,
{
    if pts > origin {
        assert((pts - origin) * AUDIO_TIMESCALE >= 0) by (nonlinear_arith)
            requires
                pts > origin,
        ;
    }
}

impl MovieView {
    /// Whether the first `n` of some units can be placed in track `t`, one after the other.
    pub open spec fn can_place_units(
        self,
        t: int,
        origin: int,
        units: Seq<(int, Seq<u8>)>,
        n: int,
    ) -> bool
        decreases n,
    {
        n <= 0 || (self.can_place_units(t, origin, units, n - 1) && self.place_units(
            t,
            origin,
            units,
            n - 1,
        ).can_place(t, origin, units[n - 1].0))
    }

    /// Whether the units that tracks below `n` hold back can be placed.
    pub open spec fn can_release(self, origin: int, n: int) -> bool
        decreases n,
    {
        n <= 0 || (self.can_release(origin, n - 1) && {
            let before = self.release_held(origin, n - 1);
            let held = before.audio[n - 1].prebuffer;
            before.without_prebuffer(n - 1).can_place_units(
                n - 1,
                origin,
                held,
                held.len() as int,
            )
        })
    }

    /// Whether a video packet can be taken in: if it fixes the origin, the units held back must
    /// lie within reach of it.
    pub open spec fn can_write_video(self, data: Seq<u8>, pts: int) -> bool {
        avcc_sample(data).len() > 0 && self.origin is None ==> (MovieView {
            origin: Some(pts),
            ..self
        }).can_release(pts, self.audio.len() as int)
    }

    /// Whether an audio packet can be taken in.
    pub open spec fn can_write_audio(self, t: int, pts: int) -> bool {
        t < self.audio.len() ==> (self.origin matches Some(origin) ==> self.can_place(
            t,
            origin,
            pts,
        ))
    }
}

/// Placing more units makes no shorter a stream.
pub proof fn lemma_place_units_grows(
    m: MovieView,
    t: int,
    origin: int,
    units: Seq<(int, Seq<u8>)>,
    a: int,
    b: int,
)
    requires
        a <= b,
    ensures
        m.place_units(t, origin, units, a).stream.len() <= m.place_units(
            t,
            origin,
            units,
            b,
        ).stream.len(),
    decreases b,
{
    if b > 0 && a < b {
        lemma_place_units_grows(m, t, origin, units, a, b - 1);
        lemma_place_grows(
            m.place_units(t, origin, units, b - 1),
            t,
            origin,
            units[b - 1].0,
            units[b - 1].1,
        );
    }
}

/// Placing a unit makes no shorter a stream.
pub proof fn lemma_place_grows(m: MovieView, t: int, origin: int, pts: int, unit: Seq<u8>)
    ensures
        m.stream.len() <= m.place_audio(t, origin, pts, unit).stream.len(),
{
    if m.audio[t].initial_offset is None && pts >= origin {
        let gap = gap_units(pts, origin);
        let silence = head_silence(gap, m.audio[t].config.silent_au.len() > 0);
        lemma_gap_nonnegative(pts, origin);
        lemma_head_silence(gap, m.audio[t].config.silent_au.len() > 0);
        lemma_silence_grows(
            m.with_offset(t, gap - silence * AUDIO_SAMPLE_DELTA),
            t,
            0,
            silence,
        );
    }
}

/// Placing units keeps the invariant.
pub proof fn lemma_place_units_ok(
    m: MovieView,
    t: int,
    origin: int,
    units: Seq<(int, Seq<u8>)>,
    n: int,
)
    requires
        m.ok(),
        0 <= t < m.audio.len(),
        m.can_place_units(t, origin, units, n),
        m.place_units(t, origin, units, n).stream.len() <= MAX_STREAM_LEN,
    ensures
        m.place_units(t, origin, units, n).ok(),
        m.place_units(t, origin, units, n).audio.len() == m.audio.len(),
    decreases n,
{
    if n > 0 {
        lemma_place_units_grows(m, t, origin, units, n - 1, n);
        lemma_place_units_ok(m, t, origin, units, n - 1);
        lemma_place_ok(
            m.place_units(t, origin, units, n - 1),
            t,
            origin,
            units[n - 1].0,
            units[n - 1].1,
        );
    }
}

/// Emptying a prebuffer keeps the invariant.
pub proof fn lemma_without_prebuffer_ok(m: MovieView, t: int)
    requires
        m.ok(),
        0 <= t < m.audio.len(),
    ensures
        m.without_prebuffer(t).ok(),
{
    let next = m.without_prebuffer(t);
    assert forall|u: int| 0 <= u < next.audio.len() implies (#[trigger] next.audio[u]).track_id == u
        + 2 && next.audio[u].ok(next.stream.len() as int) by {
        assert(m.audio[u].ok(m.stream.len() as int));
    }
}

/// Releasing more tracks makes no shorter a stream.
pub proof fn lemma_release_grows(m: MovieView, origin: int, a: int, b: int)
    requires
        a <= b,
    ensures
        m.release_held(origin, a).stream.len() <= m.release_held(origin, b).stream.len(),
    decreases b,
{
    if b > 0 && a < b {
        lemma_release_grows(m, origin, a, b - 1);
        let before = m.release_held(origin, b - 1);
        let held = before.audio[b - 1].prebuffer;
        lemma_place_units_grows(
            before.without_prebuffer(b - 1),
            b - 1,
            origin,
            held,
            0,
            held.len() as int,
        );
    }
}

/// Releasing the units that were held back keeps the invariant.
pub proof fn lemma_release_ok(m: MovieView, origin: int, n: int)
    requires
        m.ok(),
        n <= m.audio.len(),
        m.can_release(origin, n),
        m.release_held(origin, n).stream.len() <= MAX_STREAM_LEN,
    ensures
        m.release_held(origin, n).ok(),
        m.release_held(origin, n).audio.len() == m.audio.len(),
    decreases n,
{
    if n > 0 {
        lemma_release_grows(m, origin, n - 1, n);
        lemma_release_ok(m, origin, n - 1);
        let before = m.release_held(origin, n - 1);
        let held = before.audio[n - 1].prebuffer;
        lemma_without_prebuffer_ok(before, n - 1);
        lemma_place_units_ok(
            before.without_prebuffer(n - 1),
            n - 1,
            origin,
            held,
            held.len() as int,
        );
    }
}

/// Adding a video sample keeps the invariant.
pub proof fn lemma_push_sample_ok(m: MovieView, sample: SampleView)
    requires
        m.ok(),
        m.push_sample(sample).stream.len() <= MAX_STREAM_LEN,
    ensures
        m.push_sample(sample).ok(),
        m.stream.len() <= m.push_sample(sample).stream.len(),
{
    let next = MovieView { video_pending: m.video_pending.push(sample), ..m };
    let base = next.without_samples();
    assert forall|t: int| 0 <= t < base.audio.len() implies (#[trigger] base.audio[t]).track_id == t
        + 2 && base.audio[t].ok(base.stream.len() as int) by {
        assert(m.audio[t].ok(m.stream.len() as int));
    }
    if next.video_pending.len() >= m.frames {
        lemma_flush_video_ok(next);
    } else {
        assert forall|t: int| 0 <= t < next.audio.len() implies (#[trigger] next.audio[t]).track_id
            == t + 2 && next.audio[t].ok(next.stream.len() as int) by {
            assert(m.audio[t].ok(m.stream.len() as int));
        }
    }
}

/// Flushing more tracks makes no shorter a stream.
pub proof fn lemma_flush_tracks_grows(m: MovieView, a: int, b: int)
    requires
        a <= b,
    ensures
        m.flush_tracks(a).stream.len() <= m.flush_tracks(b).stream.len(),
    decreases b,
{
    if b > 0 && a < b {
        lemma_flush_tracks_grows(m, a, b - 1);
    }
}

} // verus!
