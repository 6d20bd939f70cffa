//! The fragmented MP4 writer.
//!
//! A movie is written as a file-type box, a placeholder, a movie box without samples, and one
//! fragment per second of each track. When it is finished, a movie box with full sample tables is
//! appended, and the placeholder becomes the header of a media-data box that reaches up to it: the
//! file then reads as an ordinary MP4, and no sample has moved.
//!
//! The writer does no I/O. Each call returns the bytes to append to the file.

use vstd::prelude::*;

use crate::bytes::append;
use crate::constants::mux::{
    video_timescale, AUDIO_SAMPLE_DELTA, AUDIO_TIMESCALE, FRAGMENT_SECONDS, PART_SUFFIX,
    VIDEO_SAMPLE_DELTA,
};
use crate::constants::units::TICKS_PER_SECOND;
use crate::encode::{EncodedAudioPacket, EncodedPacket};
use crate::mux::boxes::{
    build_ftyp, build_placeholder_box, giant_mdat_header, ftyp_bytes, joined, large_header,
    AudioTrackConfig, ConfigView, FIRST_AUDIO_TRACK_ID, PLACEHOLDER_LEN, VIDEO_TRACK_ID,
};
use crate::mux::error::{MuxError, NO_PPS, NO_SPS, SHORT_SPS};
use crate::mux::fourcc;
use crate::mux::fragment::{build_fragment, sample_views, Sample, SampleView, MDAT_HEADER_LEN};
use crate::mux::layout::finished_file;
use crate::mux::movie::{
    build_final_moov, build_moov, duration_fits, final_moov_bytes, head_bytes, track_fits,
    track_views,
};
use crate::mux::placement::{
    lemma_flush_all_indexed, lemma_nothing_described, lemma_push_sample_grows,
    lemma_write_audio_indexed, lemma_write_video_indexed,
};
use crate::mux::nal::{
    annexb_nals, avcc_record, build_avcc, find_unit, first_of_type, nal_units, sample_to_avcc,
    NAL_PPS, NAL_SPS,
};
use crate::mux::tables::{IndexView, TrackIndex};
use crate::mux::timeline::{
    fragment_bytes, gap_units, head_silence, lemma_flush_audio_ok, lemma_flush_tracks_grows,
    lemma_flush_video_ok, lemma_gap_nonnegative, lemma_head_silence, lemma_ok_flush_audio,
    lemma_place_ok, lemma_place_units_grows, lemma_push_sample_ok, lemma_push_unit_ok,
    lemma_release_grows, lemma_silence_grows, lemma_silence_ok, lemma_with_offset_ok,
    lemma_without_prebuffer_ok, ok_but_full, sync_samples, FragmentView, MovieView, TrackView,
    AUDIO_FRAGMENT_AUS, MAX_HEAD_SILENCE_AUS, MAX_STREAM_LEN,
};

use crate::mux::timing::lemma_timed_new;

verus! {

/// One audio track of a movie that is being written.
pub struct AudioTrack {
    pub track_id: u32,
    pub config: AudioTrackConfig,
    /// Where the first access unit lies after the origin, in the audio timescale.
    pub initial_offset: Option<u64>,
    /// Access units that came before the origin was known, with their times.
    pub prebuffer: Vec<(i64, Vec<u8>)>,
    /// Access units of the current fragment.
    pub pending: Vec<Vec<u8>>,
    /// Access units written in earlier fragments.
    pub total_aus: u64,
    /// Sample tables for the finished movie.
    pub index: TrackIndex,
    /// The access units written in earlier fragments.
    pub written: Ghost<Seq<SampleView>>,
}

impl View for AudioTrack {
    type V = TrackView;

    open spec fn view(&self) -> TrackView {
        TrackView {
            track_id: self.track_id as int,
            config: self.config@,
            initial_offset: match self.initial_offset {
                Some(offset) => Some(offset as int),
                None => None,
            },
            prebuffer: self.prebuffer@.map_values(|p: (i64, Vec<u8>)| (p.0 as int, p.1@)),
            pending: self.pending@.map_values(|u: Vec<u8>| u@),
            written: self.written@,
            index: self.index@,
        }
    }
}

/// A track before its first packet.
pub open spec fn new_track(track_id: int, config: ConfigView) -> TrackView {
    TrackView {
        track_id,
        config,
        initial_offset: None,
        prebuffer: Seq::empty(),
        pending: Seq::empty(),
        written: Seq::empty(),
        index: IndexView::empty(),
    }
}

impl AudioTrack {
    /// A track before its first packet.
    pub fn new(track_id: u32, config: AudioTrackConfig) -> (track: Self)
        ensures
            track@ == new_track(track_id as int, config@),
            track.total_aus == 0,
    {
        let track = AudioTrack {
            track_id,
            config,
            initial_offset: None,
            prebuffer: Vec::new(),
            pending: Vec::new(),
            total_aus: 0,
            index: TrackIndex::new(),
            written: Ghost(Seq::empty()),
        };
        assert(track@ =~= new_track(track_id as int, config@));
        track
    }
}

/// Plan the head of a track whose first access unit lies at `pts`: the number of silent units to
/// put before it, and what is left of the gap after them.
pub fn plan_head_fill(pts: i64, origin: i64, have_template: bool) -> (r: (u64, u64))
    requires
        i64::MIN <= pts - origin <= i64::MAX,
    ensures
        r.0 == head_silence(gap_units(pts as int, origin as int), have_template),
        r.1 == gap_units(pts as int, origin as int) - r.0 * AUDIO_SAMPLE_DELTA,
{
    let gap_ticks: i64 = pts - origin;
    let gap: u64 = if gap_ticks <= 0 {
        0
    } else {
        let ticks: u128 = gap_ticks as u128;
        assert(AUDIO_TIMESCALE == 48_000 && TICKS_PER_SECOND == 10_000_000);
        assert(0 <= ticks * 96_000 <= 0x8000_0000_0000_0000 * 96_000);
        let double: u128 = 2 * ticks;
        assert(double * AUDIO_TIMESCALE == ticks * 96_000);
        let scaled: u128 = double * AUDIO_TIMESCALE as u128 + TICKS_PER_SECOND as u128;
        assert(scaled == ticks * 96_000 + 10_000_000);
        assert(scaled / 20_000_000 <= ticks);
        (scaled / (2 * TICKS_PER_SECOND as u128)) as u64
    };
    let au: u64 = AUDIO_SAMPLE_DELTA as u64;
    if have_template && gap >= au {
        let fitting: u64 = gap / au;
        let silent_aus: u64 = if fitting <= MAX_HEAD_SILENCE_AUS {
            fitting
        } else {
            MAX_HEAD_SILENCE_AUS
        };
        (silent_aus, gap - silent_aus * au)
    } else {
        (0, gap)
    }
}

/// Law: a track's first access unit lies at the unit of the audio timescale nearest to its time: at
/// most half a unit away.
pub proof fn lemma_gap_is_nearest(pts: int, origin: int)
    requires
        origin <= pts,
    ensures
        ({
            let off = gap_units(pts, origin) * TICKS_PER_SECOND - (pts - origin) * AUDIO_TIMESCALE;
            -(TICKS_PER_SECOND as int) <= 2 * off <= TICKS_PER_SECOND
        }),
{
    let ticks = pts - origin;
    assert(AUDIO_TIMESCALE == 48_000 && TICKS_PER_SECOND == 10_000_000);
    assert(2 * ticks * AUDIO_TIMESCALE == 96_000 * ticks);
    assert(ticks * AUDIO_TIMESCALE == 48_000 * ticks);
    assert(gap_units(pts, origin) == (96_000 * ticks + 10_000_000) / 20_000_000);
}

/// Law: the silence and the offset after it always make up the whole gap, so the first real
/// access unit lies where it belongs; and with a template, a gap that the cap covers leaves an
/// offset of less than one access unit.
pub proof fn lemma_head_fill_keeps_position(pts: int, origin: int, have_template: bool)
    ensures
        ({
            let gap = gap_units(pts, origin);
            let silence = head_silence(gap, have_template);
            let offset = gap - silence * AUDIO_SAMPLE_DELTA;
            &&& 0 <= silence <= MAX_HEAD_SILENCE_AUS
            &&& offset + silence * AUDIO_SAMPLE_DELTA == gap
            &&& 0 <= offset
            &&& have_template && gap < (MAX_HEAD_SILENCE_AUS + 1) * AUDIO_SAMPLE_DELTA ==> offset
                < AUDIO_SAMPLE_DELTA
        }),
{
    lemma_gap_nonnegative(pts, origin);
    lemma_head_silence(gap_units(pts, origin), have_template);
}

/// What a writer has written, beyond what it needs to remember.
pub struct History {
    pub head: Seq<u8>,
    pub fragments: Seq<FragmentView>,
    pub video_written: Seq<SampleView>,
    pub stream: Seq<u8>,
    pub delivered: Seq<u8>,
}

/// A fragmented MP4 muxer: one H.264 video track and any number of AAC tracks.
pub struct Fmp4Writer {
    /// The duration at which a video fragment is complete, in the video timescale.
    pub video_fragment_threshold: u32,
    /// The first video packet's time, in ticks. Audio is aligned to it.
    pub origin: Option<i64>,
    /// Samples of the current video fragment.
    pub video_samples: Vec<Sample>,
    pub video_fragment_duration: u32,
    pub video_total_samples: u64,
    pub audio: Vec<AudioTrack>,
    /// The last fragment's number, over all tracks.
    pub sequence_number: u32,
    /// The length of what has been written.
    pub file_pos: u64,
    /// The position of the placeholder.
    pub placeholder_offset: u64,
    /// Video sample tables for the finished movie.
    pub video_index: TrackIndex,
    pub avcc: Vec<u8>,
    pub width: u32,
    pub height: u32,
    pub video_timescale: u32,
    /// What the current call has written.
    pub out: Vec<u8>,
    pub history: Ghost<History>,
}

/// What stays the same over a movie.
#[verifier::ext_equal]
pub struct SetupView {
    pub avcc: Seq<u8>,
    pub width: int,
    pub height: int,
    pub timescale: int,
    pub placeholder_offset: int,
}

/// A movie's set-up.
pub open spec fn setup_view(avcc: Seq<u8>, width: int, height: int, timescale: int) -> SetupView {
    SetupView {
        avcc,
        width,
        height,
        timescale,
        placeholder_offset: ftyp_bytes().len() as int,
    }
}

/// A movie before its first packet is in order.
proof fn lemma_new_movie_ok(m: MovieView)
    requires
        0 <= m.frames * VIDEO_SAMPLE_DELTA <= u32::MAX,
        m.video_pending.len() == 0,
        m.video_written == Seq::<SampleView>::empty(),
        m.video_index == IndexView::empty(),
        m.sequence == 0,
        m.fragments == Seq::<FragmentView>::empty(),
        m.stream == m.head,
        m.stream.len() <= MAX_STREAM_LEN,
        m.audio.len() + 2 <= u32::MAX,
        forall|t: int|
            0 <= t < m.audio.len() ==> (#[trigger] m.audio[t]) == new_track(
                FIRST_AUDIO_TRACK_ID + t,
                m.audio[t].config,
            ),
    ensures
        m.ok(),
        m.indexed(),
{
    assert(joined(fragment_bytes(m.fragments)) =~= Seq::empty());
    assert(m.stream =~= m.head + joined(fragment_bytes(m.fragments)));
    lemma_nothing_described(m.stream, m.head.len() as int);
    lemma_timed_new(m);
    assert forall|t: int| 0 <= t < m.audio.len() implies (#[trigger] m.audio[t]).track_id == t + 2
        && m.audio[t].ok(m.stream.len() as int) by {}
}

impl View for Fmp4Writer {
    type V = MovieView;

    open spec fn view(&self) -> MovieView {
        MovieView {
            frames: self.video_fragment_threshold as int / VIDEO_SAMPLE_DELTA as int,
            origin: match self.origin {
                Some(origin) => Some(origin as int),
                None => None,
            },
            video_pending: sample_views(self.video_samples@),
            video_written: self.history@.video_written,
            video_index: self.video_index@,
            audio: self.audio@.map_values(|t: AudioTrack| t@),
            sequence: self.sequence_number as int,
            head: self.history@.head,
            fragments: self.history@.fragments,
            stream: self.history@.stream,
        }
    }
}

impl Fmp4Writer {
    /// What stays the same over the movie.
    pub open spec fn setup(&self) -> SetupView {
        SetupView {
            avcc: self.avcc@,
            width: self.width as int,
            height: self.height as int,
            timescale: self.video_timescale as int,
            placeholder_offset: self.placeholder_offset as int,
        }
    }

    /// What no packet changes while it is taken in.
    pub open spec fn fixed(&self) -> (SetupView, u32, Seq<u8>, Seq<u8>) {
        (
            self.setup(),
            self.video_fragment_threshold,
            self.history@.head,
            self.history@.delivered,
        )
    }

    /// That the counters match what was written.
    pub open spec fn counts(&self) -> bool {
        &&& self.file_pos == self@.stream.len()
        &&& self@.stream == self.history@.delivered + self.out@
        &&& self.video_fragment_duration == self.video_samples@.len() * VIDEO_SAMPLE_DELTA
        &&& self.video_fragment_threshold == self@.frames * VIDEO_SAMPLE_DELTA
        &&& self.video_total_samples == self@.video_written.len()
        &&& forall|t: int|
            0 <= t < self.audio@.len() ==> (#[trigger] self.audio@[t]).total_aus
                == self.audio@[t].written@.len()
    }

    /// Write the current video samples as a fragment.
    fn flush_video_fragment(&mut self)
        requires
            old(self).counts(),
            old(self)@.without_samples().ok(),
            old(self)@.flush_video().stream.len() <= MAX_STREAM_LEN,
        ensures
            final(self).counts(),
            final(self)@.ok(),
            final(self)@ == old(self)@.flush_video(),
            final(self).fixed() == old(self).fixed(),
    {
        let ghost m = self@;
        proof {
            lemma_flush_video_ok(m);
        }
        if self.video_samples.len() == 0 {
            assert(self@.video_pending =~= Seq::empty());
            return;
        }
        let number: u32 = if self.sequence_number == u32::MAX {
            0
        } else {
            self.sequence_number + 1
        };
        assert(m.video_written.len() * 12 <= MAX_STREAM_LEN);
        let base: u64 = self.video_total_samples * VIDEO_SAMPLE_DELTA as u64;
        let (moof, mdat) = build_fragment(
            number,
            VIDEO_TRACK_ID,
            base,
            VIDEO_SAMPLE_DELTA,
            &self.video_samples,
        );
        let ghost fragment = m.flush_video().fragments.last();
        assert(moof@ + mdat@ == fragment.bytes()) by {
            reveal(FragmentView::bytes);
        }
        let payload: u64 = self.file_pos + moof.len() as u64 + MDAT_HEADER_LEN;
        self.video_index.push_chunk(payload, &self.video_samples);
        append(&mut self.out, &moof);
        append(&mut self.out, &mdat);
        self.file_pos = self.file_pos + moof.len() as u64 + mdat.len() as u64;
        self.sequence_number = number;
        self.video_total_samples = self.video_total_samples + self.video_samples.len() as u64;
        self.video_samples = Vec::new();
        self.video_fragment_duration = 0;
        self.history = Ghost(
            History {
                fragments: m.fragments.push(fragment),
                video_written: m.video_written + m.video_pending,
                stream: m.stream + fragment.bytes(),
                ..self.history@
            },
        );
        assert(self@.stream =~= self.history@.delivered + self.out@);
        assert(self@ =~= m.flush_video());
    }

    /// That track `t` of the view is the view of track `t`.
    proof fn lemma_track_view(&self, t: int)
        requires
            0 <= t < self.audio@.len(),
        ensures
            self@.audio[t] == self.audio@[t]@,
            self@.audio.len() == self.audio@.len(),
    {
    }

    /// Write the current access units of a track as a fragment.
    fn flush_audio_fragment(&mut self, track_index: usize)
        requires
            track_index < old(self).audio@.len(),
            old(self).counts(),
            ok_but_full(old(self)@, track_index as int) || old(self)@.ok(),
            old(self)@.flush_audio(track_index as int).stream.len() <= MAX_STREAM_LEN,
        ensures
            final(self).counts(),
            final(self)@.ok(),
            final(self)@ == old(self)@.flush_audio(track_index as int),
            final(self).fixed() == old(self).fixed(),
            final(self).audio@.len() == old(self).audio@.len(),
    {
        let ghost m = self@;
        let ghost t = track_index as int;
        let ghost track = m.audio[t];
        proof {
            self.lemma_track_view(t);
            if m.ok() {
                lemma_ok_flush_audio(m, t);
                assert(track.ok(m.stream.len() as int));
            } else {
                lemma_flush_audio_ok(m, t);
                assert(m.without_units(t).audio[t].ok(m.stream.len() as int));
            }
        }
        if self.audio[track_index].pending.len() == 0 {
            return;
        }
        let number: u32 = if self.sequence_number == u32::MAX {
            0
        } else {
            self.sequence_number + 1
        };
        let offset: u64 = match self.audio[track_index].initial_offset {
            Some(offset) => offset,
            None => 0,
        };
        let track_id: u32 = self.audio[track_index].track_id;
        assert(self.audio@[t].total_aus == track.written.len());
        assert(track.written.len() * 12 <= MAX_STREAM_LEN);
        let base: u64 = offset + self.audio[track_index].total_aus * AUDIO_SAMPLE_DELTA as u64;
        let mut pending: Vec<Vec<u8>> = Vec::new();
        std::mem::swap(&mut pending, &mut self.audio[track_index].pending);
        let ghost units = track.pending;
        assert(units =~= pending@.map_values(|u: Vec<u8>| u@));
        let mut samples: Vec<Sample> = Vec::new();
        for unit in iter: pending
            invariant
                units == pending@.map_values(|u: Vec<u8>| u@),
                iter.seq() == pending@,
                samples@.len() == iter.index(),
                forall|i: int|
                    0 <= i < samples@.len() ==> (#[trigger] samples@[i]).0@ == units[i]
                        && samples@[i].1,
        {
            samples.push((unit, true));
        }
        assert(sample_views(samples@) =~= sync_samples(units));
        let (moof, mdat) = build_fragment(number, track_id, base, AUDIO_SAMPLE_DELTA, &samples);
        let ghost fragment = m.flush_audio(t).fragments.last();
        assert(moof@ + mdat@ == fragment.bytes()) by {
            reveal(FragmentView::bytes);
        }
        let payload: u64 = self.file_pos + moof.len() as u64 + MDAT_HEADER_LEN;
        self.audio[track_index].index.push_chunk(payload, &samples);
        append(&mut self.out, &moof);
        append(&mut self.out, &mdat);
        self.file_pos = self.file_pos + moof.len() as u64 + mdat.len() as u64;
        self.sequence_number = number;
        let total: u64 = self.audio[track_index].total_aus + samples.len() as u64;
        self.audio[track_index].total_aus = total;
        self.audio[track_index].written = Ghost(track.written + sync_samples(units));
        self.history = Ghost(
            History {
                fragments: m.fragments.push(fragment),
                stream: m.stream + fragment.bytes(),
                ..self.history@
            },
        );
        assert(self@.stream =~= self.history@.delivered + self.out@);
        assert(self.audio@[t]@.pending =~= Seq::empty());
        assert(self.audio@[t]@ =~= m.flush_audio(t).audio[t]);
        assert(self@.audio =~= m.flush_audio(t).audio);
        assert(self@ =~= m.flush_audio(t));
    }

    /// Add one access unit to a track, and write the fragment once it is complete.
    fn push_au(&mut self, track_index: usize, bytes: Vec<u8>)
        requires
            track_index < old(self).audio@.len(),
            old(self).counts(),
            old(self)@.ok(),
            old(self)@.audio[track_index as int].initial_offset is Some,
            old(self)@.push_unit(track_index as int, bytes@).stream.len() <= MAX_STREAM_LEN,
        ensures
            final(self).counts(),
            final(self)@.ok(),
            final(self)@ == old(self)@.push_unit(track_index as int, bytes@),
            final(self).fixed() == old(self).fixed(),
            final(self).audio@.len() == old(self).audio@.len(),
    {
        let ghost m = self@;
        let ghost t = track_index as int;
        let ghost unit = bytes@;
        proof {
            self.lemma_track_view(t);
            lemma_push_unit_ok(m, t, unit);
        }
        self.audio[track_index].pending.push(bytes);
        assert(self.audio@[t]@.pending =~= m.audio[t].pending.push(unit));
        assert(self.audio@[t]@ =~= m.buffer_unit(t, unit).audio[t]);
        assert(self@.audio =~= m.buffer_unit(t, unit).audio);
        assert(self@ =~= m.buffer_unit(t, unit));
        if self.audio[track_index].pending.len() >= AUDIO_FRAGMENT_AUS {
            self.flush_audio_fragment(track_index);
        }
    }

    /// Place one access unit of a track.
    fn place_audio(&mut self, track_index: usize, origin: i64, pts: i64, bytes: Vec<u8>)
        requires
            track_index < old(self).audio@.len(),
            old(self).counts(),
            old(self)@.ok(),
            old(self)@.can_place(track_index as int, origin as int, pts as int),
            old(self)@.place_audio(
                track_index as int,
                origin as int,
                pts as int,
                bytes@,
            ).stream.len() <= MAX_STREAM_LEN,
        ensures
            final(self).counts(),
            final(self)@.ok(),
            final(self)@ == old(self)@.place_audio(
                track_index as int,
                origin as int,
                pts as int,
                bytes@,
            ),
            final(self).fixed() == old(self).fixed(),
            final(self).audio@.len() == old(self).audio@.len(),
    {
        let ghost m = self@;
        let ghost t = track_index as int;
        proof {
            self.lemma_track_view(t);
            lemma_place_ok(m, t, origin as int, pts as int, bytes@);
        }
        if self.audio[track_index].initial_offset.is_none() {
            if pts < origin {
                return;
            }
            let have_template: bool = self.audio[track_index].config.silent_au.len() > 0;
            let (silent_aus, offset) = plan_head_fill(pts, origin, have_template);
            self.audio[track_index].initial_offset = Some(offset);
            let ghost started = m.with_offset(t, offset as int);
            assert(self.audio@[t]@ =~= started.audio[t]);
            assert(self@.audio =~= started.audio);
            assert(self@ =~= started);
            proof {
                lemma_gap_nonnegative(pts as int, origin as int);
                lemma_head_silence(gap_units(pts as int, origin as int), have_template);
                lemma_with_offset_ok(m, t, offset as int);
                lemma_silence_grows(started, t, 0, silent_aus as int);
            }
            let mut k: u64 = 0;
            while k < silent_aus
                invariant
                    k <= silent_aus,
                    t == track_index,
                    track_index < self.audio@.len(),
                    self.audio@.len() == old(self).audio@.len(),
                    self.counts(),
                    self@.ok(),
                    self.fixed() == old(self).fixed(),
                    started.ok(),
                    t < started.audio.len(),
                    started.audio[t].initial_offset is Some,
                    self@ == started.push_silence(t, k as int),
                    started.push_silence(t, silent_aus as int).stream.len() <= MAX_STREAM_LEN,
                decreases silent_aus - k,
            {
                let mut silence: Vec<u8> = Vec::new();
                append(&mut silence, &self.audio[track_index].config.silent_au);
                proof {
                    self.lemma_track_view(t);
                    assert(silence@ =~= self@.audio[t].config.silent_au);
                    lemma_silence_grows(started, t, k as int, silent_aus as int);
                    lemma_silence_grows(started, t, k + 1, silent_aus as int);
                    lemma_silence_ok(started, t, k as int);
                }
                self.push_au(track_index, silence);
                k = k + 1;
            }
            proof {
                lemma_silence_ok(started, t, silent_aus as int);
            }
        }
        self.push_au(track_index, bytes);
    }

    /// Place the access units that were held back until the origin was known.
    fn admit_prebuffered_audio(&mut self, origin: i64)
        requires
            old(self).counts(),
            old(self)@.ok(),
            old(self)@.can_release(origin as int, old(self)@.audio.len() as int),
            old(self)@.release_held(
                origin as int,
                old(self)@.audio.len() as int,
            ).stream.len() <= MAX_STREAM_LEN,
        ensures
            final(self).counts(),
            final(self)@.ok(),
            final(self)@ == old(self)@.release_held(
                origin as int,
                old(self)@.audio.len() as int,
            ),
            final(self).fixed() == old(self).fixed(),
            final(self).audio@.len() == old(self).audio@.len(),
    {
        let ghost m = self@;
        let ghost o = origin as int;
        let tracks: usize = self.audio.len();
        let mut idx: usize = 0;
        while idx < tracks
            invariant
                idx <= tracks,
                o == origin,
                tracks == m.audio.len(),
                tracks == self.audio@.len(),
                tracks == old(self).audio@.len(),
                self.counts(),
                self@.ok(),
                self.fixed() == old(self).fixed(),
                m.ok(),
                self@ == m.release_held(o, idx as int),
                m.can_release(o, tracks as int),
                m.release_held(o, tracks as int).stream.len() <= MAX_STREAM_LEN,
            decreases tracks - idx,
        {
            let ghost t = idx as int;
            let ghost before = self@;
            proof {
                self.lemma_track_view(t);
                lemma_can_release_prefix(m, o, t + 1, tracks as int);
                lemma_release_grows(m, o, t + 1, tracks as int);
                lemma_without_prebuffer_ok(before, t);
            }
            let mut held: Vec<(i64, Vec<u8>)> = Vec::new();
            std::mem::swap(&mut held, &mut self.audio[idx].prebuffer);
            let ghost units = before.audio[t].prebuffer;
            let ghost base = before.without_prebuffer(t);
            assert(units =~= held@.map_values(|p: (i64, Vec<u8>)| (p.0 as int, p.1@)));
            assert(self.audio@[t]@.prebuffer =~= Seq::empty());
            assert(self.audio@[t]@ =~= base.audio[t]);
            assert(self@.audio =~= base.audio);
            assert(self@ =~= base);
            assert(m.release_held(o, t + 1) == base.place_units(t, o, units, units.len() as int));
            for item in iter: held
                invariant
                    idx < tracks,
                    t == idx,
                    o == origin,
                    tracks == self.audio@.len(),
                    tracks == old(self).audio@.len(),
                    self.counts(),
                    self@.ok(),
                    self.fixed() == old(self).fixed(),
                    base.ok(),
                    t < base.audio.len(),
                    units == held@.map_values(|p: (i64, Vec<u8>)| (p.0 as int, p.1@)),
                    iter.seq() == held@,
                    self@ == base.place_units(t, o, units, iter.index()),
                    base.can_place_units(t, o, units, units.len() as int),
                    base.place_units(t, o, units, units.len() as int).stream.len()
                        <= MAX_STREAM_LEN,
            {
                let ghost i = iter.index();
                proof {
                    lemma_can_place_prefix(base, t, o, units, i + 1, units.len() as int);
                    lemma_place_units_grows(base, t, o, units, i + 1, units.len() as int);
                    assert(units[i] == (item.0 as int, item.1@));
                }
                self.place_audio(idx, origin, item.0, item.1);
            }
            idx = idx + 1;
        }
    }
}

/// Whether a file begins with the file-type box and the placeholder.
pub open spec fn has_placeholder(head: Seq<u8>) -> bool {
    let front = ftyp_bytes() + large_header(fourcc::FREE@, PLACEHOLDER_LEN as int);
    head.len() >= front.len() && head.take(front.len() as int) == front
}

/// The tracks of a new movie.
pub open spec fn new_tracks(configs: Seq<AudioTrackConfig>) -> Seq<TrackView> {
    Seq::new(configs.len(), |i: int| new_track(FIRST_AUDIO_TRACK_ID + i, configs[i]@))
}

/// A movie before its first packet.
pub open spec fn new_movie(
    avcc: Seq<u8>,
    width: int,
    height: int,
    fps: int,
    configs: Seq<AudioTrackConfig>,
) -> MovieView {
    let head = head_bytes(avcc, width, height, fps * 1000, new_tracks(configs));
    MovieView {
        frames: fps,
        origin: None,
        video_pending: Seq::empty(),
        video_written: Seq::empty(),
        video_index: IndexView::empty(),
        audio: new_tracks(configs),
        sequence: 0,
        head,
        fragments: Seq::empty(),
        stream: head,
    }
}

/// What is left to write when a movie is finished.
pub struct Finished {
    /// Bytes to append.
    pub tail: Vec<u8>,
    /// Bytes to write over the placeholder, and its position. A movie without video has no
    /// timeline; it stays fragmented, and nothing is overwritten.
    pub patch: Option<(u64, Vec<u8>)>,
}

/// `file` with `bytes` written over what stands at `at`.
pub open spec fn overwritten(file: Seq<u8>, at: int, bytes: Seq<u8>) -> Seq<u8> {
    file.take(at) + bytes + file.skip(at + bytes.len())
}

impl Finished {
    /// The finished file, given what was written before.
    pub open spec fn file(&self, stream: Seq<u8>) -> Seq<u8> {
        match self.patch {
            Some(patch) => overwritten(stream + self.tail@, patch.0 as int, patch.1@),
            None => stream + self.tail@,
        }
    }

    /// The finished file, given what was written before.
    pub fn apply(&self, written: Vec<u8>) -> (file: Vec<u8>)
        requires
            self.patch matches Some(patch) ==> patch.0 + patch.1@.len() <= written@.len()
                + self.tail@.len(),
        ensures
            file@ == self.file(written@),
    {
        let mut file: Vec<u8> = written;
        append(&mut file, &self.tail);
        match &self.patch {
            None => {},
            Some(patch) => {
                let ghost before = file@;
                let ghost n = patch.1@.len() as int;
                let len: usize = file.len();
                let at: usize = patch.0 as usize;
                let mut i: usize = 0;
                while i < patch.1.len()
                    invariant
                        i <= patch.1@.len(),
                        file@.len() == before.len(),
                        len == before.len(),
                        at + patch.1@.len() <= file@.len(),
                        forall|k: int| 0 <= k < i ==> file@[at + k] == #[trigger] patch.1@[k],
                        forall|k: int|
                            0 <= k < file@.len() && !(at <= k < at + i) ==> #[trigger] file@[k]
                                == before[k],
                    decreases patch.1@.len() - i,
                {
                    let ghost now = file@;
                    file.set(at + i, patch.1[i]);
                    assert forall|k: int| 0 <= k < i + 1 implies file@[at + k]
                        == #[trigger] patch.1@[k] by {
                        if k < i {
                            assert(now[at + k] == patch.1@[k]);
                        }
                    }
                    i = i + 1;
                }
                assert(file@ =~= overwritten(before, at as int, patch.1@)) by {
                    assert forall|k: int| 0 <= k < file@.len() implies file@[k] == overwritten(
                        before,
                        at as int,
                        patch.1@,
                    )[k] by {
                        if at <= k < at + n {
                            assert(file@[at + (k - at)] == patch.1@[k - at]);
                        }
                    }
                }
            },
        }
        file
    }
}

impl Fmp4Writer {
    /// That the writer is between calls: everything written was handed out, and what is kept
    /// describes it.
    pub open spec fn wf(&self) -> bool {
        &&& self.counts()
        &&& self@.ok()
        &&& self@.indexed()
        &&& self.out@.len() == 0
        &&& self.placeholder_offset == ftyp_bytes().len()
        &&& has_placeholder(self@.head)
    }

    /// Start a movie: the writer, and the bytes that the file begins with.
    pub fn create_from_parts(
        avcc: Vec<u8>,
        width: u32,
        height: u32,
        fps: u32,
        audio_tracks: &[AudioTrackConfig],
    ) -> (r: (Self, Vec<u8>))
        requires
            fps * 1000 <= u32::MAX,
            audio_tracks@.len() + FIRST_AUDIO_TRACK_ID <= u32::MAX,
            new_movie(
                avcc@,
                width as int,
                height as int,
                fps as int,
                audio_tracks@,
            ).stream.len() <= MAX_STREAM_LEN,
        ensures
            r.0.wf(),
            r.0@ == new_movie(avcc@, width as int, height as int, fps as int, audio_tracks@),
            r.1@ == r.0@.stream,
            r.0.setup() == setup_view(avcc@, width as int, height as int, fps * 1000),
    {
        let timescale: u32 = video_timescale(fps);
        let mut audio: Vec<AudioTrack> = Vec::new();
        let mut i: usize = 0;
        while i < audio_tracks.len()
            invariant
                i <= audio_tracks.len(),
                audio_tracks@.len() + FIRST_AUDIO_TRACK_ID <= u32::MAX,
                audio@.len() == i,
                forall|k: int|
                    0 <= k < i ==> (#[trigger] audio@[k])@ == new_track(
                        FIRST_AUDIO_TRACK_ID + k,
                        audio_tracks@[k]@,
                    ) && audio@[k].total_aus == 0,
            decreases audio_tracks.len() - i,
        {
            audio.push(
                AudioTrack::new(FIRST_AUDIO_TRACK_ID + i as u32, audio_tracks[i].clone()),
            );
            i = i + 1;
        }
        assert(track_views(audio@) =~= new_tracks(audio_tracks@));
        let ftyp: Vec<u8> = build_ftyp();
        let placeholder_offset: u64 = ftyp.len() as u64;
        let placeholder: Vec<u8> = build_placeholder_box();
        let moov: Vec<u8> = build_moov(&avcc, width, height, timescale, &audio);
        let mut head: Vec<u8> = ftyp;
        append(&mut head, &placeholder);
        append(&mut head, &moov);
        let ghost movie = new_movie(
            avcc@,
            width as int,
            height as int,
            fps as int,
            audio_tracks@,
        );
        assert(head@ == movie.head);
        assert(has_placeholder(head@)) by {
            let front = ftyp_bytes() + large_header(fourcc::FREE@, PLACEHOLDER_LEN as int);
            assert(head@.take(front.len() as int) =~= front);
        }
        let w = Fmp4Writer {
            video_fragment_threshold: timescale * FRAGMENT_SECONDS as u32,
            origin: None,
            video_samples: Vec::new(),
            video_fragment_duration: 0,
            video_total_samples: 0,
            audio,
            sequence_number: 0,
            file_pos: head.len() as u64,
            placeholder_offset,
            video_index: TrackIndex::new(),
            avcc,
            width,
            height,
            video_timescale: timescale,
            out: Vec::new(),
            history: Ghost(
                History {
                    head: head@,
                    fragments: Seq::empty(),
                    video_written: Seq::empty(),
                    stream: head@,
                    delivered: head@,
                },
            ),
        };
        proof {
            assert(w@.frames == fps);
            assert(w@.audio =~= movie.audio);
            assert(w@ =~= movie);
            assert(w@.stream =~= w.history@.delivered + w.out@);
            lemma_new_movie_ok(movie);
        }
        (w, head)
    }

    /// Hand out what this call has written.
    fn deliver(&mut self) -> (bytes: Vec<u8>)
        requires
            old(self).counts(),
        ensures
            final(self).counts(),
            final(self)@ == old(self)@,
            final(self).setup() == old(self).setup(),
            final(self).out@.len() == 0,
            old(self).history@.delivered + bytes@ == final(self)@.stream,
    {
        let ghost m = self@;
        let mut bytes: Vec<u8> = Vec::new();
        std::mem::swap(&mut bytes, &mut self.out);
        self.history = Ghost(History { delivered: self.history@.stream, ..self.history@ });
        assert(self@ =~= m);
        assert(self@.stream =~= self.history@.delivered + self.out@);
        bytes
    }

    /// Take in one encoded video packet. The first one with pictures fixes the origin; a fragment
    /// is written for each second.
    pub fn write_video_packet(&mut self, packet: &EncodedPacket) -> (bytes: Vec<u8>)
        requires
            old(self).wf(),
            old(self)@.can_write_video(packet.data@, packet.pts as int),
            old(self)@.write_video(
                packet.data@,
                packet.pts as int,
                packet.is_keyframe,
            ).stream.len() <= MAX_STREAM_LEN,
        ensures
            final(self).wf(),
            final(self)@ == old(self)@.write_video(
                packet.data@,
                packet.pts as int,
                packet.is_keyframe,
            ),
            final(self)@.stream == old(self)@.stream + bytes@,
            final(self).setup() == old(self).setup(),
    {
        let ghost m = self@;
        let ghost pts = packet.pts as int;
        proof {
            lemma_write_video_indexed(m, packet.data@, pts, packet.is_keyframe);
            assert(m.stream =~= self.history@.delivered);
        }
        let avcc: Vec<u8> = sample_to_avcc(&packet.data);
        if avcc.len() == 0 {
            return self.deliver();
        }
        let ghost sample = (avcc@, packet.is_keyframe);
        if self.origin.is_none() {
            self.origin = Some(packet.pts);
            let ghost started = MovieView { origin: Some(pts), ..m };
            assert(self@ =~= started);
            proof {
                assert(started.ok()) by {
                    assert forall|t: int| 0 <= t < started.audio.len() implies (
                    #[trigger] started.audio[t]).track_id == t + 2 && started.audio[t].ok(
                        started.stream.len() as int,
                    ) by {
                        assert(m.audio[t].ok(m.stream.len() as int));
                    }
                }
                lemma_push_sample_grows(m.with_origin(pts), sample);
            }
            self.admit_prebuffered_audio(packet.pts);
        }
        let ghost before = self@;
        proof {
            lemma_push_sample_ok(before, sample);
        }
        self.video_samples.push((avcc, packet.is_keyframe));
        assert(self@.video_pending =~= before.video_pending.push(sample));
        let ghost next = MovieView { video_pending: before.video_pending.push(sample), ..before };
        assert(self@ =~= next);
        assert(next.without_samples().ok()) by {
            assert forall|t: int| 0 <= t < before.audio.len() implies (
            #[trigger] next.without_samples().audio[t]).track_id == t + 2
                && next.without_samples().audio[t].ok(before.stream.len() as int) by {
                assert(before.audio[t].ok(before.stream.len() as int));
            }
        }
        self.video_fragment_duration = self.video_fragment_duration + VIDEO_SAMPLE_DELTA;
        if self.video_fragment_duration >= self.video_fragment_threshold {
            self.flush_video_fragment();
        }
        self.deliver()
    }

    /// Take in one encoded audio packet for a track. Packets for tracks that do not exist are
    /// ignored; before the origin is known, packets are held back.
    pub fn write_audio_packet(
        &mut self,
        track_index: usize,
        packet: &EncodedAudioPacket,
    ) -> (bytes: Vec<u8>)
        requires
            old(self).wf(),
            old(self)@.can_write_audio(track_index as int, packet.pts as int),
            old(self)@.write_audio(
                track_index as int,
                packet.pts as int,
                packet.data@,
            ).stream.len() <= MAX_STREAM_LEN,
        ensures
            final(self).wf(),
            final(self)@ == old(self)@.write_audio(
                track_index as int,
                packet.pts as int,
                packet.data@,
            ),
            final(self)@.stream == old(self)@.stream + bytes@,
            final(self).setup() == old(self).setup(),
    {
        let ghost m = self@;
        let ghost t = track_index as int;
        proof {
            lemma_write_audio_indexed(m, t, packet.pts as int, packet.data@);
            assert(m.stream =~= self.history@.delivered);
        }
        if track_index >= self.audio.len() {
            return self.deliver();
        }
        let mut unit: Vec<u8> = Vec::new();
        append(&mut unit, &packet.data);
        assert(unit@ =~= packet.data@);
        match self.origin {
            None => {
                self.audio[track_index].prebuffer.push((packet.pts, unit));
                let ghost next = m.write_audio(t, packet.pts as int, packet.data@);
                assert(self.audio@[t]@.prebuffer =~= next.audio[t].prebuffer);
                assert(self.audio@[t]@ =~= next.audio[t]);
                assert(self@.audio =~= next.audio);
                assert(self@ =~= next);
            },
            Some(origin) => {
                self.place_audio(track_index, origin, packet.pts, unit);
            },
        }
        self.deliver()
    }

    /// Finish the movie: write the fragments that are still held, then, if there is any video, a
    /// movie box with full sample tables, and turn the placeholder into the header of a media-data
    /// box that reaches up to it. Audio that is still held back never had an origin, and is
    /// dropped.
    pub fn finish(self) -> (r: Finished)
        requires
            self.wf(),
            self@.flush_all().stream.len() <= MAX_STREAM_LEN,
        ensures
            self@.flush_all().ok(),
            self@.flush_all().indexed(),
            r.patch is Some <==> self@.flush_all().video_written.len() > 0,
            r.patch is None ==> self@.stream + r.tail@ == self@.flush_all().stream,
            r.patch matches Some(patch) ==> {
                &&& self@.stream + r.tail@ == self@.flush_all().stream + final_moov_bytes(
                    self.setup().avcc,
                    self.setup().width,
                    self.setup().height,
                    self.setup().timescale,
                    self@.flush_all().video_index,
                    self@.flush_all().audio,
                )
                &&& patch.0 == ftyp_bytes().len()
                &&& patch.1@ == large_header(
                    fourcc::MDAT@,
                    self@.flush_all().stream.len() - ftyp_bytes().len(),
                )
                &&& patch.1@.len() == PLACEHOLDER_LEN
                &&& has_placeholder(self@.flush_all().head)
            },
            r.patch is Some ==> r.file(self@.stream) == finished_file(
                self@.flush_all().stream,
                final_moov_bytes(
                    self.setup().avcc,
                    self.setup().width,
                    self.setup().height,
                    self.setup().timescale,
                    self@.flush_all().video_index,
                    self@.flush_all().audio,
                ),
            ),
    {
        let ghost m = self@;
        let ghost last = m.flush_all();
        let mut w = self;
        proof {
            lemma_flush_all_indexed(m);
            assert(m.stream =~= w.history@.delivered);
        }
        w.flush_rest();
        let mut tail: Vec<u8> = w.deliver();
        if w.video_index.sample_count() > 0 {
            proof {
                lemma_head_before_stream(last);
                w.lemma_durations_fit();
            }
            let moov: Vec<u8> = build_final_moov(
                &w.avcc,
                w.width,
                w.height,
                w.video_timescale,
                &w.video_index,
                &w.audio,
            );
            let ghost written = tail@;
            append(&mut tail, &moov);
            assert(m.stream + tail@ =~= (m.stream + written) + moov@);
            let header: Vec<u8> = giant_mdat_header(w.file_pos - w.placeholder_offset);
            Finished { tail, patch: Some((w.placeholder_offset, header)) }
        } else {
            Finished { tail, patch: None }
        }
    }

    /// That the durations of a writer's tracks can be computed.
    proof fn lemma_durations_fit(&self)
        requires
            self@.ok(),
        ensures
            duration_fits(self.video_index@),
            forall|i: int| 0 <= i < self.audio@.len() ==> track_fits((#[trigger] self.audio@[i])@),
            track_views(self.audio@) == self@.audio,
    {
        let m = self@;
        assert(m.video_written.len() * 12 <= MAX_STREAM_LEN);
        assert forall|i: int| 0 <= i < self.audio@.len() implies track_fits(
            (#[trigger] self.audio@[i])@,
        ) by {
            self.lemma_track_view(i);
            assert(m.audio[i].ok(m.stream.len() as int));
            assert(m.audio[i].written.len() * 12 <= MAX_STREAM_LEN);
        }
    }

    /// Write the fragments that are still held.
    fn flush_rest(&mut self)
        requires
            old(self).counts(),
            old(self)@.ok(),
            old(self)@.indexed(),
            old(self)@.flush_all().stream.len() <= MAX_STREAM_LEN,
        ensures
            final(self).counts(),
            final(self)@.ok(),
            final(self)@ == old(self)@.flush_all(),
            final(self).fixed() == old(self).fixed(),
    {
        let ghost m = self@;
        let ghost flushed = m.flush_video();
        proof {
            lemma_flush_all_indexed(m);
            lemma_flush_tracks_grows(flushed, 0, m.audio.len() as int);
            assert(m.without_samples().ok()) by {
                assert forall|t: int| 0 <= t < m.audio.len() implies (
                #[trigger] m.without_samples().audio[t]).track_id == t + 2
                    && m.without_samples().audio[t].ok(m.stream.len() as int) by {
                    assert(m.audio[t].ok(m.stream.len() as int));
                }
            }
        }
        self.flush_video_fragment();
        let tracks: usize = self.audio.len();
        let ghost fixed = self.fixed();
        let mut idx: usize = 0;
        while idx < tracks
            invariant
                idx <= tracks,
                tracks == self.audio@.len(),
                self.counts(),
                self@.ok(),
                self.fixed() == fixed,
                self@ == flushed.flush_tracks(idx as int),
                flushed.flush_tracks(tracks as int).stream.len() <= MAX_STREAM_LEN,
            decreases tracks - idx,
        {
            proof {
                lemma_flush_tracks_grows(flushed, idx + 1, tracks as int);
            }
            self.flush_audio_fragment(idx);
            idx = idx + 1;
        }
    }
}

/// The width and height in a packed frame size: the high and the low half.
pub fn read_frame_size(packed: u64) -> (r: (u32, u32))
    ensures
        r.0 == packed as int / 0x1_0000_0000,
        r.1 == packed as int % 0x1_0000_0000,
{
    ((packed / 0x1_0000_0000) as u32, (packed % 0x1_0000_0000) as u32)
}

/// The whole frames per second in a packed ratio: the high half over the low half, which counts as
/// one where it is zero.
pub open spec fn packed_rate(packed: int) -> int {
    let den = packed % 0x1_0000_0000;
    packed / 0x1_0000_0000 / if den == 0 {
        1
    } else {
        den
    }
}

/// The frame rate in a packed ratio.
pub fn read_frame_rate(packed: u64) -> (fps: u32)
    ensures
        fps == packed_rate(packed as int),
{
    let num: u32 = (packed / 0x1_0000_0000) as u32;
    let den: u32 = (packed % 0x1_0000_0000) as u32;
    if den == 0 {
        num
    } else {
        num / den
    }
}

/// What is wrong with a sequence header, if anything.
pub open spec fn header_fault(sequence_header: Seq<u8>) -> Option<Seq<char>> {
    let units = nal_units(sequence_header);
    match (first_of_type(units, NAL_SPS as int), first_of_type(units, NAL_PPS as int)) {
        (None, _) => Some(NO_SPS@),
        (Some(_), None) => Some(NO_PPS@),
        (Some(sps), Some(_)) => if sps.len() < 4 {
            Some(SHORT_SPS@)
        } else {
            None
        },
    }
}

/// The decoder configuration record that a sequence header without faults gives.
pub open spec fn header_record(sequence_header: Seq<u8>) -> Seq<u8> {
    let units = nal_units(sequence_header);
    avcc_record(
        first_of_type(units, NAL_SPS as int).unwrap(),
        first_of_type(units, NAL_PPS as int).unwrap(),
    )
}

/// The movie that [`Fmp4Writer::create`] starts.
pub open spec fn created_movie(
    sequence_header: Seq<u8>,
    frame_size: int,
    frame_rate: int,
    configs: Seq<AudioTrackConfig>,
) -> MovieView {
    new_movie(
        header_record(sequence_header),
        frame_size / 0x1_0000_0000,
        frame_size % 0x1_0000_0000,
        packed_rate(frame_rate),
        configs,
    )
}

impl Fmp4Writer {
    /// Start a movie from an encoder's output: its sequence header, in Annex-B form, and its frame
    /// size and frame rate, both packed. Gives the writer and the bytes that the file begins with.
    pub fn create(
        sequence_header: &[u8],
        frame_size: u64,
        frame_rate: u64,
        audio_tracks: &[AudioTrackConfig],
    ) -> (r: Result<(Self, Vec<u8>), MuxError>)
        requires
            packed_rate(frame_rate as int) * 1000 <= u32::MAX,
            audio_tracks@.len() + FIRST_AUDIO_TRACK_ID <= u32::MAX,
            created_movie(
                sequence_header@,
                frame_size as int,
                frame_rate as int,
                audio_tracks@,
            ).stream.len() <= MAX_STREAM_LEN,
        ensures
            r is Ok <==> header_fault(sequence_header@) is None,
            r matches Err(e) ==> header_fault(sequence_header@) == Some(e.text()),
            r matches Ok(started) ==> {
                &&& started.0.wf()
                &&& started.0@ == created_movie(
                    sequence_header@,
                    frame_size as int,
                    frame_rate as int,
                    audio_tracks@,
                )
                &&& started.1@ == started.0@.stream
                &&& started.0.setup() == setup_view(
                    header_record(sequence_header@),
                    frame_size as int / 0x1_0000_0000,
                    frame_size as int % 0x1_0000_0000,
                    packed_rate(frame_rate as int) * 1000,
                )
            },
    {
        let (width, height) = read_frame_size(frame_size);
        let fps: u32 = read_frame_rate(frame_rate);
        let nals: Vec<&[u8]> = annexb_nals(sequence_header);
        let ghost units = nal_units(sequence_header@);
        let sps: &[u8] = match find_unit(&nals, NAL_SPS, Ghost(units)) {
            Some(sps) => sps,
            None => {
                return Err(MuxError::InvalidStream(NO_SPS));
            },
        };
        let pps: &[u8] = match find_unit(&nals, NAL_PPS, Ghost(units)) {
            Some(pps) => pps,
            None => {
                return Err(MuxError::InvalidStream(NO_PPS));
            },
        };
        if sps.len() < 4 {
            return Err(MuxError::InvalidStream(SHORT_SPS));
        }
        let avcc: Vec<u8> = build_avcc(sps, pps);
        Ok(Self::create_from_parts(avcc, width, height, fps, audio_tracks))
    }
}

/// The name under which a movie is written until it is finished.
pub fn part_path_for(final_path: &str) -> (part: String)
    ensures
        part@ == final_path@ + PART_SUFFIX@,
{
    let mut part: String = String::from_str(final_path);
    part.append(PART_SUFFIX);
    part
}

/// The head is part of the stream.
proof fn lemma_head_before_stream(m: MovieView)
    requires
        m.ok(),
    ensures
        m.head.len() <= m.stream.len(),
        m.stream.take(m.head.len() as int) == m.head,
{
    assert(m.stream.take(m.head.len() as int) =~= m.head);
}

/// Units that can be placed can be placed up to any of them.
proof fn lemma_can_place_prefix(
    m: MovieView,
    t: int,
    origin: int,
    units: Seq<(int, Seq<u8>)>,
    a: int,
    b: int,
)
    requires
        a <= b,
        m.can_place_units(t, origin, units, b),
    ensures
        m.can_place_units(t, origin, units, a),
    decreases b,
{
    if a < b && b > 0 {
        lemma_can_place_prefix(m, t, origin, units, a, b - 1);
    }
}

/// Tracks that can be released can be released up to any of them.
proof fn lemma_can_release_prefix(m: MovieView, origin: int, a: int, b: int)
    requires
        a <= b,
        m.can_release(origin, b),
    ensures
        m.can_release(origin, a),
    decreases b,
{
    if a < b && b > 0 {
        lemma_can_release_prefix(m, origin, a, b - 1);
    }
}

} // verus!
