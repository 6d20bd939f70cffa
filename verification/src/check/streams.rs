//! The streams of a clip: what a listing says of them, and whether they are the right ones.

use vstd::prelude::*;

use crate::check::micros::{pieces, split, views};
use crate::seqs::{lemma_filter_none, lemma_filter_take};
use crate::text::{decimal, parse_number, parsed_number, push_decimal, same_text, trim, trimmed};

verus! {

/// One outcome of a check: its name, whether it holds, and the evidence.
#[derive(Debug, Clone, PartialEq, Eq)]
pub struct Check {
    pub name: String,
    pub pass: bool,
    pub detail: String,
}

/// What an outcome says.
#[verifier::ext_equal]
pub struct CheckView {
    pub name: Seq<char>,
    pub pass: bool,
    pub detail: Seq<char>,
}

impl View for Check {
    type V = CheckView;

    open spec fn view(&self) -> CheckView {
        CheckView { name: self.name@, pass: self.pass, detail: self.detail@ }
    }
}

impl Check {
    /// An outcome that holds.
    pub fn pass(name: String, detail: String) -> (c: Self)
        ensures
            c@ == (CheckView { name: name@, pass: true, detail: detail@ }),
    {
        Check { name, pass: true, detail }
    }

    /// An outcome that does not hold.
    pub fn fail(name: String, detail: String) -> (c: Self)
        ensures
            c@ == (CheckView { name: name@, pass: false, detail: detail@ }),
    {
        Check { name, pass: false, detail }
    }
}

/// One stream: of which kind, by which codec, and for sound how fast and how wide.
#[derive(Debug, Clone, PartialEq, Eq)]
pub struct StreamInfo {
    pub codec_type: String,
    pub codec_name: String,
    pub sample_rate: Option<u32>,
    pub channels: Option<u32>,
}

/// What is said of a stream.
#[verifier::ext_equal]
pub struct StreamView {
    pub codec_type: Seq<char>,
    pub codec_name: Seq<char>,
    pub sample_rate: Option<u32>,
    pub channels: Option<u32>,
}

impl View for StreamInfo {
    type V = StreamView;

    open spec fn view(&self) -> StreamView {
        StreamView {
            codec_type: self.codec_type@,
            codec_name: self.codec_name@,
            sample_rate: self.sample_rate,
            channels: self.channels,
        }
    }
}

/// Frames over seconds.
#[derive(Debug, Clone, Copy, PartialEq, Eq, Structural)]
pub struct FrameRate {
    pub num: u32,
    pub den: u32,
}

/// A frame rate from two numbers with a stroke between them; none over zero.
pub open spec fn rate_of(s: Seq<char>) -> Option<FrameRate> {
    match once(s, '/') {
        Some((n, d)) => match (
            parsed_number(trimmed(n), u32::MAX as int),
            parsed_number(trimmed(d), u32::MAX as int),
        ) {
            (Some(num), Some(den)) => if den == 0 {
                None
            } else {
                Some(FrameRate { num: num as u32, den: den as u32 })
            },
            _ => None,
        },
        None => None,
    }
}

/// The first place of a character, from `i` on.
pub open spec fn place_of(s: Seq<char>, c: char, i: int) -> Option<int>
    decreases s.len() - i,
{
    if i < 0 || i >= s.len() {
        None
    } else if s[i] == c {
        Some(i)
    } else {
        place_of(s, c, i + 1)
    }
}

/// What stands before and behind the first place of a character.
pub open spec fn once(s: Seq<char>, c: char) -> Option<(Seq<char>, Seq<char>)> {
    match place_of(s, c, 0) {
        Some(i) => Some((s.subrange(0, i), s.subrange(i + 1, s.len() as int))),
        None => None,
    }
}

/// What stands before and behind the first place of a character.
fn split_once<'a>(s: &'a str, c: char) -> (r: Option<(&'a str, &'a str)>)
    ensures
        r is Some <==> once(s@, c) is Some,
        r matches Some((a, b)) ==> once(s@, c) == Some((a@, b@)),
{
    let n: usize = s.unicode_len();
    let mut i: usize = 0;
    while i < n
        invariant
            i <= n,
            n == s@.len(),
            place_of(s@, c, 0) == place_of(s@, c, i as int),
        decreases n - i,
    {
        if s.get_char(i) == c {
            return Some((s.substring_char(0, i), s.substring_char(i + 1, n)));
        }
        i = i + 1;
    }
    None
}

/// A small number that a text writes.
fn parse_small(s: &str) -> (r: Option<u32>)
    ensures
        r == small(s@),
{
    match parse_number(s, u32::MAX as u64) {
        Some(n) => Some(n as u32),
        None => None,
    }
}

/// A small number that a text writes.
pub open spec fn small(s: Seq<char>) -> Option<u32> {
    match parsed_number(s, u32::MAX as int) {
        Some(n) => Some(n as u32),
        None => None,
    }
}

/// A frame rate from two numbers with a stroke between them.
pub fn parse_rational(s: &str) -> (r: Option<FrameRate>)
    ensures
        r == rate_of(s@),
{
    match split_once(s, '/') {
        Some((n, d)) => match parse_number(trim(n), u32::MAX as u64) {
            Some(num) => match parse_number(trim(d), u32::MAX as u64) {
                Some(den) => if den == 0 {
                    None
                } else {
                    Some(FrameRate { num: num as u32, den: den as u32 })
                },
                None => None,
            },
            None => None,
        },
        None => None,
    }
}

/// A stream as it is listed.
#[derive(Debug, Clone, PartialEq, Eq)]
pub struct RawStream {
    pub info: StreamInfo,
    pub avg_frame_rate: Option<FrameRate>,
}

/// What a listing says of a stream.
#[verifier::ext_equal]
pub struct RawView {
    pub info: StreamView,
    pub avg_frame_rate: Option<FrameRate>,
}

impl View for RawStream {
    type V = RawView;

    open spec fn view(&self) -> RawView {
        RawView { info: self.info@, avg_frame_rate: self.avg_frame_rate }
    }
}

/// A stream of which nothing is said.
pub open spec fn blank() -> RawView {
    RawView {
        info: StreamView {
            codec_type: Seq::empty(),
            codec_name: Seq::empty(),
            sample_rate: None,
            channels: None,
        },
        avg_frame_rate: None,
    }
}

/// A stream after one more line was read. A line without an equals sign, or with a key that is of
/// no interest, says nothing.
pub open spec fn with_line(s: RawView, line: Seq<char>) -> RawView {
    match once(line, '=') {
        None => s,
        Some((key, value)) => {
            let key = trimmed(key);
            let value = trimmed(value);
            if key == "codec_type"@ {
                RawView { info: StreamView { codec_type: value, ..s.info }, ..s }
            } else if key == "codec_name"@ {
                RawView { info: StreamView { codec_name: value, ..s.info }, ..s }
            } else if key == "sample_rate"@ {
                RawView { info: StreamView { sample_rate: small(value), ..s.info }, ..s }
            } else if key == "channels"@ {
                RawView { info: StreamView { channels: small(value), ..s.info }, ..s }
            } else if key == "avg_frame_rate"@ {
                RawView { avg_frame_rate: rate_of(value), ..s }
            } else {
                s
            }
        },
    }
}

/// A stream after some lines.
pub open spec fn with_lines(lines: Seq<Seq<char>>) -> RawView
    decreases lines.len(),
{
    if lines.len() == 0 {
        blank()
    } else {
        with_line(with_lines(lines.drop_last()), lines.last())
    }
}

impl RawStream {
    /// Take in one more line.
    fn take_line(&mut self, line: &str)
        ensures
            final(self)@ == with_line(old(self)@, line@),
    {
        match split_once(line, '=') {
            None => {},
            Some((key, value)) => {
                let key: &str = trim(key);
                let value: &str = trim(value);
                if same_text(key, "codec_type") {
                    self.info.codec_type = String::from_str(value);
                } else if same_text(key, "codec_name") {
                    self.info.codec_name = String::from_str(value);
                } else if same_text(key, "sample_rate") {
                    self.info.sample_rate = parse_small(value);
                } else if same_text(key, "channels") {
                    self.info.channels = parse_small(value);
                } else if same_text(key, "avg_frame_rate") {
                    self.avg_frame_rate = parse_rational(value);
                }
            },
        }
    }
}

/// A stream from what is listed of it.
fn parse_block(body: &str) -> (s: RawStream)
    ensures
        s@ == with_lines(pieces(body@, '\n')),
{
    let lines: Vec<&str> = split(body, '\n');
    let ghost all = views(lines@);
    let mut s: RawStream = RawStream {
        info: StreamInfo {
            codec_type: String::new(),
            codec_name: String::new(),
            sample_rate: None,
            channels: None,
        },
        avg_frame_rate: None,
    };
    let n: usize = lines.len();
    let mut i: usize = 0;
    assert(s@ =~= blank());
    assert(all.take(0).len() == 0);
    while i < n
        invariant
            i <= n,
            n == lines@.len(),
            all == views(lines@),
            s@ == with_lines(all.take(i as int)),
        decreases n - i,
    {
        assert(all.take(i + 1).drop_last() =~= all.take(i as int));
        assert(all.take(i + 1).last() == lines@[i as int]@);
        s.take_line(lines[i]);
        i = i + 1;
    }
    assert(all.take(n as int) =~= all);
    s
}

/// The first place of a text in another, from `i` on.
pub open spec fn found_at(s: Seq<char>, word: Seq<char>, i: int) -> Option<int>
    decreases s.len() + 1 - i,
{
    if i < 0 || i + word.len() > s.len() {
        None
    } else if s.subrange(i, i + word.len()) == word {
        Some(i)
    } else {
        found_at(s, word, i + 1)
    }
}

/// The first place of a text in another, from `from` on.
fn find_text(s: &str, word: &str, from: usize) -> (r: Option<usize>)
    requires
        from <= s@.len(),
        0 < word@.len() < 100,
    ensures
        r is Some <==> found_at(s@, word@, from as int) is Some,
        r matches Some(i) ==> found_at(s@, word@, from as int) == Some(i as int) && from <= i && i
            + word@.len() <= s@.len(),
{
    let n: usize = s.unicode_len();
    let k: usize = word.unicode_len();
    let mut i: usize = from;
    while i < n && k <= n - i
        invariant
            from <= i <= n,
            n == s@.len(),
            k == word@.len(),
            k > 0,
            found_at(s@, word@, from as int) == found_at(s@, word@, i as int),
        decreases n - i,
    {
        if same_text(s.substring_char(i, i + k), word) {
            return Some(i);
        }
        i = i + 1;
    }
    None
}

/// Where a stream's part of a listing begins.
pub const STREAM_OPEN: &'static str = "[STREAM]";

/// Where it ends.
pub const STREAM_CLOSE: &'static str = "[/STREAM]";

/// What a part of a listing says: up to its end, where that is marked.
pub open spec fn body_of(block: Seq<char>) -> Seq<char> {
    match found_at(block, STREAM_CLOSE@, 0) {
        Some(i) => block.subrange(0, i),
        None => block,
    }
}

/// Where the next part of a listing begins, or the listing ends.
pub open spec fn block_end(s: Seq<char>, start: int) -> int {
    match found_at(s, STREAM_OPEN@, start) {
        Some(i) => i,
        None => s.len() as int,
    }
}

/// The streams that a listing holds from `i` on. A part without a kind is no stream.
pub open spec fn listed_from(s: Seq<char>, i: int) -> Seq<RawView>
    decreases s.len() - i,
{
    match found_at(s, STREAM_OPEN@, i) {
        None => Seq::empty(),
        Some(at) => {
            let start = at + STREAM_OPEN@.len();
            if start <= i || start > s.len() {
                Seq::empty()
            } else {
                let stream = with_lines(
                    pieces(body_of(s.subrange(start, block_end(s, start))), '\n'),
                );
                (if stream.info.codec_type.len() == 0 {
                    Seq::empty()
                } else {
                    seq![stream]
                }) + listed_from(s, start)
            }
        },
    }
}

/// What streams say.
pub open spec fn raw_views(v: Seq<RawStream>) -> Seq<RawView> {
    v.map_values(|s: RawStream| s@)
}

/// The streams that a listing holds.
pub fn parse_streams(text: &str) -> (v: Vec<RawStream>)
    ensures
        raw_views(v@) == listed_from(text@, 0),
{
    proof {
        reveal_strlit("[STREAM]");
        reveal_strlit("[/STREAM]");
    }
    let mut v: Vec<RawStream> = Vec::new();
    let n: usize = text.unicode_len();
    let mut from: usize = 0;
    assert(raw_views(v@) + listed_from(text@, 0) =~= listed_from(text@, 0));
    loop
        invariant
            from <= n,
            n == text@.len(),
            STREAM_OPEN@.len() == 8,
            STREAM_CLOSE@.len() == 9,
            raw_views(v@) + listed_from(text@, from as int) == listed_from(text@, 0),
        decreases n - from,
    {
        match find_text(text, STREAM_OPEN, from) {
            None => {
                assert(raw_views(v@) =~= listed_from(text@, 0));
                return v;
            },
            Some(at) => {
                let start: usize = at + 8;
                let end: usize = match find_text(text, STREAM_OPEN, start) {
                    Some(i) => i,
                    None => n,
                };
                let block: &str = text.substring_char(start, end);
                let stop: usize = match find_text(block, STREAM_CLOSE, 0) {
                    Some(i) => i,
                    None => block.unicode_len(),
                };
                let body: &str = block.substring_char(0, stop);
                assert(body@ =~= body_of(block@));
                let stream: RawStream = parse_block(body);
                let ghost before = v@;
                let ghost rest = listed_from(text@, start as int);
                if stream.info.codec_type.as_str().unicode_len() != 0 {
                    v.push(stream);
                    assert(raw_views(v@) + rest =~= raw_views(before) + (seq![stream@] + rest));
                } else {
                    assert(raw_views(v@) + rest =~= raw_views(before) + (Seq::empty() + rest));
                }
                from = start;
            },
        }
    }
}

/// What is said of a clip in which no stream was found.
pub open spec fn no_streams_text(clip: Seq<char>) -> Seq<char> {
    "ffprobe found no streams in '"@ + clip + "' (is it a valid clip and ffprobe on PATH?)"@
}

/// The streams that the listing of a clip holds. One without streams is a fault.
pub fn listed_streams(clip: &str, text: &str) -> (r: Result<Vec<RawStream>, String>)
    ensures
        r is Err <==> listed_from(text@, 0).len() == 0,
        r matches Ok(v) ==> raw_views(v@) == listed_from(text@, 0),
        r matches Err(why) ==> why@ == no_streams_text(clip@),
{
    let v: Vec<RawStream> = parse_streams(text);
    assert(raw_views(v@).len() == v@.len());
    if v.len() > 0 {
        return Ok(v);
    }
    let mut why: String = String::from_str("ffprobe found no streams in '");
    why.append(clip);
    why.append("' (is it a valid clip and ffprobe on PATH?)");
    Err(why)
}

/// What is said of streams.
pub open spec fn stream_views(v: Seq<StreamInfo>) -> Seq<StreamView> {
    v.map_values(|s: StreamInfo| s@)
}

/// The streams of a kind.
pub open spec fn of_kind(streams: Seq<StreamView>, kind: Seq<char>) -> Seq<StreamView> {
    streams.filter(|s: StreamView| s.codec_type == kind)
}

/// The streams at some places.
pub open spec fn picked(streams: Seq<StreamView>, places: Seq<usize>) -> Seq<StreamView> {
    places.map_values(|i: usize| streams[i as int])
}

/// The places of the streams of a kind.
pub fn find_kind(streams: &[StreamInfo], kind: &str) -> (places: Vec<usize>)
    ensures
        picked(stream_views(streams@), places@) == of_kind(stream_views(streams@), kind@),
        forall|k: int| 0 <= k < places@.len() ==> #[trigger] places@[k] < streams@.len(),
{
    let ghost pred = |s: StreamView| s.codec_type == kind@;
    let ghost all = stream_views(streams@);
    let mut places: Vec<usize> = Vec::new();
    let n: usize = streams.len();
    let mut i: usize = 0;
    proof {
        lemma_filter_none(all, pred);
    }
    assert(picked(all, places@) =~= all.take(0).filter(pred));
    while i < n
        invariant
            i <= n,
            n == streams@.len(),
            all == stream_views(streams@),
            pred == (|s: StreamView| s.codec_type == kind@),
            picked(all, places@) == all.take(i as int).filter(pred),
            forall|k: int| 0 <= k < places@.len() ==> #[trigger] places@[k] < streams@.len(),
        decreases n - i,
    {
        let ghost before = places@;
        proof {
            lemma_filter_take(all, pred, i as int);
        }
        if same_text(streams[i].codec_type.as_str(), kind) {
            places.push(i);
            assert(picked(all, places@) =~= picked(all, before).push(all[i as int]));
        }
        i = i + 1;
    }
    assert(all.take(n as int) =~= all);
    places
}

/// A number that may be missing, as it is shown.
pub open spec fn shown(n: Option<u32>) -> Seq<char> {
    match n {
        Some(n) => "Some("@ + decimal(n as int) + ")"@,
        None => "None"@,
    }
}

/// Append a number that may be missing.
fn push_shown(s: &mut String, n: Option<u32>)
    ensures
        final(s)@ == old(s)@ + shown(n),
{
    let word: String = match n {
        Some(n) => {
            let mut w: String = String::from_str("Some(");
            push_decimal(&mut w, n as u64);
            w.append(")");
            w
        },
        None => String::from_str("None"),
    };
    s.append(word.as_str());
}

/// What is wrong with the sound track of a number: it is to be AAC, 48 kHz, stereo.
pub open spec fn track_fault(i: int, s: StreamView) -> Option<Seq<char>> {
    if s.codec_name != "aac"@ {
        Some("audio track "@ + decimal(i) + " codec is '"@ + s.codec_name + "', expected 'aac'"@)
    } else if s.sample_rate != Some(48_000u32) {
        Some(
            "audio track "@ + decimal(i) + " sample rate is "@ + shown(s.sample_rate)
                + ", expected 48000"@,
        )
    } else if s.channels != Some(2u32) {
        Some(
            "audio track "@ + decimal(i) + " channels is "@ + shown(s.channels) + ", expected 2"@,
        )
    } else {
        None
    }
}

/// What is wrong with a sound track.
fn check_track(i: usize, s: &StreamInfo) -> (fault: Option<String>)
    ensures
        fault is Some <==> track_fault(i as int, s@) is Some,
        fault matches Some(f) ==> track_fault(i as int, s@) == Some(f@),
{
    let mut f: String = String::from_str("audio track ");
    push_decimal(&mut f, i as u64);
    if !same_text(s.codec_name.as_str(), "aac") {
        f.append(" codec is '");
        f.append(s.codec_name.as_str());
        f.append("', expected 'aac'");
        return Some(f);
    }
    if s.sample_rate != Some(48_000u32) {
        f.append(" sample rate is ");
        push_shown(&mut f, s.sample_rate);
        f.append(", expected 48000");
        return Some(f);
    }
    if s.channels != Some(2u32) {
        f.append(" channels is ");
        push_shown(&mut f, s.channels);
        f.append(", expected 2");
        return Some(f);
    }
    None
}

/// What is wrong with the first sound track, from `i` on, with which something is.
pub open spec fn tracks_fault(audio: Seq<StreamView>, i: int) -> Option<Seq<char>>
    decreases audio.len() - i,
{
    if i < 0 || i >= audio.len() {
        None
    } else {
        match track_fault(i, audio[i]) {
            Some(f) => Some(f),
            None => tracks_fault(audio, i + 1),
        }
    }
}

/// What is wrong with the streams of a clip: there is to be one picture, in H.264, and sound.
pub open spec fn shape_fault(streams: Seq<StreamView>) -> Option<Seq<char>> {
    let video = of_kind(streams, "video"@);
    let audio = of_kind(streams, "audio"@);
    if video.len() != 1 {
        Some("expected exactly 1 video stream, found "@ + decimal(video.len() as int))
    } else if video[0].codec_name != "h264"@ {
        Some("video codec is '"@ + video[0].codec_name + "', expected 'h264'"@)
    } else if audio.len() == 0 {
        Some("no audio streams (expected ≥ 1 AAC track)"@)
    } else {
        tracks_fault(audio, 0)
    }
}

/// The name of the check of the streams.
pub const SHAPE: &'static str = "stream shape (1 h264 + N aac 48k/2ch, §2.5/§2.6)";

/// The outcome of the check of the streams.
pub open spec fn shape_outcome(streams: Seq<StreamView>) -> CheckView {
    match shape_fault(streams) {
        Some(fault) => CheckView { name: SHAPE@, pass: false, detail: fault },
        None => CheckView {
            name: SHAPE@,
            pass: true,
            detail: "1 h264 video + "@ + decimal(of_kind(streams, "audio"@).len() as int)
                + " aac-LC 48 kHz stereo track(s)"@,
        },
    }
}

/// Whether the streams are one H.264 picture and one or more AAC tracks, 48 kHz, stereo.
pub fn check_stream_shape(streams: &[StreamInfo]) -> (c: Check)
    ensures
        c@ == shape_outcome(stream_views(streams@)),
{
    let ghost all = stream_views(streams@);
    let name: String = String::from_str(SHAPE);
    let video: Vec<usize> = find_kind(streams, "video");
    let audio: Vec<usize> = find_kind(streams, "audio");
    let ghost videos = of_kind(all, "video"@);
    let ghost audios = of_kind(all, "audio"@);
    assert(videos.len() == video@.len());
    assert(audios.len() == audio@.len());
    if video.len() != 1 {
        let mut f: String = String::from_str("expected exactly 1 video stream, found ");
        push_decimal(&mut f, video.len() as u64);
        return Check::fail(name, f);
    }
    assert(videos[0] == streams@[video@[0] as int]@);
    if !same_text(streams[video[0]].codec_name.as_str(), "h264") {
        let mut f: String = String::from_str("video codec is '");
        f.append(streams[video[0]].codec_name.as_str());
        f.append("', expected 'h264'");
        return Check::fail(name, f);
    }
    let n: usize = audio.len();
    if n == 0 {
        return Check::fail(name, String::from_str("no audio streams (expected ≥ 1 AAC track)"));
    }
    let mut i: usize = 0;
    while i < n
        invariant
            i <= n,
            n == audio@.len(),
            n == audios.len(),
            n > 0,
            name@ == SHAPE@,
            all == stream_views(streams@),
            videos == of_kind(all, "video"@),
            audios == of_kind(all, "audio"@),
            videos.len() == 1,
            videos[0].codec_name == "h264"@,
            picked(all, audio@) == audios,
            forall|k: int| 0 <= k < audio@.len() ==> #[trigger] audio@[k] < streams@.len(),
            tracks_fault(audios, 0) == tracks_fault(audios, i as int),
        decreases n - i,
    {
        assert(audios[i as int] == streams@[audio@[i as int] as int]@);
        match check_track(i, &streams[audio[i]]) {
            Some(f) => {
                return Check::fail(name, f);
            },
            None => {},
        }
        i = i + 1;
    }
    let mut d: String = String::from_str("1 h264 video + ");
    push_decimal(&mut d, n as u64);
    d.append(" aac-LC 48 kHz stereo track(s)");
    Check::pass(name, d)
}

} // verus!
