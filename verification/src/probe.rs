//! The probes: what they count of a stream, and what they are asked for.

use vstd::prelude::*;

use crate::audio::{AudioDevice, AudioTrackKind};
use crate::cli::args::{arg_at, texts};
use crate::cli::plan::{average_kbps, avg_kbps};
use crate::config::{app_views, VcApp};
use crate::constants::audio::aac::FRAME_SAMPLES;
use crate::constants::audio::SAMPLE_RATE_HZ;
use crate::constants::units::TICKS_PER_SECOND;
use crate::text::{decimal, parse_number, parsed_number, push_decimal, said, same_text};

pub mod counts;

verus! {

/// A packet of sound as a probe sees it.
#[derive(Debug, Clone, Copy, PartialEq, Eq, Structural)]
pub struct ProbePacket {
    /// When it was captured, in ticks.
    pub pts: i64,
    pub frames: u32,
    pub sample_rate: u32,
    pub silent: bool,
    /// The device was not sure of the time.
    pub timestamp_error: bool,
}

/// What a probe has counted of a stream.
#[derive(Debug, Clone, Copy, PartialEq, Eq)]
pub struct StreamStat {
    pub packets: u64,
    pub frames: u64,
    pub silent: u64,
    pub timestamp_errors: u64,
    pub rate: u32,
    /// The time of the first packet.
    pub first: Option<i64>,
    /// The time of the last packet, and its frames.
    pub prev: Option<(i64, u32)>,
    /// The longest time, in ticks, that was missing between two packets.
    pub max_gap_ticks: i64,
}

/// How long some frames last, in ticks. A rate of zero is taken for one.
pub open spec fn frames_ticks(frames: u32, rate: u32) -> int {
    frames * TICKS_PER_SECOND / if rate == 0 {
        1int
    } else {
        rate as int
    }
}

/// The time that is missing between the last packet and the next one.
pub open spec fn gap_before(prev: Option<(i64, u32)>, p: ProbePacket) -> int {
    match prev {
        Some((pts, frames)) => p.pts - (pts + frames_ticks(frames, p.sample_rate)),
        None => 0,
    }
}

/// The count after one more packet.
pub open spec fn counted(s: StreamStat, p: ProbePacket) -> StreamStat {
    StreamStat {
        packets: (s.packets + 1) as u64,
        frames: (s.frames + p.frames) as u64,
        silent: (s.silent + if p.silent {
            1int
        } else {
            0
        }) as u64,
        timestamp_errors: (s.timestamp_errors + if p.timestamp_error {
            1int
        } else {
            0
        }) as u64,
        rate: p.sample_rate,
        first: if s.first is None {
            Some(p.pts)
        } else {
            s.first
        },
        prev: Some((p.pts, p.frames)),
        max_gap_ticks: if s.prev is Some && gap_before(s.prev, p) > s.max_gap_ticks {
            gap_before(s.prev, p) as i64
        } else {
            s.max_gap_ticks
        },
    }
}

/// Whether one more packet can be counted.
pub open spec fn countable(s: StreamStat, p: ProbePacket) -> bool {
    &&& s.packets < u64::MAX
    &&& s.frames + p.frames <= u64::MAX
    &&& s.silent < u64::MAX
    &&& s.timestamp_errors < u64::MAX
    &&& s.prev matches Some((pts, frames)) ==> pts + frames_ticks(frames, p.sample_rate)
        <= i64::MAX
    &&& i64::MIN <= gap_before(s.prev, p) <= i64::MAX
}

impl StreamStat {
    /// Nothing counted yet.
    pub fn new() -> (s: Self)
        ensures
            s == (StreamStat {
                packets: 0,
                frames: 0,
                silent: 0,
                timestamp_errors: 0,
                rate: 0,
                first: None,
                prev: None,
                max_gap_ticks: 0,
            }),
    {
        StreamStat {
            packets: 0,
            frames: 0,
            silent: 0,
            timestamp_errors: 0,
            rate: 0,
            first: None,
            prev: None,
            max_gap_ticks: 0,
        }
    }

    /// Count one more packet. What is missing is the time from the end of the last packet to the
    /// beginning of this one.
    pub fn count(&mut self, p: ProbePacket)
        requires
            countable(*old(self), p),
        ensures
            *final(self) == counted(*old(self), p),
    {
        self.packets = self.packets + 1;
        self.frames = self.frames + p.frames as u64;
        self.rate = p.sample_rate;
        if p.silent {
            self.silent = self.silent + 1;
        }
        if p.timestamp_error {
            self.timestamp_errors = self.timestamp_errors + 1;
        }
        if self.first.is_none() {
            self.first = Some(p.pts);
        }
        match self.prev {
            Some((pts, frames)) => {
                let rate: i128 = if p.sample_rate == 0 {
                    1
                } else {
                    p.sample_rate as i128
                };
                let span: i128 = frames as i128 * TICKS_PER_SECOND as i128;
                proof {
                    lemma_quotient(span as int, rate as int);
                }
                let lasts: i64 = (span / rate) as i64;
                assert(lasts == frames_ticks(frames, p.sample_rate));
                let gap: i64 = p.pts - (pts + lasts);
                assert(gap == gap_before(old(self).prev, p));
                if gap > self.max_gap_ticks {
                    self.max_gap_ticks = gap;
                }
            },
            None => {},
        }
        self.prev = Some((p.pts, p.frames));
    }

    /// Count what was captured, where that is anything.
    pub fn count_captured(&mut self, p: ProbePacket)
        requires
            p.frames > 0 ==> countable(*old(self), p),
        ensures
            *final(self) == if p.frames > 0 {
                counted(*old(self), p)
            } else {
                *old(self)
            },
    {
        if p.frames > 0 {
            self.count(p);
        }
    }

    /// The time from the first packet to the last, in ticks; zero where time went back.
    pub fn span_ticks(&self) -> (t: u64)
        ensures
            t == match (self.first, self.prev) {
                (Some(first), Some((last, _))) => if last < first {
                    0
                } else {
                    last - first
                },
                _ => 0,
            },
    {
        match self.first {
            Some(first) => match self.prev {
                Some((last, _)) => if last < first {
                    0
                } else {
                    (last as i128 - first as i128) as u64
                },
                None => 0,
            },
            None => 0,
        }
    }
}

/// A quotient is no larger than what was divided.
proof fn lemma_quotient(a: int, b: int)
    requires
        0 <= a <= 0x1_0000_0000 * 10_000_000,
        b >= 1,
    ensures
        0 <= a / b <= a,
{
    assert(0 <= a / b <= a) by (nonlinear_arith)
        requires
            0 <= a,
            b >= 1,
    ;
}

/// Law: packets that follow one another without a gap leave the longest gap as it was.
pub proof fn lemma_no_gap_no_change(s: StreamStat, p: ProbePacket)
    requires
        gap_before(s.prev, p) <= s.max_gap_ticks,
    ensures
        counted(s, p).max_gap_ticks == s.max_gap_ticks,
        counted(s, p).prev == Some((p.pts, p.frames)),
{
}

/// What the loopback probe is asked for.
#[derive(Debug, Clone, PartialEq, Eq)]
pub struct LoopbackArgs {
    pub pid: u32,
    /// Take the process and what it started, rather than all else.
    pub include_tree: bool,
    pub seconds: u64,
    /// Write to this file, or else to one named after the process.
    pub out: Option<String>,
    /// Play a tone.
    pub tone: bool,
}

/// Why the loopback probe's arguments are refused.
#[derive(Debug, Clone, PartialEq, Eq)]
pub enum LoopbackFault {
    /// Help was asked for.
    Help,
    /// The option has no value.
    NeedsValue(&'static str),
    /// The option's value is no number that fits.
    BadNumber(&'static str, String),
    /// There is no such option.
    Unknown(String),
}

/// What a fault says.
pub enum FaultView {
    Help,
    NeedsValue(Seq<char>),
    BadNumber(Seq<char>, Seq<char>),
    Unknown(Seq<char>),
}

impl View for LoopbackFault {
    type V = FaultView;

    open spec fn view(&self) -> FaultView {
        match *self {
            LoopbackFault::Help => FaultView::Help,
            LoopbackFault::NeedsValue(option) => FaultView::NeedsValue(option@),
            LoopbackFault::BadNumber(option, value) => FaultView::BadNumber(option@, value@),
            LoopbackFault::Unknown(arg) => FaultView::Unknown(arg@),
        }
    }
}

/// What was read of the loopback probe's arguments.
#[verifier::ext_equal]
pub struct LoopbackView {
    pub pid: Option<u32>,
    pub include_tree: bool,
    pub seconds: u64,
    pub out: Option<Seq<char>>,
    pub tone: Option<bool>,
}

/// What is read where nothing in particular is asked for.
pub open spec fn usual_loopback() -> LoopbackView {
    LoopbackView { pid: None, include_tree: true, seconds: 8, out: None, tone: None }
}

/// What is read of an option that takes a value.
pub open spec fn valued(v: LoopbackView, name: Seq<char>, value: Option<Seq<char>>) -> Result<
    LoopbackView,
    FaultView,
> {
    match value {
        None => Err(FaultView::NeedsValue(name)),
        Some(value) => if name == "--pid"@ {
            match parsed_number(value, u32::MAX as int) {
                Some(n) => Ok(LoopbackView { pid: Some(n as u32), ..v }),
                None => Err(FaultView::BadNumber(name, value)),
            }
        } else if name == "--seconds"@ {
            match parsed_number(value, u64::MAX as int) {
                Some(n) => Ok(LoopbackView { seconds: n as u64, ..v }),
                None => Err(FaultView::BadNumber(name, value)),
            }
        } else {
            Ok(LoopbackView { out: Some(value), ..v })
        },
    }
}

/// What is read of the arguments from a place on.
pub open spec fn loopback_from(args: Seq<Seq<char>>, i: int, v: LoopbackView) -> Result<
    LoopbackView,
    FaultView,
>
    decreases args.len() + 1 - i,
{
    if i < 0 || i >= args.len() {
        Ok(v)
    } else if args[i] == "--pid"@ || args[i] == "--seconds"@ || args[i] == "--out"@ {
        match valued(v, args[i], arg_at(args, i + 1)) {
            Ok(next) => loopback_from(args, i + 2, next),
            Err(e) => Err(e),
        }
    } else if args[i] == "--exclude"@ {
        loopback_from(args, i + 1, LoopbackView { include_tree: false, ..v })
    } else if args[i] == "--include"@ {
        loopback_from(args, i + 1, LoopbackView { include_tree: true, ..v })
    } else if args[i] == "--tone"@ {
        loopback_from(args, i + 1, LoopbackView { tone: Some(true), ..v })
    } else if args[i] == "--no-tone"@ {
        loopback_from(args, i + 1, LoopbackView { tone: Some(false), ..v })
    } else if args[i] == "-h"@ || args[i] == "--help"@ {
        Err(FaultView::Help)
    } else {
        Err(FaultView::Unknown(args[i]))
    }
}

/// Whether arguments are what was read: the program's own process where none is named, and a tone
/// where it listens to itself.
pub open spec fn resolved(a: LoopbackArgs, v: LoopbackView, self_pid: u32) -> bool {
    let pid = match v.pid {
        Some(pid) => pid,
        None => self_pid,
    };
    &&& a.pid == pid
    &&& a.include_tree == v.include_tree
    &&& a.seconds == v.seconds
    &&& said(a.out) == v.out
    &&& a.tone == match v.tone {
        Some(tone) => tone,
        None => pid == self_pid,
    }
}

/// What the loopback probe is asked for.
pub fn parse_loopback(args: &[String], self_pid: u32) -> (r: Result<LoopbackArgs, LoopbackFault>)
    ensures
        match (r, loopback_from(texts(args@), 0, usual_loopback())) {
            (Ok(a), Ok(v)) => resolved(a, v, self_pid),
            (Err(e), Err(meant)) => e@ == meant,
            _ => false,
        },
{
    let ghost all = texts(args@);
    let ghost meant = loopback_from(all, 0, usual_loopback());
    let mut pid: Option<u32> = None;
    let mut include_tree: bool = true;
    let mut seconds: u64 = 8;
    let mut out: Option<String> = None;
    let mut tone: Option<bool> = None;
    let n: usize = args.len();
    let mut i: usize = 0;
    while i < n
        invariant
            i <= n,
            n == args@.len(),
            n == all.len(),
            all == texts(args@),
            meant == loopback_from(all, 0, usual_loopback()),
            meant == loopback_from(
                all,
                i as int,
                LoopbackView { pid, include_tree, seconds, out: said(out), tone },
            ),
        decreases n - i,
    {
        assert(all[i as int] == args@[i as int]@);
        let name: &str = args[i].as_str();
        let is_pid: bool = same_text(name, "--pid");
        let is_seconds: bool = same_text(name, "--seconds");
        if is_pid || is_seconds || same_text(name, "--out") {
            let option: &'static str = if is_pid {
                "--pid"
            } else if is_seconds {
                "--seconds"
            } else {
                "--out"
            };
            if i + 1 >= n {
                return Err(LoopbackFault::NeedsValue(option));
            }
            assert(all[i + 1] == args@[i + 1]@);
            if is_pid {
                match parse_number(args[i + 1].as_str(), u32::MAX as u64) {
                    Some(v) => {
                        pid = Some(v as u32);
                    },
                    None => {
                        return Err(LoopbackFault::BadNumber(option, args[i + 1].clone()));
                    },
                }
            } else if is_seconds {
                match parse_number(args[i + 1].as_str(), u64::MAX) {
                    Some(v) => {
                        seconds = v;
                    },
                    None => {
                        return Err(LoopbackFault::BadNumber(option, args[i + 1].clone()));
                    },
                }
            } else {
                out = Some(args[i + 1].clone());
            }
            i = i + 2;
        } else {
            if same_text(name, "--exclude") {
                include_tree = false;
            } else if same_text(name, "--include") {
                include_tree = true;
            } else if same_text(name, "--tone") {
                tone = Some(true);
            } else if same_text(name, "--no-tone") {
                tone = Some(false);
            } else if same_text(name, "-h") || same_text(name, "--help") {
                return Err(LoopbackFault::Help);
            } else {
                return Err(LoopbackFault::Unknown(args[i].clone()));
            }
            i = i + 1;
        }
    }
    let chosen: u32 = match pid {
        Some(pid) => pid,
        None => self_pid,
    };
    Ok(
        LoopbackArgs {
            pid: chosen,
            include_tree,
            seconds,
            out,
            tone: match tone {
                Some(tone) => tone,
                None => chosen == self_pid,
            },
        },
    )
}

/// The name of the file that the loopback probe writes.
pub fn loopback_file(pid: u32) -> (s: String)
    ensures
        s@ == "audio_probe_"@ + decimal(pid as int) + ".wav"@,
{
    let mut s: String = String::from_str("audio_probe_");
    push_decimal(&mut s, pid as u64);
    s.append(".wav");
    s
}

/// The time of a frame, in ticks.
pub open spec fn frame_time(index: int, fps: int) -> int {
    index * TICKS_PER_SECOND / fps
}

/// The time of a frame that a probe hands to the encoder, in ticks.
pub fn frame_pts(index: u64, fps: u32) -> (t: i64)
    requires
        fps > 0,
        index * TICKS_PER_SECOND <= i64::MAX,
    ensures
        t == index * TICKS_PER_SECOND / fps as int,
        t == frame_time(index as int, fps as int),
{
    proof {
        lemma_frame_time(index as int, fps as int);
    }
    (index as i64 * TICKS_PER_SECOND) / fps as i64
}

/// The time of a frame is not negative.
proof fn lemma_frame_time(index: int, fps: int)
    requires
        index >= 0,
        fps > 0,
    ensures
        0 <= (index * TICKS_PER_SECOND) / fps,
{
    assert(0 <= (index * 10_000_000) / fps) by (nonlinear_arith)
        requires
            index >= 0,
            fps > 0,
    ;
}

/// What a probe hands to the encoder next.
#[derive(Debug, Clone, Copy, PartialEq, Eq, Structural)]
pub enum PullStep {
    /// Nothing: all frames were handed over.
    Stop,
    /// The frame that was just captured.
    Fresh,
    /// The last one again.
    Reuse,
    /// Nothing yet: there is no frame.
    Wait,
}

/// What a probe hands to the encoder when it is asked for frame `index` of `target`: a fresh frame
/// where there is one, else the one that was kept. A still screen brings few frames.
pub fn next_input(index: u64, target: u64, fresh: bool, kept: bool) -> (s: PullStep)
    ensures
        s == if index >= target {
            PullStep::Stop
        } else if fresh {
            PullStep::Fresh
        } else if kept {
            PullStep::Reuse
        } else {
            PullStep::Wait
        },
{
    if index >= target {
        PullStep::Stop
    } else if fresh {
        PullStep::Fresh
    } else if kept {
        PullStep::Reuse
    } else {
        PullStep::Wait
    }
}

/// The stream that the sound probe counts a track's packets for.
#[derive(Debug, Clone, Copy, PartialEq, Eq, Structural)]
pub enum ProbeStream {
    Desktop,
    Mic,
}

/// Where a packet of a track is counted: all but the microphone's are the desktop's.
pub fn stream_of(kind: AudioTrackKind) -> (s: ProbeStream)
    ensures
        s == if kind == AudioTrackKind::Mic {
            ProbeStream::Mic
        } else {
            ProbeStream::Desktop
        },
{
    match kind {
        AudioTrackKind::Mic => ProbeStream::Mic,
        AudioTrackKind::Mix
        | AudioTrackKind::Game
        | AudioTrackKind::VoiceChat
        | AudioTrackKind::OtherSystem => ProbeStream::Desktop,
    }
}

/// What is said of a stream without packets.
pub fn no_packets_note(packets: u64) -> (note: Option<&'static str>)
    ensures
        note is Some <==> packets == 0,
        note matches Some(text) ==> text@
            == "  (no packets — silent endpoint / no mic? loopback needs audio playing)"@,
{
    if packets == 0 {
        Some("  (no packets — silent endpoint / no mic? loopback needs audio playing)")
    } else {
        None
    }
}

/// The exit status of the sound probe: every worker has to end well.
pub fn probe_status(all_ended_well: bool) -> (code: u8)
    ensures
        code == if all_ended_well {
            0u8
        } else {
            1u8
        },
{
    if all_ended_well {
        0
    } else {
        1
    }
}

/// What the encoder's probe says at its end.
pub fn encode_line(frames_in: u64, c: &PacketCount, seconds: u64) -> (line: String)
    requires
        c.bytes * 8 <= u64::MAX,
    ensures
        line@ == "done: "@ + decimal(frames_in as int) + " in / "@ + decimal(c.packets as int)
            + " out, "@ + decimal(c.keyframes as int) + " keyframes, "@ + decimal(c.bytes as int)
            + " bytes (~"@ + decimal(average_kbps(c.bytes as int, seconds as int))
            + " kbps avg)"@,
{
    let mut line: String = String::from_str("done: ");
    push_decimal(&mut line, frames_in);
    line.append(" in / ");
    push_decimal(&mut line, c.packets);
    line.append(" out, ");
    push_decimal(&mut line, c.keyframes);
    line.append(" keyframes, ");
    push_decimal(&mut line, c.bytes);
    line.append(" bytes (~");
    push_decimal(&mut line, avg_kbps(c.bytes, seconds));
    line.append(" kbps avg)");
    line
}

/// What the sound encoder's probe says at its end.
pub fn aac_line(seconds: u64, c: &PacketCount) -> (line: String)
    requires
        c.bytes * 8 <= u64::MAX,
        seconds * SAMPLE_RATE_HZ <= u64::MAX,
    ensures
        line@ == "encoded "@ + decimal(seconds as int) + "s tone: "@ + decimal(c.packets as int)
            + " access units (~"@ + decimal(seconds * SAMPLE_RATE_HZ / FRAME_SAMPLES as int)
            + " expected), "@ + decimal(c.bytes as int) + " bytes (~"@ + decimal(
            average_kbps(c.bytes as int, seconds as int),
        ) + " kbps avg)"@,
{
    let mut line: String = String::from_str("encoded ");
    push_decimal(&mut line, seconds);
    line.append("s tone: ");
    push_decimal(&mut line, c.packets);
    line.append(" access units (~");
    push_decimal(&mut line, seconds * SAMPLE_RATE_HZ as u64 / FRAME_SAMPLES as u64);
    line.append(" expected), ");
    push_decimal(&mut line, c.bytes);
    line.append(" bytes (~");
    push_decimal(&mut line, avg_kbps(c.bytes, seconds));
    line.append(" kbps avg)");
    line
}

/// The blocks in which a probe hands sound to the encoder: the next one's length, and its time.
pub open spec fn block_at(total: int, done: int) -> int {
    if total - done < 1024 {
        total - done
    } else {
        1024
    }
}

/// The length of the next block.
pub fn next_block(total: u64, done: u64) -> (n: u64)
    requires
        done <= total,
    ensures
        n == block_at(total as int, done as int),
{
    if total - done < 1024 {
        total - done
    } else {
        1024
    }
}

/// What a probe has counted of the encoder's packets.
#[derive(Debug, Clone, Copy, PartialEq, Eq, Structural)]
pub struct PacketCount {
    pub packets: u64,
    pub bytes: u64,
    pub keyframes: u64,
}

impl PacketCount {
    /// Nothing counted yet.
    pub fn new() -> (c: Self)
        ensures
            c == (PacketCount { packets: 0, bytes: 0, keyframes: 0 }),
    {
        PacketCount { packets: 0, bytes: 0, keyframes: 0 }
    }

    /// Count one more packet.
    pub fn count(&mut self, len: u64, is_keyframe: bool)
        requires
            old(self).packets < u64::MAX,
            old(self).keyframes < u64::MAX,
            old(self).bytes + len <= u64::MAX,
        ensures
            *final(self) == (PacketCount {
                packets: (old(self).packets + 1) as u64,
                bytes: (old(self).bytes + len) as u64,
                keyframes: if is_keyframe {
                    (old(self).keyframes + 1) as u64
                } else {
                    old(self).keyframes
                },
            }),
    {
        self.packets = self.packets + 1;
        self.bytes = self.bytes + len;
        if is_keyframe {
            self.keyframes = self.keyframes + 1;
        }
    }
}

/// What a probe has seen of a window: its last size, how often that changed, and whether it was
/// closed.
#[derive(Debug, Clone, Copy, PartialEq, Eq)]
pub struct WindowWatch {
    pub size: (u32, u32),
    pub resizes: u64,
    pub closed: bool,
}

impl WindowWatch {
    /// A window of a size.
    pub fn new(size: (u32, u32)) -> (w: Self)
        ensures
            w == (WindowWatch { size, resizes: 0, closed: false }),
    {
        WindowWatch { size, resizes: 0, closed: false }
    }

    /// Take in a size. Gives the one before, where it changed.
    pub fn resize(&mut self, size: (u32, u32)) -> (before: Option<(u32, u32)>)
        requires
            old(self).resizes < u64::MAX,
        ensures
            before == if size == old(self).size {
                None
            } else {
                Some(old(self).size)
            },
            *final(self) == (WindowWatch {
                size,
                resizes: if before is Some {
                    (old(self).resizes + 1) as u64
                } else {
                    old(self).resizes
                },
                ..*old(self)
            }),
    {
        if size.0 == self.size.0 && size.1 == self.size.1 {
            return None;
        }
        let before: (u32, u32) = self.size;
        self.size = size;
        self.resizes = self.resizes + 1;
        Some(before)
    }

    /// Take in whether the window is closed. The answer says whether that is news.
    pub fn close(&mut self, closed: bool) -> (news: bool)
        ensures
            news == (closed && !old(self).closed),
            *final(self) == (WindowWatch { closed: old(self).closed || closed, ..*old(self) }),
    {
        if closed && !self.closed {
            self.closed = true;
            return true;
        }
        false
    }
}

/// A process whose sound is taken for a track of its own.
#[derive(Debug, Clone, Copy, PartialEq, Eq, Structural)]
pub struct Binding {
    pub pid: u32,
    /// With what the process started.
    pub include_tree: bool,
}

/// A binding, where its process runs.
pub fn live_binding(raw: Option<Binding>, running: &[u32]) -> (r: Option<Binding>)
    ensures
        r == if raw is Some && running@.contains(raw->0.pid) {
            raw
        } else {
            None
        },
{
    match raw {
        None => None,
        Some(b) => {
            let n: usize = running.len();
            let mut i: usize = 0;
            while i < n
                invariant
                    i <= n,
                    n == running@.len(),
                    raw == Some(b),
                    forall|k: int| 0 <= k < i ==> running@[k] != b.pid,
                decreases n - i,
            {
                if running[i] == b.pid {
                    assert(running@[i as int] == b.pid);
                    return Some(b);
                }
                i = i + 1;
            }
            None
        },
    }
}

/// What a binding is shown as.
pub open spec fn binding_words(b: Option<Binding>) -> Seq<char> {
    match b {
        Some(b) => "pid "@ + decimal(b.pid as int) + " (include_tree="@ + (if b.include_tree {
            "true"@
        } else {
            "false"@
        }) + ")"@,
        None => "none"@,
    }
}

/// What a binding is shown as.
pub fn binding_text(b: Option<Binding>) -> (s: String)
    ensures
        s@ == binding_words(b),
{
    match b {
        Some(b) => {
            let mut s: String = String::from_str("pid ");
            push_decimal(&mut s, b.pid as u64);
            s.append(" (include_tree=");
            s.append(
                if b.include_tree {
                    "true"
                } else {
                    "false"
                },
            );
            s.append(")");
            s
        },
        None => String::from_str("none"),
    }
}

/// The names of the programs that count.
pub open spec fn enabled_of(apps: Seq<(Seq<char>, bool)>) -> Seq<Seq<char>>
    decreases apps.len(),
{
    if apps.len() == 0 {
        Seq::empty()
    } else if apps.last().1 {
        enabled_of(apps.drop_last()).push(apps.last().0)
    } else {
        enabled_of(apps.drop_last())
    }
}

/// The names of the programs for voice chat that count.
pub fn enabled_apps(apps: &Vec<VcApp>) -> (v: Vec<&str>)
    ensures
        v@.map_values(|s: &str| s@) == enabled_of(app_views(apps@)),
{
    let mut v: Vec<&str> = Vec::new();
    let ghost all = app_views(apps@);
    let ghost shown = |s: &str| s@;
    let n: usize = apps.len();
    let mut i: usize = 0;
    assert(all.take(0) =~= Seq::empty());
    assert(v@.map_values(shown) =~= Seq::empty());
    while i < n
        invariant
            i <= n,
            n == apps@.len(),
            all == app_views(apps@),
            shown == (|s: &str| s@),
            v@.map_values(shown) == enabled_of(all.take(i as int)),
        decreases n - i,
    {
        assert(all.take(i + 1).drop_last() =~= all.take(i as int));
        assert(all.take(i + 1).last() == (apps@[i as int].name@, apps@[i as int].enabled));
        let ghost before = v@;
        if apps[i].enabled {
            v.push(apps[i].name.as_str());
            assert(v@.map_values(shown) =~= before.map_values(shown).push(
                apps@[i as int].name@,
            ));
        }
        i = i + 1;
    }
    assert(all.take(n as int) =~= all);
    v
}

/// What the binding probe said last, if anything.
#[derive(Debug, Clone, Copy, PartialEq, Eq, Structural)]
pub struct BindingWatch {
    pub said: bool,
    pub game: Option<Binding>,
    pub voice_chat: Option<Binding>,
}

impl BindingWatch {
    /// A watch that has said nothing.
    pub fn new() -> (w: Self)
        ensures
            w == (BindingWatch { said: false, game: None, voice_chat: None }),
    {
        BindingWatch { said: false, game: None, voice_chat: None }
    }

    /// Whether bindings are news: they are where nothing was said yet, or something else.
    pub fn take(&mut self, game: Option<Binding>, voice_chat: Option<Binding>) -> (news: bool)
        ensures
            news == (!old(self).said || old(self).game != game || old(self).voice_chat
                != voice_chat),
            *final(self) == if news {
                BindingWatch { said: true, game, voice_chat }
            } else {
                *old(self)
            },
    {
        if self.said && self.game == game && self.voice_chat == voice_chat {
            return false;
        }
        self.said = true;
        self.game = game;
        self.voice_chat = voice_chat;
        true
    }
}

/// A count in at least four places.
pub open spec fn padded(n: int) -> Seq<char> {
    (if n < 10 {
        "   "@
    } else if n < 100 {
        "  "@
    } else if n < 1000 {
        " "@
    } else {
        ""@
    }) + decimal(n)
}

/// What one scan found.
pub open spec fn scan_words(
    processes: int,
    foreground: Option<u32>,
    game: Option<Binding>,
    voice_chat: Option<Binding>,
) -> Seq<char> {
    "  processes="@ + padded(processes) + "  foreground="@ + (match foreground {
        Some(pid) => "Some("@ + decimal(pid as int) + ")"@,
        None => "None"@,
    }) + "  game="@ + binding_words(game) + "  voice-chat="@ + binding_words(voice_chat)
}

/// What one scan found: how many processes, whose window is in front, and the bindings.
pub fn scan_line(
    processes: u64,
    foreground: Option<u32>,
    game: Option<Binding>,
    voice_chat: Option<Binding>,
) -> (line: String)
    ensures
        line@ == scan_words(processes as int, foreground, game, voice_chat),
{
    let mut count: String = String::from_str(
        if processes < 10 {
            "   "
        } else if processes < 100 {
            "  "
        } else if processes < 1000 {
            " "
        } else {
            ""
        },
    );
    push_decimal(&mut count, processes);
    let front: String = match foreground {
        Some(pid) => {
            let mut s: String = String::from_str("Some(");
            push_decimal(&mut s, pid as u64);
            s.append(")");
            s
        },
        None => String::from_str("None"),
    };
    let mut line: String = String::from_str("  processes=");
    line.append(count.as_str());
    line.append("  foreground=");
    line.append(front.as_str());
    line.append("  game=");
    line.append(binding_text(game).as_str());
    line.append("  voice-chat=");
    line.append(binding_text(voice_chat).as_str());
    line
}

/// The lines on devices.
pub open spec fn device_lines(devices: Seq<AudioDevice>) -> Seq<char>
    decreases devices.len(),
{
    if devices.len() == 0 {
        Seq::empty()
    } else {
        device_lines(devices.drop_last()) + ("  "@ + devices.last().id@ + "\t"@
            + devices.last().name@ + "\n"@)
    }
}

/// The list of microphones, with how one is chosen.
pub open spec fn devices_text(devices: Seq<AudioDevice>) -> Seq<char> {
    if devices.len() == 0 {
        "no active capture (microphone) endpoints found (or enumeration failed — check the log)\n"@
    } else {
        "active capture (microphone) endpoints:\n"@ + device_lines(devices)
            + "\npin one by setting [audio].mic = \"<id>\" in config.toml (or use Settings → Microphone).\n"@
    }
}

/// The list of microphones.
pub fn list_devices(devices: &[AudioDevice]) -> (text: String)
    ensures
        text@ == devices_text(devices@),
{
    let n: usize = devices.len();
    if n == 0 {
        return String::from_str(
            "no active capture (microphone) endpoints found (or enumeration failed — check the log)\n",
        );
    }
    let mut text: String = String::from_str("active capture (microphone) endpoints:\n");
    let ghost head = text@;
    let mut i: usize = 0;
    assert(devices@.take(0) =~= Seq::empty());
    assert(text@ =~= head + device_lines(devices@.take(0)));
    while i < n
        invariant
            i <= n,
            n == devices@.len(),
            text@ == head + device_lines(devices@.take(i as int)),
        decreases n - i,
    {
        let mut line: String = String::from_str("  ");
        line.append(devices[i].id.as_str());
        line.append("\t");
        line.append(devices[i].name.as_str());
        line.append("\n");
        assert(devices@.take(i + 1).drop_last() =~= devices@.take(i as int));
        assert(devices@.take(i + 1).last() == devices@[i as int]);
        text.append(line.as_str());
        assert(text@ =~= head + device_lines(devices@.take(i + 1)));
        i = i + 1;
    }
    assert(devices@.take(n as int) =~= devices@);
    text.append(
        "\npin one by setting [audio].mic = \"<id>\" in config.toml (or use Settings → Microphone).\n",
    );
    text
}

} // verus!
