//! The arguments of the program.

use vstd::prelude::*;

use crate::text::{parse_number, parsed_number, said, same_text};

verus! {

/// What arguments say.
pub open spec fn texts(args: Seq<String>) -> Seq<Seq<char>> {
    args.map_values(|arg: String| arg@)
}

/// The argument at a place, where there is one.
pub open spec fn arg_at(args: Seq<Seq<char>>, i: int) -> Option<Seq<char>> {
    if 0 <= i < args.len() {
        Some(args[i])
    } else {
        None
    }
}

/// The number that a text writes, as a machine's number.
pub open spec fn number_of(s: Option<Seq<char>>, most: int) -> Option<int> {
    match s {
        Some(s) => parsed_number(s, most),
        None => None,
    }
}

/// A number as a 64-bit one.
pub open spec fn as_u64(n: Option<int>) -> Option<u64> {
    match n {
        Some(n) => Some(n as u64),
        None => None,
    }
}

/// A number as a 32-bit one.
pub open spec fn as_u32(n: Option<int>) -> Option<u32> {
    match n {
        Some(n) => Some(n as u32),
        None => None,
    }
}

/// The argument at a place as a number.
fn number_at(args: &[String], i: usize) -> (n: Option<u64>)
    ensures
        n == as_u64(number_of(arg_at(texts(args@), i as int), u64::MAX as int)),
{
    if i < args.len() {
        parse_number(args[i].as_str(), u64::MAX)
    } else {
        None
    }
}

/// The argument at a place as a small number.
fn small_at(args: &[String], i: usize) -> (n: Option<u32>)
    ensures
        n == as_u32(number_of(arg_at(texts(args@), i as int), u32::MAX as int)),
{
    if i < args.len() {
        match parse_number(args[i].as_str(), u32::MAX as u64) {
            Some(n) => Some(n as u32),
            None => None,
        }
    } else {
        None
    }
}

/// The argument at a place as text.
fn text_at(args: &[String], i: usize) -> (s: Option<String>)
    ensures
        said(s) == arg_at(texts(args@), i as int),
{
    if i < args.len() {
        Some(args[i].clone())
    } else {
        None
    }
}

/// What the program is asked to do.
#[derive(Debug, Clone, PartialEq, Eq)]
pub enum Command {
    Help,
    Version,
    /// Check the settings, in this file or the usual one.
    CheckConfig(Option<String>),
    ProbeGpu,
    CaptureProbe(u64),
    WindowCaptureProbe(u64),
    WindowEventsProbe(u64),
    /// Record; the arguments behind are the recording's.
    Record,
    /// Buffer; the arguments behind are the buffer's.
    Buffer,
    ConvertProbe,
    AudioProbe(u64),
    BindingProbe(u64),
    ListAudioDevices,
    ToastTest,
    AacProbe(u64),
    EncodeProbe(u64),
    /// No such thing.
    Unknown(String),
}

/// What a command says.
pub enum Asked {
    Help,
    Version,
    CheckConfig(Option<Seq<char>>),
    ProbeGpu,
    CaptureProbe(u64),
    WindowCaptureProbe(u64),
    WindowEventsProbe(u64),
    Record,
    Buffer,
    ConvertProbe,
    AudioProbe(u64),
    BindingProbe(u64),
    ListAudioDevices,
    ToastTest,
    AacProbe(u64),
    EncodeProbe(u64),
    Unknown(Seq<char>),
}

impl View for Command {
    type V = Asked;

    open spec fn view(&self) -> Asked {
        match *self {
            Command::Help => Asked::Help,
            Command::Version => Asked::Version,
            Command::CheckConfig(path) => Asked::CheckConfig(said(path)),
            Command::ProbeGpu => Asked::ProbeGpu,
            Command::CaptureProbe(n) => Asked::CaptureProbe(n),
            Command::WindowCaptureProbe(n) => Asked::WindowCaptureProbe(n),
            Command::WindowEventsProbe(n) => Asked::WindowEventsProbe(n),
            Command::Record => Asked::Record,
            Command::Buffer => Asked::Buffer,
            Command::ConvertProbe => Asked::ConvertProbe,
            Command::AudioProbe(n) => Asked::AudioProbe(n),
            Command::BindingProbe(n) => Asked::BindingProbe(n),
            Command::ListAudioDevices => Asked::ListAudioDevices,
            Command::ToastTest => Asked::ToastTest,
            Command::AacProbe(n) => Asked::AacProbe(n),
            Command::EncodeProbe(n) => Asked::EncodeProbe(n),
            Command::Unknown(name) => Asked::Unknown(name@),
        }
    }
}

/// The seconds of a probe: the argument behind its name, where that is a number.
pub open spec fn probe_seconds(args: Seq<Seq<char>>, usual: u64) -> u64 {
    match number_of(arg_at(args, 1), u64::MAX as int) {
        Some(n) => n as u64,
        None => usual,
    }
}

/// The seconds of a probe.
fn seconds_or(args: &[String], usual: u64) -> (n: u64)
    ensures
        n == probe_seconds(texts(args@), usual),
{
    match number_at(args, 1) {
        Some(n) => n,
        None => usual,
    }
}

/// What arguments ask for.
pub open spec fn asked(args: Seq<Seq<char>>) -> Asked {
    if args.len() == 0 {
        Asked::Help
    } else if args[0] == "-h"@ || args[0] == "--help"@ {
        Asked::Help
    } else if args[0] == "-V"@ || args[0] == "--version"@ {
        Asked::Version
    } else if args[0] == "--check-config"@ {
        Asked::CheckConfig(arg_at(args, 1))
    } else if args[0] == "probe-gpu"@ {
        Asked::ProbeGpu
    } else if args[0] == "capture-probe"@ {
        Asked::CaptureProbe(probe_seconds(args, 3))
    } else if args[0] == "window-capture-probe"@ {
        Asked::WindowCaptureProbe(probe_seconds(args, 5))
    } else if args[0] == "window-events-probe"@ {
        Asked::WindowEventsProbe(probe_seconds(args, 30))
    } else if args[0] == "record"@ {
        Asked::Record
    } else if args[0] == "buffer"@ {
        Asked::Buffer
    } else if args[0] == "convert-probe"@ {
        Asked::ConvertProbe
    } else if args[0] == "audio-probe"@ {
        Asked::AudioProbe(probe_seconds(args, 6))
    } else if args[0] == "binding-probe"@ {
        Asked::BindingProbe(probe_seconds(args, 30))
    } else if args[0] == "list-audio-devices"@ {
        Asked::ListAudioDevices
    } else if args[0] == "toast-test"@ {
        Asked::ToastTest
    } else if args[0] == "aac-probe"@ {
        Asked::AacProbe(probe_seconds(args, 2))
    } else if args[0] == "encode-probe"@ {
        Asked::EncodeProbe(probe_seconds(args, 2))
    } else {
        Asked::Unknown(args[0])
    }
}

/// What arguments ask for. No arguments ask for help.
pub fn parse_command(args: &[String]) -> (c: Command)
    ensures
        c@ == asked(texts(args@)),
{
    if args.len() == 0 {
        return Command::Help;
    }
    let name: &str = args[0].as_str();
    assert(texts(args@)[0] == name@);
    if same_text(name, "-h") || same_text(name, "--help") {
        Command::Help
    } else if same_text(name, "-V") || same_text(name, "--version") {
        Command::Version
    } else if same_text(name, "--check-config") {
        Command::CheckConfig(text_at(args, 1))
    } else if same_text(name, "probe-gpu") {
        Command::ProbeGpu
    } else if same_text(name, "capture-probe") {
        Command::CaptureProbe(seconds_or(args, 3))
    } else if same_text(name, "window-capture-probe") {
        Command::WindowCaptureProbe(seconds_or(args, 5))
    } else if same_text(name, "window-events-probe") {
        Command::WindowEventsProbe(seconds_or(args, 30))
    } else if same_text(name, "record") {
        Command::Record
    } else if same_text(name, "buffer") {
        Command::Buffer
    } else if same_text(name, "convert-probe") {
        Command::ConvertProbe
    } else if same_text(name, "audio-probe") {
        Command::AudioProbe(seconds_or(args, 6))
    } else if same_text(name, "binding-probe") {
        Command::BindingProbe(seconds_or(args, 30))
    } else if same_text(name, "list-audio-devices") {
        Command::ListAudioDevices
    } else if same_text(name, "toast-test") {
        Command::ToastTest
    } else if same_text(name, "aac-probe") {
        Command::AacProbe(seconds_or(args, 2))
    } else if same_text(name, "encode-probe") {
        Command::EncodeProbe(seconds_or(args, 2))
    } else {
        Command::Unknown(args[0].clone())
    }
}

/// Settings of the encoder that stand in for its own.
#[derive(Debug, Clone, PartialEq, Eq)]
pub struct EncoderOverrides {
    pub rc_mode: Option<String>,
    pub quality: Option<u32>,
    pub qp: Option<u32>,
    pub avg_bitrate_bps: Option<u32>,
    pub max_bitrate_bps: Option<u32>,
}

/// What overrides say.
pub struct OverridesView {
    pub rc_mode: Option<Seq<char>>,
    pub quality: Option<u32>,
    pub qp: Option<u32>,
    pub avg_bitrate_bps: Option<u32>,
    pub max_bitrate_bps: Option<u32>,
}

impl View for EncoderOverrides {
    type V = OverridesView;

    open spec fn view(&self) -> OverridesView {
        OverridesView {
            rc_mode: said(self.rc_mode),
            quality: self.quality,
            qp: self.qp,
            avg_bitrate_bps: self.avg_bitrate_bps,
            max_bitrate_bps: self.max_bitrate_bps,
        }
    }
}

/// No overrides.
pub open spec fn no_overrides() -> OverridesView {
    OverridesView {
        rc_mode: None,
        quality: None,
        qp: None,
        avg_bitrate_bps: None,
        max_bitrate_bps: None,
    }
}

impl Default for EncoderOverrides {
    fn default() -> (o: Self)
        ensures
            o@ == no_overrides(),
    {
        EncoderOverrides {
            rc_mode: None,
            quality: None,
            qp: None,
            avg_bitrate_bps: None,
            max_bitrate_bps: None,
        }
    }
}

/// Overrides with what an option sets, if it is one of theirs.
pub open spec fn overridden(o: OverridesView, name: Seq<char>, value: Option<Seq<char>>) -> Option<
    OverridesView,
> {
    let n = as_u32(number_of(value, u32::MAX as int));
    if name == "--encode-rc-mode"@ {
        Some(OverridesView { rc_mode: value, ..o })
    } else if name == "--encode-quality"@ {
        Some(OverridesView { quality: n, ..o })
    } else if name == "--encode-qp"@ {
        Some(OverridesView { qp: n, ..o })
    } else if name == "--encode-avg-bitrate"@ {
        Some(OverridesView { avg_bitrate_bps: n, ..o })
    } else if name == "--encode-max-bitrate"@ {
        Some(OverridesView { max_bitrate_bps: n, ..o })
    } else {
        None
    }
}

impl EncoderOverrides {
    /// Take in the option at a place, with the value behind it. The answer says whether it is one
    /// of the overrides.
    fn take(&mut self, args: &[String], i: usize) -> (known: bool)
        requires
            i < args@.len(),
        ensures
            ({
                let next = overridden(
                    old(self)@,
                    args@[i as int]@,
                    arg_at(texts(args@), i + 1),
                );
                &&& known == (next is Some)
                &&& final(self)@ == if known {
                    next->0
                } else {
                    old(self)@
                }
            }),
    {
        let name: &str = args[i].as_str();
        if same_text(name, "--encode-rc-mode") {
            self.rc_mode = text_at(args, i + 1);
            true
        } else if same_text(name, "--encode-quality") {
            self.quality = small_at(args, i + 1);
            true
        } else if same_text(name, "--encode-qp") {
            self.qp = small_at(args, i + 1);
            true
        } else if same_text(name, "--encode-avg-bitrate") {
            self.avg_bitrate_bps = small_at(args, i + 1);
            true
        } else if same_text(name, "--encode-max-bitrate") {
            self.max_bitrate_bps = small_at(args, i + 1);
            true
        } else {
            false
        }
    }
}

/// What a recording is asked to be.
#[derive(Debug, Clone, PartialEq, Eq)]
pub struct RecordArgs {
    /// Stop after so many seconds.
    pub seconds: Option<u64>,
    /// Write to this file.
    pub out: Option<String>,
    /// Lose the device after so many seconds, as a test.
    pub simulate: Option<u64>,
    pub overrides: EncoderOverrides,
}

/// What a recording's arguments say.
pub struct RecordView {
    pub seconds: Option<u64>,
    pub out: Option<Seq<char>>,
    pub simulate: Option<u64>,
    pub overrides: OverridesView,
}

impl View for RecordArgs {
    type V = RecordView;

    open spec fn view(&self) -> RecordView {
        RecordView {
            seconds: self.seconds,
            out: said(self.out),
            simulate: self.simulate,
            overrides: self.overrides@,
        }
    }
}

/// A recording's arguments with what an option sets, if it is one.
pub open spec fn record_option(r: RecordView, name: Seq<char>, value: Option<Seq<char>>) -> Option<
    RecordView,
> {
    let n = as_u64(number_of(value, u64::MAX as int));
    if name == "--seconds"@ {
        Some(RecordView { seconds: n, ..r })
    } else if name == "--out"@ {
        Some(RecordView { out: value, ..r })
    } else if name == "--simulate-device-loss"@ {
        Some(RecordView { simulate: n, ..r })
    } else {
        match overridden(r.overrides, name, value) {
            Some(overrides) => Some(RecordView { overrides, ..r }),
            None => None,
        }
    }
}

/// What the arguments from a place on make of a recording's, or the first that is no option. An
/// option takes the argument behind it for its value, whatever that is.
pub open spec fn record_from(args: Seq<Seq<char>>, i: int, r: RecordView) -> Result<
    RecordView,
    Seq<char>,
>
    decreases args.len() + 1 - i,
{
    if i < 0 || i >= args.len() {
        Ok(r)
    } else {
        match record_option(r, args[i], arg_at(args, i + 1)) {
            Some(next) => record_from(args, i + 2, next),
            None => Err(args[i]),
        }
    }
}

/// A recording that is asked for nothing in particular.
pub open spec fn plain_record() -> RecordView {
    RecordView { seconds: None, out: None, simulate: None, overrides: no_overrides() }
}

/// The arguments of a recording, or the first that is no option of it.
pub fn parse_record(args: &[String]) -> (r: Result<RecordArgs, String>)
    ensures
        ({
            let meant = record_from(texts(args@), 0, plain_record());
            match r {
                Ok(parsed) => meant == Ok::<RecordView, Seq<char>>(parsed@),
                Err(bad) => meant == Err::<RecordView, Seq<char>>(bad@),
            }
        }),
{
    let ghost all = texts(args@);
    let mut r: RecordArgs = RecordArgs {
        seconds: None,
        out: None,
        simulate: None,
        overrides: EncoderOverrides::default(),
    };
    let ghost meant = record_from(all, 0, r@);
    let n: usize = args.len();
    let mut i: usize = 0;
    while i < n
        invariant
            i <= n + 1,
            n == args@.len(),
            n == all.len(),
            all == texts(args@),
            meant == record_from(all, 0, plain_record()),
            meant == record_from(all, i as int, r@),
        decreases n + 1 - i,
    {
        assert(all[i as int] == args@[i as int]@);
        let name: &str = args[i].as_str();
        if same_text(name, "--seconds") {
            r.seconds = number_at(args, i + 1);
        } else if same_text(name, "--out") {
            r.out = text_at(args, i + 1);
        } else if same_text(name, "--simulate-device-loss") {
            r.simulate = number_at(args, i + 1);
        } else if !r.overrides.take(args, i) {
            return Err(args[i].clone());
        }
        if i + 1 == n {
            assert(record_from(all, i + 2, r@) == Ok::<RecordView, Seq<char>>(r@));
            return Ok(r);
        }
        i = i + 2;
    }
    Ok(r)
}

/// The option that has the settings window opened at the start.
pub const REOPEN_SETTINGS_FLAG: &'static str = "--reopen-settings";

/// What a buffer is asked to be.
#[derive(Debug, Clone, PartialEq, Eq)]
pub struct BufferArgs {
    /// Keep so many seconds.
    pub seconds: Option<u32>,
    /// Save every so many seconds, as a test.
    pub autosave: Option<u64>,
    /// Lose the device after so many seconds, as a test.
    pub simulate: Option<u64>,
    /// Record so many seconds from the start, as a test.
    pub record_secs: Option<u64>,
    /// Open the settings window at the start.
    pub reopen_settings: bool,
    pub overrides: EncoderOverrides,
}

/// What a buffer's arguments say.
pub struct BufferView {
    pub seconds: Option<u32>,
    pub autosave: Option<u64>,
    pub simulate: Option<u64>,
    pub record_secs: Option<u64>,
    pub reopen_settings: bool,
    pub overrides: OverridesView,
}

impl View for BufferArgs {
    type V = BufferView;

    open spec fn view(&self) -> BufferView {
        BufferView {
            seconds: self.seconds,
            autosave: self.autosave,
            simulate: self.simulate,
            record_secs: self.record_secs,
            reopen_settings: self.reopen_settings,
            overrides: self.overrides@,
        }
    }
}

/// A buffer's arguments with what an option sets, if it is one that takes a value.
pub open spec fn buffer_option(b: BufferView, name: Seq<char>, value: Option<Seq<char>>) -> Option<
    BufferView,
> {
    let n = as_u64(number_of(value, u64::MAX as int));
    if name == "--seconds"@ {
        Some(BufferView { seconds: as_u32(number_of(value, u32::MAX as int)), ..b })
    } else if name == "--record-secs"@ {
        Some(BufferView { record_secs: n, ..b })
    } else if name == "--autosave"@ {
        Some(BufferView { autosave: n, ..b })
    } else if name == "--simulate-device-loss"@ {
        Some(BufferView { simulate: n, ..b })
    } else {
        match overridden(b.overrides, name, value) {
            Some(overrides) => Some(BufferView { overrides, ..b }),
            None => None,
        }
    }
}

/// What the arguments from a place on make of a buffer's, or the first that is no option.
pub open spec fn buffer_from(args: Seq<Seq<char>>, i: int, b: BufferView) -> Result<
    BufferView,
    Seq<char>,
>
    decreases args.len() + 1 - i,
{
    if i < 0 || i >= args.len() {
        Ok(b)
    } else if args[i] == REOPEN_SETTINGS_FLAG@ {
        buffer_from(args, i + 1, BufferView { reopen_settings: true, ..b })
    } else {
        match buffer_option(b, args[i], arg_at(args, i + 1)) {
            Some(next) => buffer_from(args, i + 2, next),
            None => Err(args[i]),
        }
    }
}

/// A buffer that is asked for nothing in particular.
pub open spec fn plain_buffer() -> BufferView {
    BufferView {
        seconds: None,
        autosave: None,
        simulate: None,
        record_secs: None,
        reopen_settings: false,
        overrides: no_overrides(),
    }
}

/// The arguments of a buffer, or the first that is no option of it.
pub fn parse_buffer(args: &[String]) -> (r: Result<BufferArgs, String>)
    ensures
        ({
            let meant = buffer_from(texts(args@), 0, plain_buffer());
            match r {
                Ok(parsed) => meant == Ok::<BufferView, Seq<char>>(parsed@),
                Err(bad) => meant == Err::<BufferView, Seq<char>>(bad@),
            }
        }),
{
    let ghost all = texts(args@);
    let mut b: BufferArgs = BufferArgs {
        seconds: None,
        autosave: None,
        simulate: None,
        record_secs: None,
        reopen_settings: false,
        overrides: EncoderOverrides::default(),
    };
    let ghost meant = buffer_from(all, 0, b@);
    let n: usize = args.len();
    let mut i: usize = 0;
    while i < n
        invariant
            i <= n + 1,
            n == args@.len(),
            n == all.len(),
            all == texts(args@),
            meant == buffer_from(all, 0, plain_buffer()),
            meant == buffer_from(all, i as int, b@),
        decreases n + 1 - i,
    {
        assert(all[i as int] == args@[i as int]@);
        let name: &str = args[i].as_str();
        if same_text(name, REOPEN_SETTINGS_FLAG) {
            b.reopen_settings = true;
            i = i + 1;
        } else {
            if same_text(name, "--seconds") {
                b.seconds = small_at(args, i + 1);
            } else if same_text(name, "--record-secs") {
                b.record_secs = number_at(args, i + 1);
            } else if same_text(name, "--autosave") {
                b.autosave = number_at(args, i + 1);
            } else if same_text(name, "--simulate-device-loss") {
                b.simulate = number_at(args, i + 1);
            } else if !b.overrides.take(args, i) {
                return Err(args[i].clone());
            }
            if i + 1 == n {
                assert(buffer_from(all, i + 2, b@) == Ok::<BufferView, Seq<char>>(b@));
                return Ok(b);
            }
            i = i + 2;
        }
    }
    Ok(b)
}

/// Arguments without the option that has the settings window opened.
pub open spec fn without_flag(args: Seq<Seq<char>>) -> Seq<Seq<char>> {
    args.filter(|arg: Seq<char>| arg != REOPEN_SETTINGS_FLAG@)
}

/// The arguments that the program is started again with: its own, and once at the end the option
/// that has the settings window opened.
pub fn relaunch_args(args: &[String]) -> (out: Vec<String>)
    ensures
        texts(out@) == without_flag(texts(args@)).push(REOPEN_SETTINGS_FLAG@),
{
    let ghost keep = |arg: Seq<char>| arg != REOPEN_SETTINGS_FLAG@;
    let ghost all = texts(args@);
    let mut out: Vec<String> = Vec::new();
    let n: usize = args.len();
    let mut i: usize = 0;
    assert(all.take(0).filter(keep) =~= Seq::empty()) by {
        reveal(Seq::filter);
    }
    assert(texts(out@) =~= all.take(0).filter(keep));
    while i < n
        invariant
            i <= n,
            n == args@.len(),
            all == texts(args@),
            keep == (|arg: Seq<char>| arg != REOPEN_SETTINGS_FLAG@),
            texts(out@) == all.take(i as int).filter(keep),
        decreases n - i,
    {
        let ghost before = out@;
        assert(all.take(i + 1).drop_last() =~= all.take(i as int));
        assert(all.take(i + 1).last() == args@[i as int]@);
        reveal(Seq::filter);
        if !same_text(args[i].as_str(), REOPEN_SETTINGS_FLAG) {
            out.push(args[i].clone());
        }
        assert(texts(out@) =~= all.take(i + 1).filter(keep));
        i = i + 1;
    }
    assert(all.take(n as int) =~= all);
    let ghost before = out@;
    out.push(String::from_str(REOPEN_SETTINGS_FLAG));
    assert(texts(out@) =~= texts(before).push(REOPEN_SETTINGS_FLAG@));
    out
}

/// Whether every option that takes a value has one, and none has the option that has the settings
/// window opened for it.
pub open spec fn complete(args: Seq<Seq<char>>) -> bool
    decreases args.len(),
{
    if args.len() == 0 {
        true
    } else if args[0] == REOPEN_SETTINGS_FLAG@ {
        complete(args.skip(1))
    } else {
        args.len() >= 2 && args[1] != REOPEN_SETTINGS_FLAG@ && complete(args.skip(2))
    }
}

/// Arguments mean the same wherever they begin.
proof fn lemma_from_a_place(args: Seq<Seq<char>>, k: int, i: int, b: BufferView)
    requires
        0 <= k <= args.len(),
        0 <= i,
    ensures
        buffer_from(args, k + i, b) == buffer_from(args.skip(k), i, b),
    decreases args.len() + 1 - (k + i),
{
    if k + i < args.len() {
        let rest = args.skip(k);
        assert(rest[i] == args[k + i]);
        assert(arg_at(rest, i + 1) == arg_at(args, k + i + 1));
        lemma_from_a_place(args, k, i + 1, BufferView { reopen_settings: true, ..b });
        match buffer_option(b, rest[i], arg_at(rest, i + 1)) {
            Some(next) => {
                lemma_from_a_place(args, k, i + 2, next);
            },
            None => {},
        }
    }
}

/// What a filter keeps of what begins with one more.
proof fn lemma_flag_goes(first: Seq<char>, rest: Seq<Seq<char>>)
    ensures
        without_flag(seq![first] + rest) == if first == REOPEN_SETTINGS_FLAG@ {
            without_flag(rest)
        } else {
            seq![first] + without_flag(rest)
        },
    decreases rest.len(),
{
    let keep = |arg: Seq<char>| arg != REOPEN_SETTINGS_FLAG@;
    reveal(Seq::filter);
    if rest.len() == 0 {
        assert((seq![first] + rest).drop_last() =~= Seq::<Seq<char>>::empty());
        assert((seq![first] + rest).last() == first);
        assert(Seq::<Seq<char>>::empty().filter(keep) =~= Seq::<Seq<char>>::empty());
        assert(rest.filter(keep) =~= Seq::<Seq<char>>::empty());
        assert(without_flag(seq![first] + rest) =~= if first == REOPEN_SETTINGS_FLAG@ {
            Seq::<Seq<char>>::empty()
        } else {
            seq![first]
        });
        assert(seq![first] + Seq::<Seq<char>>::empty() =~= seq![first]);
    } else {
        lemma_flag_goes(first, rest.drop_last());
        let all = seq![first] + rest;
        assert(all.drop_last() =~= seq![first] + rest.drop_last());
        assert(all.last() == rest.last());
        assert(without_flag(all) =~= if first == REOPEN_SETTINGS_FLAG@ {
            without_flag(rest)
        } else {
            seq![first] + without_flag(rest)
        });
    }
}

/// What two buffers that differ in the settings window alone are asked for again.
proof fn lemma_relaunch_step(args: Seq<Seq<char>>, b: BufferView, c: BufferView)
    requires
        complete(args),
        b == (BufferView { reopen_settings: b.reopen_settings, ..c }),
        buffer_from(args, 0, c) is Ok,
    ensures
        buffer_from(without_flag(args).push(REOPEN_SETTINGS_FLAG@), 0, b) == Ok::<
            BufferView,
            Seq<char>,
        >(BufferView { reopen_settings: true, ..buffer_from(args, 0, c)->Ok_0 }),
    decreases args.len(),
{
    let again = without_flag(args).push(REOPEN_SETTINGS_FLAG@);
    if args.len() == 0 {
        reveal(Seq::filter);
        assert(again =~= seq![REOPEN_SETTINGS_FLAG@]);
        reveal_with_fuel(buffer_from, 2);
    } else if args[0] == REOPEN_SETTINGS_FLAG@ {
        let rest = args.skip(1);
        assert(args =~= seq![args[0]] + rest);
        lemma_flag_goes(args[0], rest);
        let opened = BufferView { reopen_settings: true, ..c };
        lemma_from_a_place(args, 1, 0, opened);
        lemma_relaunch_step(rest, b, opened);
    } else {
        let rest = args.skip(2);
        assert(args =~= seq![args[0]] + args.skip(1));
        assert(args.skip(1) =~= seq![args[1]] + rest);
        lemma_flag_goes(args[0], args.skip(1));
        lemma_flag_goes(args[1], rest);
        let tail = without_flag(rest).push(REOPEN_SETTINGS_FLAG@);
        assert(again =~= seq![args[0], args[1]] + tail);
        assert(again.skip(2) =~= tail);
        assert(arg_at(again, 1) == Some(args[1]));
        assert(arg_at(args, 1) == Some(args[1]));
        let next_b = buffer_option(b, args[0], Some(args[1]));
        let next_c = buffer_option(c, args[0], Some(args[1]));
        assert(next_c is Some);
        lemma_from_a_place(args, 2, 0, next_c->0);
        lemma_from_a_place(again, 2, 0, next_b->0);
        lemma_relaunch_step(rest, next_b->0, next_c->0);
    }
}

/// Law: a program that was started with arguments it took, and is started again, takes the new
/// ones and is asked for the same, with the settings window opened. Not so where an option lacks
/// its value or has the one that opens the window for it: that one is moved.
pub proof fn lemma_relaunch_asks_the_same(args: Seq<Seq<char>>)
    requires
        complete(args),
        buffer_from(args, 0, plain_buffer()) is Ok,
    ensures
        buffer_from(without_flag(args).push(REOPEN_SETTINGS_FLAG@), 0, plain_buffer()) == Ok::<
            BufferView,
            Seq<char>,
        >(BufferView {
            reopen_settings: true,
            ..buffer_from(args, 0, plain_buffer())->Ok_0
        }),
{
    lemma_relaunch_step(args, plain_buffer(), plain_buffer());
}

} // verus!
