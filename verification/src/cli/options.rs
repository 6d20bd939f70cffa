//! What options do: each sets what it names, and nothing else.

use vstd::prelude::*;

use crate::cli::args::{
    asked, buffer_from, no_overrides, plain_buffer, plain_record, record_from, without_flag, Asked,
    BufferView, OverridesView, RecordView,
};
use crate::cli::plan::{average_kbps, dir_meant, idr_seconds, kept_seconds};
use crate::reading::{
    all_white, lemma_decimal_is_parsed, lemma_only_white_trims_to_nothing, lemma_something_is_left,
};
use crate::text::{decimal, white};

verus! {

/// Law: an option of a recording sets what it names to the value behind it, and nothing else, wherever
/// it stands; what is no option is refused by its name.
pub proof fn lemma_record_options(args: Seq<Seq<char>>, i: int, r: RecordView, n: u64)
    requires
        0 <= i,
        i + 1 < args.len(),
    ensures
        args[i] == "--seconds"@ && args[i + 1] == decimal(n as int) ==> record_from(args, i, r)
            == record_from(args, i + 2, RecordView { seconds: Some(n), ..r }),
        args[i] == "--simulate-device-loss"@ && args[i + 1] == decimal(n as int) ==> record_from(
            args,
            i,
            r,
        ) == record_from(args, i + 2, RecordView { simulate: Some(n), ..r }),
        args[i] == "--out"@ ==> record_from(args, i, r) == record_from(
            args,
            i + 2,
            RecordView { out: Some(args[i + 1]), ..r },
        ),
        record_from(args, args.len() as int, r) == Ok::<RecordView, Seq<char>>(r),
{
    lemma_names_differ();
    lemma_decimal_is_parsed(n as int, u64::MAX as int);
}

/// Law: an option of a buffer sets what it names to the value behind it, and nothing else, wherever it
/// stands; the one that opens the settings window takes no value.
pub proof fn lemma_buffer_options(args: Seq<Seq<char>>, i: int, b: BufferView, n: u64)
    requires
        0 <= i,
        i + 1 < args.len(),
    ensures
        args[i] == "--seconds"@ && args[i + 1] == decimal(n as int) && n <= u32::MAX
            ==> buffer_from(args, i, b) == buffer_from(
            args,
            i + 2,
            BufferView { seconds: Some(n as u32), ..b },
        ),
        args[i] == "--record-secs"@ && args[i + 1] == decimal(n as int) ==> buffer_from(args, i, b)
            == buffer_from(args, i + 2, BufferView { record_secs: Some(n), ..b }),
        args[i] == "--autosave"@ && args[i + 1] == decimal(n as int) ==> buffer_from(args, i, b)
            == buffer_from(args, i + 2, BufferView { autosave: Some(n), ..b }),
        args[i] == "--simulate-device-loss"@ && args[i + 1] == decimal(n as int) ==> buffer_from(
            args,
            i,
            b,
        ) == buffer_from(args, i + 2, BufferView { simulate: Some(n), ..b }),
        args[i] == "--reopen-settings"@ ==> buffer_from(args, i, b) == buffer_from(
            args,
            i + 1,
            BufferView { reopen_settings: true, ..b },
        ),
        buffer_from(args, args.len() as int, b) == Ok::<BufferView, Seq<char>>(b),
{
    lemma_names_differ();
    lemma_decimal_is_parsed(n as int, u64::MAX as int);
    lemma_decimal_is_parsed(n as int, u32::MAX as int);
}

/// Law: an option of the encoder sets what it names, for a recording and for a buffer alike.
pub proof fn lemma_encoder_options(
    args: Seq<Seq<char>>,
    i: int,
    r: RecordView,
    b: BufferView,
    n: u32,
)
    requires
        0 <= i,
        i + 1 < args.len(),
    ensures
        encoder_option(args, i, r.overrides, n) matches Some(o) ==> record_from(args, i, r)
            == record_from(args, i + 2, RecordView { overrides: o, ..r }),
        encoder_option(args, i, b.overrides, n) matches Some(o) ==> buffer_from(args, i, b)
            == buffer_from(args, i + 2, BufferView { overrides: o, ..b }),
{
    lemma_names_differ();
    lemma_encoder_names_differ();
    lemma_decimal_is_parsed(n as int, u32::MAX as int);
}

/// What an option of the encoder, with a number or with a mode behind it, is meant to set.
pub open spec fn encoder_option(args: Seq<Seq<char>>, i: int, o: OverridesView, n: u32) -> Option<
    OverridesView,
> {
    if args[i] == "--encode-rc-mode"@ {
        Some(OverridesView { rc_mode: Some(args[i + 1]), ..o })
    } else if args[i + 1] != decimal(n as int) {
        None
    } else if args[i] == "--encode-quality"@ {
        Some(OverridesView { quality: Some(n), ..o })
    } else if args[i] == "--encode-qp"@ {
        Some(OverridesView { qp: Some(n), ..o })
    } else if args[i] == "--encode-avg-bitrate"@ {
        Some(OverridesView { avg_bitrate_bps: Some(n), ..o })
    } else if args[i] == "--encode-max-bitrate"@ {
        Some(OverridesView { max_bitrate_bps: Some(n), ..o })
    } else {
        None
    }
}

/// No option has another's name.
proof fn lemma_names_differ()
    ensures
        "--seconds"@ != "--out"@,
        "--seconds"@ != "--simulate-device-loss"@,
        "--out"@ != "--simulate-device-loss"@,
        "--seconds"@ != "--record-secs"@,
        "--seconds"@ != "--autosave"@,
        "--seconds"@ != "--reopen-settings"@,
        "--record-secs"@ != "--autosave"@,
        "--record-secs"@ != "--simulate-device-loss"@,
        "--record-secs"@ != "--reopen-settings"@,
        "--autosave"@ != "--simulate-device-loss"@,
        "--autosave"@ != "--reopen-settings"@,
        "--simulate-device-loss"@ != "--reopen-settings"@,
{
    reveal_strlit("--seconds");
    reveal_strlit("--out");
    reveal_strlit("--simulate-device-loss");
    reveal_strlit("--record-secs");
    reveal_strlit("--autosave");
    reveal_strlit("--reopen-settings");
    assert("--seconds"@.len() == 9);
    assert("--out"@.len() == 5);
    assert("--simulate-device-loss"@.len() == 22);
    assert("--record-secs"@.len() == 13);
    assert("--autosave"@.len() == 10);
    assert("--reopen-settings"@.len() == 17);
}

/// No option of the encoder has another's name.
proof fn lemma_encoder_names_differ()
    ensures
        "--encode-rc-mode"@.len() == 16,
        "--encode-rc-mode"@[9] == 'r',
        "--encode-quality"@.len() == 16,
        "--encode-quality"@[9] == 'q',
        "--encode-qp"@.len() == 11,
        "--encode-avg-bitrate"@.len() == 20,
        "--encode-avg-bitrate"@[9] == 'a',
        "--encode-max-bitrate"@.len() == 20,
        "--encode-max-bitrate"@[9] == 'm',
        "--seconds"@.len() == 9,
        "--out"@.len() == 5,
        "--simulate-device-loss"@.len() == 22,
        "--record-secs"@.len() == 13,
        "--autosave"@.len() == 10,
        "--reopen-settings"@.len() == 17,
{
    reveal_strlit("--encode-rc-mode");
    reveal_strlit("--encode-quality");
    reveal_strlit("--encode-qp");
    reveal_strlit("--encode-avg-bitrate");
    reveal_strlit("--encode-max-bitrate");
    reveal_strlit("--seconds");
    reveal_strlit("--out");
    reveal_strlit("--simulate-device-loss");
    reveal_strlit("--record-secs");
    reveal_strlit("--autosave");
    reveal_strlit("--reopen-settings");
}

/// Law: where nothing is asked for, nothing is set.
pub proof fn lemma_no_options_set_nothing()
    ensures
        record_from(Seq::empty(), 0, plain_record()) == Ok::<RecordView, Seq<char>>(
            plain_record(),
        ),
        buffer_from(Seq::empty(), 0, plain_buffer()) == Ok::<BufferView, Seq<char>>(
            plain_buffer(),
        ),
        plain_record().seconds is None && plain_record().out is None && plain_record().simulate is None,
        plain_buffer().seconds is None && plain_buffer().autosave is None
            && plain_buffer().simulate is None && plain_buffer().record_secs is None
            && !plain_buffer().reopen_settings,
        plain_record().overrides == no_overrides() && plain_buffer().overrides == no_overrides(),
        no_overrides().rc_mode is None && no_overrides().quality is None && no_overrides().qp is None
            && no_overrides().avg_bitrate_bps is None && no_overrides().max_bitrate_bps is None,
{
}

/// Law: a program that is started again is given its own arguments, in order, but for the option that
/// opens the settings window: none is added, and no other is left out.
pub proof fn lemma_relaunch_keeps_arguments(args: Seq<Seq<char>>, arg: Seq<char>)
    ensures
        arg != "--reopen-settings"@ ==> without_flag(args.push(arg)) == without_flag(args).push(arg),
        without_flag(args.push("--reopen-settings"@)) == without_flag(args),
        without_flag(Seq::empty()).len() == 0,
{
    reveal(Seq::filter);
    assert(args.push(arg).drop_last() =~= args);
    assert(args.push("--reopen-settings"@).drop_last() =~= args);
}

/// Law: a probe runs for the seconds that are asked for, and otherwise for its usual time.
pub proof fn lemma_probes_run_as_long_as_asked(name: Seq<char>, n: u64)
    ensures
        asked(seq!["capture-probe"@, decimal(n as int)]) == Asked::CaptureProbe(n),
        asked(seq!["audio-probe"@, decimal(n as int)]) == Asked::AudioProbe(n),
        asked(seq!["encode-probe"@, decimal(n as int)]) == Asked::EncodeProbe(n),
        asked(seq!["aac-probe"@, decimal(n as int)]) == Asked::AacProbe(n),
        asked(seq!["binding-probe"@, decimal(n as int)]) == Asked::BindingProbe(n),
        asked(seq!["window-capture-probe"@, decimal(n as int)]) == Asked::WindowCaptureProbe(n),
        asked(seq!["window-events-probe"@, decimal(n as int)]) == Asked::WindowEventsProbe(n),
{
    lemma_decimal_is_parsed(n as int, u64::MAX as int);
    lemma_commands_differ();
}

/// No command has another's name.
proof fn lemma_commands_differ()
    ensures
        "-h"@.len() == 2,
        "--help"@.len() == 6,
        "-V"@.len() == 2,
        "--version"@.len() == 9,
        "--version"@[0] == '-',
        "--check-config"@.len() == 14,
        "probe-gpu"@.len() == 9,
        "probe-gpu"@[0] == 'p',
        "capture-probe"@.len() == 13,
        "capture-probe"@[1] == 'a',
        "window-capture-probe"@.len() == 20,
        "window-events-probe"@.len() == 19,
        "record"@.len() == 6,
        "buffer"@.len() == 6,
        "convert-probe"@.len() == 13,
        "convert-probe"@[1] == 'o',
        "audio-probe"@.len() == 11,
        "binding-probe"@.len() == 13,
        "binding-probe"@[1] == 'i',
        "list-audio-devices"@.len() == 18,
        "toast-test"@.len() == 10,
        "aac-probe"@.len() == 9,
        "aac-probe"@[0] == 'a',
        "encode-probe"@.len() == 12,
{
    reveal_strlit("-h");
    reveal_strlit("--help");
    reveal_strlit("-V");
    reveal_strlit("--version");
    reveal_strlit("--check-config");
    reveal_strlit("probe-gpu");
    reveal_strlit("capture-probe");
    reveal_strlit("window-capture-probe");
    reveal_strlit("window-events-probe");
    reveal_strlit("record");
    reveal_strlit("buffer");
    reveal_strlit("convert-probe");
    reveal_strlit("audio-probe");
    reveal_strlit("binding-probe");
    reveal_strlit("list-audio-devices");
    reveal_strlit("toast-test");
    reveal_strlit("aac-probe");
    reveal_strlit("encode-probe");
}

/// Law: a buffer keeps the seconds that are asked for, or else those of the settings, if that is from
/// one second to ten minutes; else it keeps what is nearest to it in these bounds.
pub proof fn lemma_kept_seconds_are_nearest(wanted: u32, configured: u32, other: u32)
    ensures
        kept_seconds(Some(wanted), configured) == kept_seconds(None, wanted),
        1 <= kept_seconds(None, wanted) <= 600,
        1 <= wanted <= 600 ==> kept_seconds(None, wanted) == wanted,
        1 <= other <= 600 && wanted < 1 ==> kept_seconds(None, wanted) <= other,
        1 <= other <= 600 && wanted > 600 ==> kept_seconds(None, wanted) >= other,
{
}

/// Law: a keyframe comes every two seconds, or every second where clips are cut precisely.
pub proof fn lemma_keyframe_spacing(precise: bool)
    ensures
        precise ==> idr_seconds(precise) == 1,
        !precise ==> idr_seconds(precise) == 2,
{
}

/// Law: an average is what makes up the bytes: times the seconds it is no more than these, and one
/// more would be.
pub proof fn lemma_average_makes_up_the_bytes(bytes: int, seconds: int)
    requires
        0 <= bytes,
        0 < seconds,
    ensures
        1_000 * (average_kbps(bytes, seconds) * seconds) <= 8 * bytes,
        8 * bytes < 1_000 * ((average_kbps(bytes, seconds) + 1) * seconds),
{
    let kilobits = bytes * 8 / 1000;
    let k = kilobits / seconds;
    vstd::arithmetic::div_mod::lemma_fundamental_div_mod(kilobits, seconds);
    assert(seconds * k == k * seconds) by (nonlinear_arith);
    assert((k + 1) * seconds == k * seconds + seconds) by (nonlinear_arith);
}

/// Law: a folder that is set is taken as it is, and the usual one where nothing but white space is.
pub proof fn lemma_folder_is_taken_as_set(set: Seq<char>, usual: Seq<char>, i: int)
    ensures
        all_white(set) ==> dir_meant(set, usual) == usual,
        0 <= i < set.len() && !white(set[i]) ==> dir_meant(set, usual) == set,
{
    if all_white(set) {
        lemma_only_white_trims_to_nothing(set);
    }
    if 0 <= i < set.len() && !white(set[i]) {
        lemma_something_is_left(set, i);
    }
}

} // verus!
