//! What the settings window shows and takes: lengths, levels and keys.

use vstd::prelude::*;

use crate::audio::{AudioDevice, AudioTrackKind};
use crate::check::micros::pieces;
use crate::config::ConfigView;
use crate::engine::CommandView;
use crate::reading::{
    digits_only, is_free_of, joined, lemma_decimal2_reads_back, lemma_decimal_reads_back,
    lemma_joined_come_apart,
};
use crate::status::StatusSnapshot;
use crate::text::{decimal, decimal2, number, trimmed};
use crate::ui::recent::shown::lemma_rounding_is_nearest;
use crate::ui::recent::{rounded, tenths_text};
use crate::ui::settings::editor::{
    command_if, kept_length, live_commands, rebind_of, rebinds_of, rebound, EditorView,
};
use crate::ui::settings::keys::{
    combo_text, pressed_combo, token_of, HotkeyTarget, Modifiers, RebindOutcome,
};
use crate::ui::settings::lines::{
    at_rank, below_rank, buffer_len_text, fill_text, meter_rank, mmss, record_elapsed_text,
};
use crate::ui::settings::mic::{device_name, mic_on};

verus! {

/// Law: minutes and seconds read back as the seconds they are made of; the seconds have two digits and
/// are below sixty.
pub proof fn lemma_minutes_and_seconds_read_back(secs: int) -> (r: (Seq<char>, Seq<char>))
    requires
        0 <= secs,
    ensures
        mmss(secs) == r.0 + ":"@ + r.1,
        digits_only(r.0),
        digits_only(r.1),
        r.1.len() == 2,
        number(r.1) < 60,
        number(r.0) * 60 + number(r.1) == secs,
{
    lemma_decimal_reads_back(secs / 60);
    lemma_decimal2_reads_back(secs % 60);
    (decimal(secs / 60), decimal2(secs % 60))
}

/// Law: a recording's time is the whole seconds since it started, and none where it has not, or where
/// the clock went back.
pub proof fn lemma_recording_time_is_whole_seconds(started: int, now: int) -> (secs: int)
    requires
        0 <= started,
        0 <= now,
    ensures
        record_elapsed_text(started, now) == mmss(secs),
        started == 0 || now <= started ==> secs == 0,
        started > 0 && now > started ==> 1_000 * secs <= now - started < 1_000 * (secs + 1),
{
    if started == 0 || now < started {
        0
    } else {
        (now - started) / 1000
    }
}

/// Law: a buffer's length reads back: minutes and seconds make up the seconds, and what would be zero is
/// not said.
pub proof fn lemma_buffer_length_reads_back(seconds: int) -> (r: (Seq<char>, Seq<char>))
    requires
        0 <= seconds,
    ensures
        digits_only(r.0),
        digits_only(r.1),
        seconds < 60 ==> buffer_len_text(seconds) == r.0 + " s"@ && number(r.0) == seconds,
        seconds >= 60 && seconds % 60 == 0 ==> buffer_len_text(seconds) == r.0 + " min"@ && number(
            r.0,
        ) * 60 == seconds,
        seconds >= 60 && seconds % 60 != 0 ==> buffer_len_text(seconds) == r.0 + " min "@ + r.1
            + " s"@ && number(r.0) * 60 + number(r.1) == seconds && 0 < number(r.1) < 60,
{
    if seconds < 60 {
        lemma_decimal_reads_back(seconds);
        (decimal(seconds), Seq::empty())
    } else {
        lemma_decimal_reads_back(seconds / 60);
        lemma_decimal_reads_back(seconds % 60);
        (decimal(seconds / 60), decimal(seconds % 60))
    }
}

/// Law: what the ring holds is shown to the nearest tenth of a second and of a mebibyte, beside the
/// seconds that it is set to hold.
pub proof fn lemma_fill_is_shown_to_the_tenth(s: StatusSnapshot) -> (r: (int, int))
    requires
        0 <= s.held_ticks,
        0 <= s.held_bytes,
    ensures
        fill_text(s) == "Buffer: "@ + tenths_text(r.0) + " s / "@ + decimal(
            s.configured_seconds as int,
        ) + " s held · "@ + tenths_text(r.1) + " MiB"@,
        -10_000_000 <= 2 * (r.0 * 10_000_000 - s.held_ticks * 10) <= 10_000_000,
        -1_048_576 <= 2 * (r.1 * 1_048_576 - s.held_bytes * 10) <= 1_048_576,
{
    lemma_rounding_is_nearest(s.held_ticks * 10, 10_000_000);
    lemma_rounding_is_nearest(s.held_bytes * 10, 1_048_576);
    (rounded(s.held_ticks * 10, 10_000_000), rounded(s.held_bytes * 10, 1_048_576))
}

/// The streams at a rank, of those below a rank.
proof fn lemma_at_rank(streams: Seq<AudioTrackKind>, rank: nat, r: u8)
    requires
        rank <= 5,
    ensures
        at_rank(below_rank(streams, rank), r) == if r < rank {
            at_rank(streams, r)
        } else {
            Seq::empty()
        },
        forall|i: int|
            0 <= i < below_rank(streams, rank).len() ==> meter_rank(
                #[trigger] below_rank(streams, rank)[i],
            ) < rank,
        forall|i: int, j: int|
            0 <= i < j < below_rank(streams, rank).len() ==> meter_rank(
                #[trigger] below_rank(streams, rank)[i],
            ) <= meter_rank(#[trigger] below_rank(streams, rank)[j]),
    decreases rank,
{
    let wanted = |kind: AudioTrackKind| meter_rank(kind) == r;
    if rank == 0 {
        reveal(Seq::filter);
        assert(at_rank(below_rank(streams, 0), r) =~= Seq::empty());
    } else {
        let last = (rank - 1) as u8;
        let before = below_rank(streams, (rank - 1) as nat);
        let more = at_rank(streams, last);
        lemma_at_rank(streams, (rank - 1) as nat, r);
        lemma_only_rank(streams, last);
        Seq::filter_distributes_over_add(before, more, wanted);
        if r == last {
            lemma_all_wanted(more, r);
            assert(at_rank(before, r) =~= Seq::empty());
            assert(at_rank(before + more, r) =~= more);
        } else {
            lemma_none_wanted(more, r);
            assert(at_rank(before + more, r) =~= at_rank(before, r));
        }
        let all = below_rank(streams, rank);
        assert forall|i: int| 0 <= i < all.len() implies meter_rank(#[trigger] all[i]) < rank by {
            if i >= before.len() {
                assert(all[i] == more[i - before.len()]);
            }
        }
        assert forall|i: int, j: int| 0 <= i < j < all.len() implies meter_rank(#[trigger] all[i])
            <= meter_rank(#[trigger] all[j]) by {
            if j >= before.len() {
                assert(all[j] == more[j - before.len()]);
                if i >= before.len() {
                    assert(all[i] == more[i - before.len()]);
                }
            }
        }
    }
}

/// What stands at a rank is of that rank.
proof fn lemma_only_rank(streams: Seq<AudioTrackKind>, r: u8)
    ensures
        forall|i: int|
            0 <= i < at_rank(streams, r).len() ==> meter_rank(#[trigger] at_rank(streams, r)[i])
                == r,
    decreases streams.len(),
{
    reveal(Seq::filter);
    if streams.len() > 0 {
        lemma_only_rank(streams.drop_last(), r);
    }
}

/// Where all are of a rank, all stand at it.
proof fn lemma_all_wanted(streams: Seq<AudioTrackKind>, r: u8)
    requires
        forall|i: int| 0 <= i < streams.len() ==> meter_rank(#[trigger] streams[i]) == r,
    ensures
        at_rank(streams, r) == streams,
    decreases streams.len(),
{
    reveal(Seq::filter);
    if streams.len() > 0 {
        let init = streams.drop_last();
        assert forall|i: int| 0 <= i < init.len() implies meter_rank(#[trigger] init[i]) == r by {
            assert(init[i] == streams[i]);
        }
        lemma_all_wanted(init, r);
        assert(streams[streams.len() - 1] == streams.last());
        assert(at_rank(streams, r) =~= streams);
    }
}

/// Where none is of a rank, none stands at it.
proof fn lemma_none_wanted(streams: Seq<AudioTrackKind>, r: u8)
    requires
        forall|i: int| 0 <= i < streams.len() ==> meter_rank(#[trigger] streams[i]) != r,
    ensures
        at_rank(streams, r).len() == 0,
    decreases streams.len(),
{
    reveal(Seq::filter);
    if streams.len() > 0 {
        let init = streams.drop_last();
        assert forall|i: int| 0 <= i < init.len() implies meter_rank(#[trigger] init[i]) != r by {
            assert(init[i] == streams[i]);
        }
        lemma_none_wanted(init, r);
        assert(streams[streams.len() - 1] == streams.last());
    }
}

/// Law: every stream has its meter. The meters are the streams in another order: the microphone first,
/// then the mix, the game, the voices and the rest; and those of one kind as they come.
pub proof fn lemma_every_stream_has_its_meter(streams: Seq<AudioTrackKind>, kind: AudioTrackKind)
    ensures
        below_rank(streams, 5).filter(|k: AudioTrackKind| k == kind) == streams.filter(
            |k: AudioTrackKind| k == kind,
        ),
        forall|i: int, j: int|
            0 <= i < j < below_rank(streams, 5).len() ==> meter_rank(
                #[trigger] below_rank(streams, 5)[i],
            ) <= meter_rank(#[trigger] below_rank(streams, 5)[j]),
        meter_rank(AudioTrackKind::Mic) < meter_rank(AudioTrackKind::Mix) < meter_rank(
            AudioTrackKind::Game,
        ) < meter_rank(AudioTrackKind::VoiceChat) < meter_rank(AudioTrackKind::OtherSystem),
{
    let r = meter_rank(kind);
    lemma_at_rank(streams, 5, r);
    lemma_kind_is_rank(streams, kind);
    lemma_kind_is_rank(below_rank(streams, 5), kind);
}

/// A kind is what stands at its rank.
proof fn lemma_kind_is_rank(streams: Seq<AudioTrackKind>, kind: AudioTrackKind)
    ensures
        streams.filter(|k: AudioTrackKind| k == kind) == at_rank(streams, meter_rank(kind)),
    decreases streams.len(),
{
    reveal(Seq::filter);
    if streams.len() > 0 {
        lemma_kind_is_rank(streams.drop_last(), kind);
    }
}

/// The modifiers that are down, by name.
pub open spec fn modifier_words(mods: Modifiers) -> Seq<Seq<char>> {
    (if mods.ctrl {
        seq!["Ctrl"@]
    } else {
        Seq::empty()
    }) + (if mods.alt {
        seq!["Alt"@]
    } else {
        Seq::empty()
    }) + (if mods.shift {
        seq!["Shift"@]
    } else {
        Seq::empty()
    })
}

/// Law: a combination reads back: parted at its plus signs, it is the modifiers that are down, each
/// once, and then the key.
pub proof fn lemma_combination_reads_back(mods: Modifiers, token: Seq<char>)
    requires
        is_free_of(token, '+'),
    ensures
        pieces(combo_text(mods, token), '+') == modifier_words(mods).push(token),
{
    reveal_strlit("Ctrl+");
    reveal_strlit("Alt+");
    reveal_strlit("Shift+");
    reveal_strlit("Ctrl");
    reveal_strlit("Alt");
    reveal_strlit("Shift");
    reveal_strlit("");
    let parts = modifier_words(mods).push(token);
    assert(is_free_of("Ctrl"@, '+') && is_free_of("Alt"@, '+') && is_free_of("Shift"@, '+'));
    assert forall|i: int| 0 <= i < parts.len() implies is_free_of(#[trigger] parts[i], '+') by {}
    lemma_joined_come_apart(parts, '+');
    reveal_with_fuel(joined, 5);
    let words = modifier_words(mods);
    assert(parts.drop_last() =~= words);
    if words.len() >= 1 {
        assert(words.drop_last().len() == words.len() - 1);
    }
    assert(joined(parts, '+') =~= combo_text(mods, token));
}

/// Law: a key is bound with Ctrl or Alt down, and never without. A letter is bound as its capital,
/// whether it was typed so or not, and a digit as itself.
pub proof fn lemma_which_keys_can_be_bound(mods: Modifiers, name: Seq<char>, c: char)
    ensures
        !mods.ctrl && !mods.alt ==> pressed_combo(mods, name) is None,
        mods.ctrl || mods.alt ==> (pressed_combo(mods, name) is Some <==> token_of(name) is Some),
        'A' <= c <= 'Z' ==> token_of(seq![c]) == Some(seq![c]),
        'a' <= c <= 'z' ==> token_of(seq![c]) == Some(seq![(c as int - 'a' as int + 'A' as int) as char]),
        '0' <= c <= '9' ==> token_of(seq![c]) == Some(seq![c]),
        '0' <= c <= '9' ==> token_of(seq!['F', c]) == Some(seq!['F', c]),
        !('A' <= c <= 'Z') && !('a' <= c <= 'z') && !('0' <= c <= '9') ==> token_of(seq![c]) is None,
{
    if 'a' <= c <= 'z' {
        assert(token_of(seq![c]) == Some(seq![(c as int - 32) as char]));
    }
}

/// Law: a length that can be set is from one second to ten minutes, and stays as it is; any other is
/// moved to the nearest of these.
pub proof fn lemma_length_is_kept_in_bounds(seconds: u32)
    ensures
        1 <= kept_length(seconds) <= 600,
        1 <= seconds <= 600 ==> kept_length(seconds) == seconds,
        seconds > 600 ==> kept_length(seconds) == 600,
{
}

/// Law: a device is shown by the name of the first that has its id, and one that is gone by its id.
pub proof fn lemma_device_is_shown_by_its_name(devices: Seq<AudioDevice>, id: Seq<char>, k: int)
    ensures
        0 <= k < devices.len() && devices[k].id@ == id && (forall|j: int|
            0 <= j < k ==> (#[trigger] devices[j]).id@ != id) ==> device_name(devices, id) == Some(
            devices[k].name@,
        ),
        (forall|j: int| 0 <= j < devices.len() ==> (#[trigger] devices[j]).id@ != id)
            ==> device_name(devices, id) is None,
    decreases devices.len(),
{
    if devices.len() > 0 {
        let rest = devices.drop_first();
        lemma_device_is_shown_by_its_name(rest, id, k - 1);
        if 0 < k < devices.len() && devices[k].id@ == id && (forall|j: int|
            0 <= j < k ==> (#[trigger] devices[j]).id@ != id) {
            assert(devices[0].id@ != id);
            assert(rest[k - 1] == devices[k]);
            assert forall|j: int| 0 <= j < k - 1 implies (#[trigger] rest[j]).id@ != id by {
                assert(rest[j] == devices[j + 1]);
            }
        }
        if forall|j: int| 0 <= j < devices.len() ==> (#[trigger] devices[j]).id@ != id {
            assert(devices[0].id@ != id);
            assert forall|j: int| 0 <= j < rest.len() implies (#[trigger] rest[j]).id@ != id by {
                assert(rest[j] == devices[j + 1]);
            }
        }
    }
}

/// Law: the engine is told of just what was changed, with its new value: whether a save empties the ring,
/// the folder, the length, and the microphone where there is one before and after.
pub proof fn lemma_engine_is_told_of_each_change(
    base: ConfigView,
    draft: ConfigView,
    dir: Seq<char>,
    command: CommandView,
)
    ensures
        live_commands(base, draft, dir).contains(command) <==> match command {
            CommandView::SetClearAfterSave(clear) => clear == draft.buffer.clear_after_save && clear
                != base.buffer.clear_after_save,
            CommandView::SetOutputDir(to) => to == dir && draft.dir != base.dir,
            CommandView::SetDurationCap(seconds) => seconds == draft.buffer.seconds && seconds
                != base.buffer.seconds,
            CommandView::SetMicSelection(mic) => mic == trimmed(draft.mic) && draft.mic != base.mic
                && trimmed(base.mic) != "off"@ && trimmed(draft.mic) != "off"@,
            _ => false,
        },
        live_commands(base, draft, dir).no_duplicates(),
{
    let a = command_if(
        draft.buffer.clear_after_save != base.buffer.clear_after_save,
        CommandView::SetClearAfterSave(draft.buffer.clear_after_save),
    );
    let b = command_if(draft.dir != base.dir, CommandView::SetOutputDir(dir));
    let c = command_if(
        draft.buffer.seconds != base.buffer.seconds,
        CommandView::SetDurationCap(draft.buffer.seconds),
    );
    let d = command_if(
        draft.mic != base.mic && mic_on(base.mic) && mic_on(draft.mic),
        CommandView::SetMicSelection(trimmed(draft.mic)),
    );
    let all = live_commands(base, draft, dir);
    assert(all == a + b + c + d);
    if a.len() > 0 {
        assert(all[0] == a[0]);
    }
    if b.len() > 0 {
        assert(all[a.len() as int] == b[0]);
    }
    if c.len() > 0 {
        assert(all[(a + b).len() as int] == c[0]);
    }
    if d.len() > 0 {
        assert(all[(a + b + c).len() as int] == d[0]);
    }
}

/// Law: a hotkey is bound anew where its text was changed, white space aside, and only there; and one
/// that another program has keeps its old text.
pub proof fn lemma_changed_hotkeys_are_bound(e: EditorView, target: HotkeyTarget)
    ensures
        ({
            let (draft, base) = match target {
                HotkeyTarget::Save => (e.draft.save_clip, e.base.save_clip),
                HotkeyTarget::Record => (e.draft.record_toggle, e.base.record_toggle),
            };
            let kept = rebound(e, target, RebindOutcome::Conflict).draft;
            &&& rebinds_of(e).contains((target, trimmed(draft))) <==> trimmed(draft) != trimmed(base)
            &&& rebinds_of(e).len() <= 2
            &&& match target {
                HotkeyTarget::Save => kept.save_clip == trimmed(base) && kept.record_toggle
                    == e.draft.record_toggle,
                HotkeyTarget::Record => kept.record_toggle == trimmed(base) && kept.save_clip
                    == e.draft.save_clip,
            }
        }),
{
    let save = rebind_of(e, HotkeyTarget::Save);
    let record = rebind_of(e, HotkeyTarget::Record);
    let all = rebinds_of(e);
    if save.len() > 0 {
        assert(all[0] == save[0]);
    }
    if record.len() > 0 {
        assert(all[save.len() as int] == record[0]);
    }
}

} // verus!
