//! Hotkeys in the settings window: what a press binds, and what is said of a binding.

use vstd::prelude::*;

use crate::hotkey::{parse_hotkey, parsed_hotkey, Hotkey, HotkeyError};
use crate::text::{is_digit, same_text};

verus! {

/// A hotkey that can be bound.
#[derive(Debug, Clone, Copy, PartialEq, Eq, Structural)]
pub enum HotkeyTarget {
    /// The one that saves a clip.
    Save,
    /// The one that starts and stops a recording.
    Record,
}

/// The place of a hotkey among the two.
pub open spec fn place(target: HotkeyTarget) -> int {
    match target {
        HotkeyTarget::Save => 0,
        HotkeyTarget::Record => 1,
    }
}

/// The other hotkey.
pub open spec fn other_of(target: HotkeyTarget) -> HotkeyTarget {
    match target {
        HotkeyTarget::Save => HotkeyTarget::Record,
        HotkeyTarget::Record => HotkeyTarget::Save,
    }
}

/// What a hotkey is called.
pub open spec fn target_text(target: HotkeyTarget) -> Seq<char> {
    match target {
        HotkeyTarget::Save => "Save clip"@,
        HotkeyTarget::Record => "Record toggle"@,
    }
}

impl HotkeyTarget {
    /// The place of the hotkey among the two.
    pub fn idx(self) -> (i: usize)
        ensures
            i == place(self),
    {
        match self {
            HotkeyTarget::Save => 0,
            HotkeyTarget::Record => 1,
        }
    }

    /// The other hotkey.
    pub fn other(self) -> (t: HotkeyTarget)
        ensures
            t == other_of(self),
    {
        match self {
            HotkeyTarget::Save => HotkeyTarget::Record,
            HotkeyTarget::Record => HotkeyTarget::Save,
        }
    }

    /// What the hotkey is called.
    pub fn label(self) -> (s: &'static str)
        ensures
            s@ == target_text(self),
    {
        match self {
            HotkeyTarget::Save => "Save clip",
            HotkeyTarget::Record => "Record toggle",
        }
    }
}

/// Whether a combination is free.
#[derive(Debug, Clone, Copy, PartialEq, Eq, Structural)]
pub enum Availability {
    Available,
    /// Another program has it.
    Taken,
    /// It could not be found out.
    Unknown,
}

/// How a new binding went.
#[derive(Debug, Clone, Copy, PartialEq, Eq, Structural)]
pub enum RebindOutcome {
    /// It holds, and its events carry this id.
    Applied(u32),
    /// Another program has the combination; the old binding holds.
    Conflict,
    /// Nobody answered.
    Unknown,
}

/// The modifiers that were down.
#[derive(Debug, Clone, Copy, PartialEq, Eq, Structural)]
pub struct Modifiers {
    pub ctrl: bool,
    pub alt: bool,
    pub shift: bool,
}

/// Whether a character is an ASCII letter.
pub open spec fn is_letter(c: char) -> bool {
    'a' <= c <= 'z' || 'A' <= c <= 'Z'
}

/// A character with a small ASCII letter made a capital.
pub open spec fn upper(c: char) -> char {
    if 'a' <= c <= 'z' {
        (c as int - 32) as char
    } else {
        c
    }
}

/// Whether a name is that of a function key: an `F` and a number.
pub open spec fn names_function_key(name: Seq<char>) -> bool {
    &&& name.len() >= 2
    &&& name[0] == 'F'
    &&& forall|i: int| 1 <= i < name.len() ==> is_digit(#[trigger] name[i])
}

/// The word for a key in a combination, if the key can be bound: a letter, a digit or a function
/// key.
pub open spec fn token_of(name: Seq<char>) -> Option<Seq<char>> {
    if name.len() == 1 && is_letter(name[0]) {
        Some(seq![upper(name[0])])
    } else if name.len() == 1 && is_digit(name[0]) {
        Some(name)
    } else if names_function_key(name) {
        Some(name)
    } else {
        None
    }
}

/// Whether a text is what was meant, where there is one.
pub open spec fn is_text(s: Option<String>, meant: Option<Seq<char>>) -> bool {
    match s {
        Some(s) => meant == Some(s@),
        None => meant is None,
    }
}

/// Whether a name is that of a function key.
fn is_function_key(name: &str) -> (b: bool)
    ensures
        b == names_function_key(name@),
{
    let n: usize = name.unicode_len();
    if n < 2 || name.get_char(0) != 'F' {
        return false;
    }
    let mut i: usize = 1;
    while i < n
        invariant
            1 <= i <= n,
            n == name@.len(),
            forall|k: int| 1 <= k < i ==> is_digit(#[trigger] name@[k]),
        decreases n - i,
    {
        let c: char = name.get_char(i);
        if c < '0' || c > '9' {
            assert(!is_digit(name@[i as int]));
            return false;
        }
        i = i + 1;
    }
    true
}

/// The word for a key in a combination, if the key can be bound.
pub fn key_to_token(name: &str) -> (token: Option<String>)
    ensures
        is_text(token, token_of(name@)),
{
    if name.unicode_len() == 1 {
        let c: char = name.get_char(0);
        if (c >= 'a' && c <= 'z') || (c >= 'A' && c <= 'Z') {
            let mut token: String = String::new();
            token.push(
                if c >= 'a' {
                    (c as u8 - 32) as char
                } else {
                    c
                },
            );
            assert(token@ =~= seq![upper(name@[0])]);
            return Some(token);
        }
        if c >= '0' && c <= '9' {
            return Some(String::from_str(name));
        }
        return None;
    }
    if is_function_key(name) {
        return Some(String::from_str(name));
    }
    None
}

/// The text of a combination.
pub open spec fn combo_text(mods: Modifiers, token: Seq<char>) -> Seq<char> {
    (if mods.ctrl {
        "Ctrl+"@
    } else {
        ""@
    }) + (if mods.alt {
        "Alt+"@
    } else {
        ""@
    }) + (if mods.shift {
        "Shift+"@
    } else {
        ""@
    }) + token
}

/// The combination that a press stands for: a key that can be bound, with Ctrl or Alt down.
pub open spec fn pressed_combo(mods: Modifiers, name: Seq<char>) -> Option<Seq<char>> {
    if mods.ctrl || mods.alt {
        match token_of(name) {
            Some(token) => Some(combo_text(mods, token)),
            None => None,
        }
    } else {
        None
    }
}

/// The combination that a press binds: the one that it stands for, where that is a hotkey.
pub open spec fn bound_combo(mods: Modifiers, name: Seq<char>) -> Option<Seq<char>> {
    match pressed_combo(mods, name) {
        Some(combo) => if parsed_hotkey(combo) is Ok {
            Some(combo)
        } else {
            None
        },
        None => None,
    }
}

/// The combination that a press stands for.
pub fn combo_from(mods: Modifiers, name: &str) -> (combo: Option<String>)
    ensures
        is_text(combo, pressed_combo(mods, name@)),
{
    if !(mods.ctrl || mods.alt) {
        return None;
    }
    match key_to_token(name) {
        Some(token) => {
            let mut combo: String = String::from_str(
                if mods.ctrl {
                    "Ctrl+"
                } else {
                    ""
                },
            );
            combo.append(
                if mods.alt {
                    "Alt+"
                } else {
                    ""
                },
            );
            combo.append(
                if mods.shift {
                    "Shift+"
                } else {
                    ""
                },
            );
            combo.append(token.as_str());
            Some(combo)
        },
        None => None,
    }
}

/// The combination that a press binds. Ctrl or Alt has to be down, so that no hotkey fires on a
/// plain key.
pub fn accelerator_from(mods: Modifiers, name: &str) -> (combo: Option<String>)
    ensures
        is_text(combo, bound_combo(mods, name@)),
{
    match combo_from(mods, name) {
        Some(combo) => match parse_hotkey(combo.as_str()) {
            Ok(_) => Some(combo),
            Err(_) => None,
        },
        None => None,
    }
}

/// A key that went down or up.
#[derive(Debug, Clone, PartialEq, Eq)]
pub struct KeyEvent {
    pub name: String,
    pub pressed: bool,
    pub mods: Modifiers,
}

/// What a press means while a hotkey is bound.
#[derive(Debug, Clone, PartialEq, Eq)]
pub enum CaptureResult {
    /// Leave the binding as it is.
    Cancel,
    /// Bind this combination.
    Bound(String),
}

/// What a key event means: escape cancels, a combination is bound, anything else is ignored.
pub open spec fn meaning(event: KeyEvent) -> Option<Option<Seq<char>>> {
    if !event.pressed {
        None
    } else if event.name@ == "Escape"@ {
        Some(None)
    } else {
        match bound_combo(event.mods, event.name@) {
            Some(combo) => Some(Some(combo)),
            None => None,
        }
    }
}

/// What a capture says.
pub open spec fn capture_view(r: CaptureResult) -> Option<Seq<char>> {
    match r {
        CaptureResult::Cancel => None,
        CaptureResult::Bound(combo) => Some(combo@),
    }
}

/// The first event that means something, and what it means.
pub fn capture_combo(events: &[KeyEvent]) -> (r: Option<(usize, CaptureResult)>)
    ensures
        r is None ==> forall|i: int| 0 <= i < events@.len() ==> meaning(#[trigger] events@[i]) is None,
        r matches Some((i, result)) ==> i < events@.len() && meaning(events@[i as int]) == Some(
            capture_view(result),
        ) && forall|k: int| 0 <= k < i ==> meaning(#[trigger] events@[k]) is None,
{
    let n: usize = events.len();
    let mut i: usize = 0;
    while i < n
        invariant
            i <= n,
            n == events@.len(),
            forall|k: int| 0 <= k < i ==> meaning(#[trigger] events@[k]) is None,
        decreases n - i,
    {
        if events[i].pressed {
            if same_text(events[i].name.as_str(), "Escape") {
                return Some((i, CaptureResult::Cancel));
            }
            match accelerator_from(events[i].mods, events[i].name.as_str()) {
                Some(combo) => {
                    return Some((i, CaptureResult::Bound(combo)));
                },
                None => {},
            }
        }
        i = i + 1;
    }
    None
}

/// Whether two hotkeys are the same.
pub fn same_hotkey(a: &Hotkey, b: &Hotkey) -> (r: bool)
    ensures
        r == (a.parts() == b.parts()),
{
    a.mods == b.mods && a.id == b.id && same_text(a.key.as_str(), b.key.as_str())
}

/// What is wrong with two parsed hotkeys: the first that is none, or that they are the same.
pub open spec fn fault_of(
    save: Result<Hotkey, HotkeyError>,
    record: Result<Hotkey, HotkeyError>,
) -> Option<Seq<char>> {
    match (save, record) {
        (Err(e), _) => Some("save-clip hotkey: "@ + e.text()),
        (Ok(_), Err(e)) => Some("record hotkey: "@ + e.text()),
        (Ok(save), Ok(record)) => if save.parts() == record.parts() {
            Some("save-clip and record hotkeys must differ"@)
        } else {
            None
        },
    }
}

/// What is wrong with two parsed hotkeys.
pub fn hotkeys_fault(save: &Result<Hotkey, HotkeyError>, record: &Result<Hotkey, HotkeyError>) -> (r:
    Option<String>)
    ensures
        is_text(r, fault_of(*save, *record)),
{
    match save {
        Err(e) => {
            let mut s: String = String::from_str("save-clip hotkey: ");
            let why: String = e.message();
            s.append(why.as_str());
            Some(s)
        },
        Ok(save) => match record {
            Err(e) => {
                let mut s: String = String::from_str("record hotkey: ");
                let why: String = e.message();
                s.append(why.as_str());
                Some(s)
            },
            Ok(record) => if same_hotkey(save, record) {
                Some(String::from_str("save-clip and record hotkeys must differ"))
            } else {
                None
            },
        },
    }
}

/// What is said of a text that is no hotkey's.
pub open spec fn parse_fault(text: Seq<char>, why: Seq<char>) -> Seq<char> {
    "could not parse hotkey '"@ + text + "': "@ + why
}

/// What is wrong with two hotkeys' texts.
pub open spec fn texts_fault(save: Seq<char>, record: Seq<char>) -> Option<Seq<char>> {
    match (parsed_hotkey(save), parsed_hotkey(record)) {
        (Err(why), _) => Some("save-clip hotkey: "@ + parse_fault(save, why)),
        (Ok(_), Err(why)) => Some("record hotkey: "@ + parse_fault(record, why)),
        (Ok(a), Ok(b)) => if a == b {
            Some("save-clip and record hotkeys must differ"@)
        } else {
            None
        },
    }
}

/// What is wrong with two hotkeys' texts: the first that is no hotkey's, or that both are those of
/// the same one.
pub fn check_hotkeys(save: &str, record: &str) -> (r: Option<String>)
    ensures
        is_text(r, texts_fault(save@, record@)),
{
    hotkeys_fault(&parse_hotkey(save), &parse_hotkey(record))
}

/// The note beside a hotkey that is the same as the other one.
pub open spec fn conflict_text(this: Seq<char>, other: Seq<char>, target: HotkeyTarget) -> Option<
    Seq<char>,
> {
    match (parsed_hotkey(this), parsed_hotkey(other)) {
        (Ok(a), Ok(b)) => if a == b {
            Some("⚠ same as "@ + target_text(other_of(target)))
        } else {
            None
        },
        _ => None,
    }
}

/// The note beside a hotkey, given what its text and the other's are parsed as.
pub fn conflict_note(
    this: &Result<Hotkey, HotkeyError>,
    other: &Result<Hotkey, HotkeyError>,
    target: HotkeyTarget,
) -> (note: Option<String>)
    ensures
        is_text(
            note,
            if *this is Ok && *other is Ok && this->Ok_0.parts() == other->Ok_0.parts() {
                Some("⚠ same as "@ + target_text(other_of(target)))
            } else {
                None
            },
        ),
{
    match this {
        Ok(this) => match other {
            Ok(other) => if same_hotkey(this, other) {
                let mut s: String = String::from_str("⚠ same as ");
                s.append(target.other().label());
                Some(s)
            } else {
                None
            },
            Err(_) => None,
        },
        Err(_) => None,
    }
}

/// The note beside a hotkey that is the same as the other one.
pub fn note_conflict(this: &str, other: &str, target: HotkeyTarget) -> (note: Option<String>)
    ensures
        is_text(note, conflict_text(this@, other@, target)),
{
    conflict_note(&parse_hotkey(this), &parse_hotkey(other), target)
}

/// What is said of a binding that another program has.
pub fn taken_message(target: HotkeyTarget) -> (s: String)
    ensures
        s@ == taken_text(target),
{
    let mut s: String = String::from_str(target.label());
    s.append(" is in use by another app — kept your previous binding.");
    s
}

/// What is said of a binding that another program has.
pub open spec fn taken_text(target: HotkeyTarget) -> Seq<char> {
    target_text(target) + " is in use by another app — kept your previous binding."@
}

/// Law: the two hotkeys conflict from either side, or from neither; and only then, or where one is
/// no hotkey, can they not be kept.
pub proof fn lemma_conflict_is_mutual(save: Seq<char>, record: Seq<char>)
    ensures
        conflict_text(save, record, HotkeyTarget::Save) is Some <==> conflict_text(
            record,
            save,
            HotkeyTarget::Record,
        ) is Some,
        texts_fault(save, record) is Some <==> parsed_hotkey(save) is Err || parsed_hotkey(
            record,
        ) is Err || conflict_text(save, record, HotkeyTarget::Save) is Some,
{
}

/// What is said of a combination that was asked about.
pub fn availability_text(found: Availability) -> (s: &'static str)
    ensures
        s@ == match found {
            Availability::Available => "✓ available"@,
            Availability::Taken => "⚠ in use by another app"@,
            Availability::Unknown => "(couldn't check)"@,
        },
{
    match found {
        Availability::Available => "✓ available",
        Availability::Taken => "⚠ in use by another app",
        Availability::Unknown => "(couldn't check)",
    }
}

} // verus!
