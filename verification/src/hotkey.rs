//! Global hotkeys: what a configured one means, and what the message pump decides.

use vstd::prelude::*;

verus! {

/// Why hotkeys could not be set up.
#[derive(Debug)]
pub enum HotkeyError {
    /// The text is not that of a hotkey: the text, and why.
    Parse(String, String),
    /// The hotkey could not be registered: its text, and why.
    Register(String, String),
    /// The pump ended before it had reported.
    SetupChannelClosed,
}

impl HotkeyError {
    /// What the error says.
    pub open spec fn text(self) -> Seq<char> {
        match self {
            HotkeyError::Parse(hotkey, why) => "could not parse hotkey '"@ + hotkey@ + "': "@
                + why@,
            HotkeyError::Register(hotkey, why) => "could not register hotkey '"@ + hotkey@ + "': "@
                + why@,
            HotkeyError::SetupChannelClosed => "hotkey pump thread failed during setup"@,
        }
    }

    /// What the error says.
    pub fn message(&self) -> (s: String)
        ensures
            s@ == self.text(),
    {
        let mut s: String = String::new();
        match self {
            HotkeyError::Parse(hotkey, why) => {
                s.append("could not parse hotkey '");
                s.append(hotkey.as_str());
                s.append("': ");
                s.append(why.as_str());
            },
            HotkeyError::Register(hotkey, why) => {
                s.append("could not register hotkey '");
                s.append(hotkey.as_str());
                s.append("': ");
                s.append(why.as_str());
            },
            HotkeyError::SetupChannelClosed => {
                s.append("hotkey pump thread failed during setup");
            },
        }
        assert(s@ =~= self.text());
        s
    }
}

/// A hotkey: its modifiers as bits, the name of its key, and the id that its events carry.
#[derive(Debug)]
pub struct Hotkey {
    pub mods: u32,
    pub key: String,
    pub id: u32,
}

impl Hotkey {
    /// What the hotkey holds.
    pub open spec fn parts(&self) -> (u32, Seq<char>, u32) {
        (self.mods, self.key@, self.id)
    }
}

/// What `global_hotkey::hotkey::HotKey::from_str` makes of a text: the hotkey's modifier bits, the
/// name of its key and its id, or what its error says. The crate's word for the system's main
/// modifier is another one on macOS, which this library is not made for; all else is the same
/// everywhere.
pub uninterp spec fn parsed_hotkey(text: Seq<char>) -> Result<(u32, Seq<char>, u32), Seq<char>>;

/// What a parse gave.
pub open spec fn parse_view(parsed: Result<Hotkey, String>) -> Result<
    (u32, Seq<char>, u32),
    Seq<char>,
> {
    match parsed {
        Ok(hotkey) => Ok(hotkey.parts()),
        Err(why) => Err(why@),
    }
}

/// What is said of a text that gave `parsed`: the hotkey, or an error that shows the text and what
/// was wrong with it.
pub open spec fn told_of(
    text: Seq<char>,
    parsed: Result<(u32, Seq<char>, u32), Seq<char>>,
    told: Result<Hotkey, HotkeyError>,
) -> bool {
    match parsed {
        Ok(parts) => told matches Ok(hotkey) && hotkey.parts() == parts,
        Err(said) => told matches Err(HotkeyError::Parse(shown, why)) && shown@ == text && why@
            == said,
    }
}

/// `global_hotkey::hotkey::HotKey::from_str`: a hotkey from text, such as `Ctrl+Alt+S`. The result
/// depends on the text alone; what it is for which text is left to the crate.
#[verifier::external_body]
fn parse_with_crate(text: &str) -> (r: Result<Hotkey, String>)
    ensures
        parse_view(r) == parsed_hotkey(text@),
{
    match text.parse::<global_hotkey::hotkey::HotKey>() {
        Ok(h) => Ok(Hotkey { mods: h.mods.bits(), key: h.key.to_string(), id: h.id() }),
        Err(e) => Err(e.to_string()),
    }
}

/// What a parse makes of a configured text.
pub fn hotkey_from(text: &str, parsed: Result<Hotkey, String>) -> (r: Result<Hotkey, HotkeyError>)
    ensures
        told_of(text@, parse_view(parsed), r),
{
    match parsed {
        Ok(hotkey) => Ok(hotkey),
        Err(why) => Err(HotkeyError::Parse(String::from_str(text), why)),
    }
}

/// Parse a configured hotkey.
pub fn parse_hotkey(s: &str) -> (r: Result<Hotkey, HotkeyError>)
    ensures
        told_of(s@, parsed_hotkey(s@), r),
{
    hotkey_from(s, parse_with_crate(s))
}

/// Whether a text is that of a hotkey.
pub open spec fn parsed_as(text: Seq<char>, hotkey: Hotkey) -> bool {
    parsed_hotkey(text) matches Ok(parts) && parts == hotkey.parts()
}

/// Whether an error tells why a text is not that of a hotkey.
pub open spec fn refused_as(text: Seq<char>, e: HotkeyError) -> bool {
    &&& parsed_hotkey(text) is Err
    &&& e matches HotkeyError::Parse(shown, why) && shown@ == text && why@
        == parsed_hotkey(text)->Err_0
}

/// The first of some texts, from `i` on, that is not a hotkey's.
pub open spec fn first_bad(texts: Seq<&str>, i: int) -> Option<int>
    decreases texts.len() - i,
{
    if i < 0 || i >= texts.len() {
        None
    } else if parsed_hotkey(texts[i]@) is Err {
        Some(i)
    } else {
        first_bad(texts, i + 1)
    }
}

/// Parse all hotkeys before any is registered: all of them, or the first one's error.
pub fn parse_hotkeys(texts: &[&str]) -> (r: Result<Vec<Hotkey>, HotkeyError>)
    ensures
        r is Ok <==> first_bad(texts@, 0) is None,
        r matches Ok(hotkeys) ==> hotkeys@.len() == texts@.len() && forall|i: int|
            0 <= i < texts@.len() ==> parsed_as(#[trigger] texts@[i]@, hotkeys@[i]),
        r matches Err(e) ==> refused_as(texts@[first_bad(texts@, 0).unwrap()]@, e),
{
    let mut hotkeys: Vec<Hotkey> = Vec::new();
    let mut i: usize = 0;
    while i < texts.len()
        invariant
            i <= texts@.len(),
            hotkeys@.len() == i,
            first_bad(texts@, 0) == first_bad(texts@, i as int),
            forall|k: int|
                0 <= k < i ==> parsed_as(#[trigger] texts@[k]@, hotkeys@[k]),
        decreases texts@.len() - i,
    {
        match parse_hotkey(texts[i]) {
            Ok(hotkey) => {
                hotkeys.push(hotkey);
            },
            Err(e) => {
                return Err(e);
            },
        }
        i = i + 1;
    }
    Ok(hotkeys)
}

/// What a pump's set-up came to: the thread that reported, or the fault that it reported; where it
/// ended before, that is the fault.
pub fn setup_outcome(reply: Option<Result<u32, HotkeyError>>) -> (r: Result<u32, HotkeyError>)
    ensures
        r == match reply {
            Some(told) => told,
            None => Err(HotkeyError::SetupChannelClosed),
        },
{
    match reply {
        Some(told) => told,
        None => Err(HotkeyError::SetupChannelClosed),
    }
}

/// The fault of a pump that cannot register any hotkey: it is told of the first one.
pub fn pump_fault(texts: &[&str], why: String) -> (e: HotkeyError)
    ensures
        e matches HotkeyError::Register(shown, said) && said@ == why@ && shown@
            == if texts@.len() > 0 {
            texts@[0]@
        } else {
            Seq::empty()
        },
{
    if texts.len() > 0 {
        HotkeyError::Register(String::from_str(texts[0]), why)
    } else {
        HotkeyError::Register(String::new(), why)
    }
}

/// The texts whose hotkeys were registered, in order.
pub open spec fn held_texts(texts: Seq<&str>, held: Seq<bool>) -> Seq<Seq<char>>
    decreases texts.len(),
{
    if texts.len() == 0 {
        Seq::empty()
    } else {
        let before = held_texts(texts.drop_last(), held);
        if held[texts.len() - 1] {
            before.push(texts.last()@)
        } else {
            before
        }
    }
}

/// The texts whose hotkeys were registered: one that another program has stops no other.
pub fn registered<'a>(texts: &[&'a str], held: &[bool]) -> (v: Vec<&'a str>)
    requires
        texts@.len() == held@.len(),
    ensures
        v@.map_values(|s: &str| s@) == held_texts(texts@, held@),
{
    let mut v: Vec<&'a str> = Vec::new();
    let ghost shown = |s: &str| s@;
    let n: usize = texts.len();
    let mut i: usize = 0;
    assert(texts@.take(0) =~= Seq::empty());
    assert(v@.map_values(shown) =~= Seq::empty());
    while i < n
        invariant
            i <= n,
            n == texts@.len(),
            n == held@.len(),
            shown == (|s: &str| s@),
            v@.map_values(shown) == held_texts(texts@.take(i as int), held@),
        decreases n - i,
    {
        assert(texts@.take(i + 1).drop_last() =~= texts@.take(i as int));
        assert(texts@.take(i + 1).last() == texts@[i as int]);
        let ghost before = v@;
        if held[i] {
            v.push(texts[i]);
            assert(v@.map_values(shown) =~= before.map_values(shown).push(texts@[i as int]@));
        }
        i = i + 1;
    }
    assert(texts@.take(n as int) =~= texts@);
    v
}

/// The event id of the hotkey that was registered at `index`, zero where there is none.
pub fn hotkey_id(ids: &[u32], index: usize) -> (id: u32)
    ensures
        id == if index < ids@.len() {
            ids@[index as int]
        } else {
            0
        },
{
    if index < ids.len() {
        ids[index]
    } else {
        0
    }
}

/// What the message pump does next.
#[derive(Debug, Clone, Copy, PartialEq, Eq, Structural)]
pub enum PumpStep {
    /// Hand the message on.
    Dispatch,
    /// Stop: it was asked to.
    Quit,
    /// Stop: the queue failed.
    Fail,
}

/// What the message pump does after a message came with `ret`: zero asks it to stop, minus one is
/// a failure, anything else is a message.
pub fn pump_step(ret: i32) -> (step: PumpStep)
    ensures
        step == if ret == 0 {
            PumpStep::Quit
        } else if ret == -1 {
            PumpStep::Fail
        } else {
            PumpStep::Dispatch
        },
{
    if ret == 0 {
        PumpStep::Quit
    } else if ret == -1 {
        PumpStep::Fail
    } else {
        PumpStep::Dispatch
    }
}

/// Law: the texts that are held are those whose hotkeys were registered, in their order.
pub proof fn lemma_held_texts_are_those_registered(texts: Seq<&str>, held: Seq<bool>)
    requires
        texts.len() <= held.len(),
    ensures
        held_texts(texts, held) == Seq::new(texts.len(), |i: int| (texts[i]@, held[i])).filter(
            |t: (Seq<char>, bool)| t.1,
        ).map_values(|t: (Seq<char>, bool)| t.0),
    decreases texts.len(),
{
    reveal(Seq::filter);
    let pairs = Seq::new(texts.len(), |i: int| (texts[i]@, held[i]));
    let on = |t: (Seq<char>, bool)| t.1;
    let text = |t: (Seq<char>, bool)| t.0;
    if texts.len() > 0 {
        let init = texts.drop_last();
        lemma_held_texts_are_those_registered(init, held);
        let before = Seq::new(init.len(), |i: int| (init[i]@, held[i]));
        assert(pairs.drop_last() =~= before);
        assert(pairs.last() == (texts.last()@, held[texts.len() - 1]));
    }
    assert(held_texts(texts, held) =~= pairs.filter(on).map_values(text));
}

/// Law: hotkeys are refused for the first text that is none, and only where there is one.
pub proof fn lemma_first_bad_text_is_told(texts: Seq<&str>, i: int)
    requires
        0 <= i,
    ensures
        first_bad(texts, i) matches Some(k) ==> i <= k < texts.len() && parsed_hotkey(
            texts[k]@,
        ) is Err,
        first_bad(texts, i) matches Some(k) ==> forall|j: int|
            i <= j < k ==> parsed_hotkey((#[trigger] texts[j])@) is Ok,
        first_bad(texts, i) is None ==> forall|j: int|
            i <= j < texts.len() ==> parsed_hotkey((#[trigger] texts[j])@) is Ok,
    decreases texts.len() - i,
{
    if i < texts.len() && parsed_hotkey(texts[i]@) is Ok {
        lemma_first_bad_text_is_told(texts, i + 1);
    }
}

} // verus!
