//! Which microphone is chosen, and which can be.

use vstd::prelude::*;

use crate::audio::AudioDevice;
use crate::text::{lemma_trimmed_stays, same_text, trim, trimmed};

verus! {

/// Which microphone is recorded.
#[derive(Debug, Clone, PartialEq, Eq)]
pub enum MicChoice {
    /// The system's default one, whichever that is.
    Follow,
    /// None.
    Off,
    /// The device with an id.
    Pinned(String),
}

/// What a choice says.
pub enum MicView {
    Follow,
    Off,
    Pinned(Seq<char>),
}

impl View for MicChoice {
    type V = MicView;

    open spec fn view(&self) -> MicView {
        match *self {
            MicChoice::Follow => MicView::Follow,
            MicChoice::Off => MicView::Off,
            MicChoice::Pinned(id) => MicView::Pinned(id@),
        }
    }
}

/// The choice that a setting makes.
pub open spec fn decoded_mic(mic: Seq<char>) -> MicView {
    let word = trimmed(mic);
    if word == "default-follow"@ {
        MicView::Follow
    } else if word == "off"@ {
        MicView::Off
    } else {
        MicView::Pinned(word)
    }
}

/// The setting that makes a choice.
pub open spec fn encoded_mic(choice: MicView) -> Seq<char> {
    match choice {
        MicView::Follow => "default-follow"@,
        MicView::Off => "off"@,
        MicView::Pinned(id) => trimmed(id),
    }
}

/// The name of the first device with an id.
pub open spec fn device_name(devices: Seq<AudioDevice>, id: Seq<char>) -> Option<Seq<char>>
    decreases devices.len(),
{
    if devices.len() == 0 {
        None
    } else if devices[0].id@ == id {
        Some(devices[0].name@)
    } else {
        device_name(devices.drop_first(), id)
    }
}

/// What a choice is called.
pub open spec fn mic_text(choice: MicView, devices: Seq<AudioDevice>) -> Seq<char> {
    match choice {
        MicView::Follow => "Default (follow)"@,
        MicView::Off => "Off (no mic)"@,
        MicView::Pinned(id) => {
            let id = trimmed(id);
            if id.len() == 0 {
                "Select a device…"@
            } else {
                match device_name(devices, id) {
                    Some(name) => name,
                    None => "Unavailable: "@ + id,
                }
            }
        },
    }
}

/// The first device with an id.
fn find_device(devices: &[AudioDevice], id: &str) -> (found: Option<usize>)
    ensures
        found is Some <==> device_name(devices@, id@) is Some,
        found matches Some(i) ==> i < devices@.len() && device_name(devices@, id@) == Some(
            devices@[i as int].name@,
        ),
{
    let n: usize = devices.len();
    let mut i: usize = 0;
    assert(devices@.subrange(0, n as int) =~= devices@);
    while i < n
        invariant
            i <= n,
            n == devices@.len(),
            device_name(devices@, id@) == device_name(devices@.subrange(i as int, n as int), id@),
        decreases n - i,
    {
        let ghost rest = devices@.subrange(i as int, n as int);
        assert(rest[0] == devices@[i as int]);
        assert(rest.drop_first() =~= devices@.subrange(i + 1, n as int));
        if same_text(devices[i].id.as_str(), id) {
            return Some(i);
        }
        i = i + 1;
    }
    None
}

impl MicChoice {
    /// The choice that a setting makes.
    pub fn from_cfg(mic: &str) -> (choice: Self)
        ensures
            choice@ == decoded_mic(mic@),
    {
        let word: &str = trim(mic);
        if same_text(word, "default-follow") {
            MicChoice::Follow
        } else if same_text(word, "off") {
            MicChoice::Off
        } else {
            MicChoice::Pinned(String::from_str(word))
        }
    }

    /// The setting that makes this choice. That of a device without an id is empty.
    pub fn to_cfg(&self) -> (mic: String)
        ensures
            mic@ == encoded_mic(self@),
    {
        match self {
            MicChoice::Follow => String::from_str("default-follow"),
            MicChoice::Off => String::from_str("off"),
            MicChoice::Pinned(id) => String::from_str(trim(id.as_str())),
        }
    }

    /// What the choice is called. A device that is not there is shown as such.
    pub fn label(&self, devices: &[AudioDevice]) -> (s: String)
        ensures
            s@ == mic_text(self@, devices@),
    {
        match self {
            MicChoice::Follow => String::from_str("Default (follow)"),
            MicChoice::Off => String::from_str("Off (no mic)"),
            MicChoice::Pinned(id) => {
                let id: &str = trim(id.as_str());
                if id.unicode_len() == 0 {
                    return String::from_str("Select a device…");
                }
                match find_device(devices, id) {
                    Some(i) => devices[i].name.clone(),
                    None => {
                        let mut s: String = String::from_str("Unavailable: ");
                        s.append(id);
                        s
                    },
                }
            },
        }
    }
}

/// One microphone that can be chosen, and what it is called.
#[derive(Debug, Clone, PartialEq, Eq)]
pub struct MicOption {
    pub choice: MicChoice,
    pub label: String,
}

impl View for MicOption {
    type V = (MicView, Seq<char>);

    open spec fn view(&self) -> (MicView, Seq<char>) {
        (self.choice@, self.label@)
    }
}

/// What can be chosen on any machine.
pub open spec fn policies() -> Seq<(MicView, Seq<char>)> {
    seq![(MicView::Follow, "Default (follow)"@), (MicView::Off, "Off (no mic)"@)]
}

/// One entry for each device.
pub open spec fn device_options(devices: Seq<AudioDevice>) -> Seq<(MicView, Seq<char>)> {
    devices.map_values(|d: AudioDevice| (MicView::Pinned(d.id@), d.name@))
}

/// The entry of the chosen device, where it is none of those that are there.
pub open spec fn missing_option(devices: Seq<AudioDevice>, current: MicView) -> Seq<
    (MicView, Seq<char>),
> {
    match current {
        MicView::Pinned(id) => {
            let id = trimmed(id);
            if id.len() > 0 && device_name(devices, id) is None {
                seq![(MicView::Pinned(id), "Unavailable: "@ + id)]
            } else {
                Seq::empty()
            }
        },
        _ => Seq::empty(),
    }
}

/// What can be chosen.
pub open spec fn mic_choices(devices: Seq<AudioDevice>, current: MicView) -> Seq<
    (MicView, Seq<char>),
> {
    policies() + device_options(devices) + missing_option(devices, current)
}

/// What can be chosen: the default one, none, each device, and the chosen one where it is not
/// there now.
pub fn mic_options(devices: &[AudioDevice], current: &MicChoice) -> (out: Vec<MicOption>)
    ensures
        out@.map_values(|o: MicOption| o@) == mic_choices(devices@, current@),
{
    let ghost shown = |o: MicOption| o@;
    let mut out: Vec<MicOption> = Vec::new();
    out.push(
        MicOption { choice: MicChoice::Follow, label: String::from_str("Default (follow)") },
    );
    out.push(MicOption { choice: MicChoice::Off, label: String::from_str("Off (no mic)") });
    assert(out@.map_values(shown) =~= policies() + device_options(devices@.take(0)));
    let n: usize = devices.len();
    let mut i: usize = 0;
    while i < n
        invariant
            i <= n,
            n == devices@.len(),
            shown == (|o: MicOption| o@),
            out@.map_values(shown) == policies() + device_options(devices@.take(i as int)),
        decreases n - i,
    {
        let ghost before = out@;
        out.push(
            MicOption {
                choice: MicChoice::Pinned(devices[i].id.clone()),
                label: devices[i].name.clone(),
            },
        );
        assert(out@.map_values(shown) =~= before.map_values(shown).push(out@.last()@));
        assert(out@.map_values(shown) =~= policies() + device_options(devices@.take(i + 1)));
        i = i + 1;
    }
    assert(devices@.take(n as int) =~= devices@);
    let ghost live = out@;
    if let MicChoice::Pinned(id) = current {
        let id: &str = trim(id.as_str());
        if id.unicode_len() > 0 && find_device(devices, id).is_none() {
            let mut label: String = String::from_str("Unavailable: ");
            label.append(id);
            out.push(MicOption { choice: MicChoice::Pinned(String::from_str(id)), label });
            assert(out@.map_values(shown) =~= live.map_values(shown).push(out@.last()@));
        }
    }
    assert(out@.map_values(shown) =~= mic_choices(devices@, current@));
    out
}

/// Whether a setting asks for a microphone at all.
pub open spec fn mic_on(mic: Seq<char>) -> bool {
    trimmed(mic) != "off"@
}

/// Whether a setting asks for a microphone at all.
pub fn mic_is_on(mic: &str) -> (b: bool)
    ensures
        b == mic_on(mic@),
{
    !same_text(trim(mic), "off")
}

/// Whether a change is from one microphone to another, which needs no restart.
pub fn mic_is_device_swap(old: &str, new: &str) -> (b: bool)
    ensures
        b == (mic_on(old@) && mic_on(new@)),
{
    mic_is_on(old) && mic_is_on(new)
}

/// Law: a setting that is read and written again is trimmed, makes the same choice, and asks for a
/// microphone as before.
pub proof fn lemma_mic_setting_stays(mic: Seq<char>)
    ensures
        encoded_mic(decoded_mic(mic)) == trimmed(mic),
        decoded_mic(encoded_mic(decoded_mic(mic))) == decoded_mic(mic),
        mic_on(encoded_mic(decoded_mic(mic))) == mic_on(mic),
        mic_on(mic) <==> decoded_mic(mic) != MicView::Off,
{
    reveal_strlit("default-follow");
    reveal_strlit("off");
    lemma_trimmed_stays(mic);
}

/// A device that was found has an entry.
proof fn lemma_found_is_listed(devices: Seq<AudioDevice>, id: Seq<char>)
    requires
        device_name(devices, id) is Some,
    ensures
        exists|i: int|
            0 <= i < devices.len() && #[trigger] devices[i].id@ == id && device_name(devices, id)
                == Some(devices[i].name@),
    decreases devices.len(),
{
    if devices[0].id@ != id {
        let rest = devices.drop_first();
        lemma_found_is_listed(rest, id);
        let i = choose|i: int|
            0 <= i < rest.len() && #[trigger] rest[i].id@ == id && device_name(rest, id) == Some(
                rest[i].name@,
            );
        assert(rest[i] == devices[i + 1]);
    }
}

/// Law: whatever device was chosen can be chosen again, under the name that the choice is shown
/// with, whether it is there or not.
pub proof fn lemma_choice_is_offered(devices: Seq<AudioDevice>, mic: Seq<char>)
    requires
        trimmed(mic).len() > 0,
    ensures
        mic_choices(devices, decoded_mic(mic)).contains(
            (decoded_mic(mic), mic_text(decoded_mic(mic), devices)),
        ),
{
    let current = decoded_mic(mic);
    let all = mic_choices(devices, current);
    lemma_trimmed_stays(mic);
    match current {
        MicView::Follow => {
            assert(all[0] == (MicView::Follow, "Default (follow)"@));
        },
        MicView::Off => {
            assert(all[1] == (MicView::Off, "Off (no mic)"@));
        },
        MicView::Pinned(id) => {
            if device_name(devices, id) is Some {
                lemma_found_is_listed(devices, id);
                let i = choose|i: int|
                    0 <= i < devices.len() && #[trigger] devices[i].id@ == id && device_name(
                        devices,
                        id,
                    ) == Some(devices[i].name@);
                assert(device_options(devices)[i] == (MicView::Pinned(id), devices[i].name@));
                assert(all[i + 2] == device_options(devices)[i]);
            } else {
                assert(all[devices.len() as int + 2] == missing_option(devices, current)[0]);
            }
        },
    }
}

} // verus!
