//! The editor of the settings: a draft, what an edit does to it, and how it is applied.
//!
//! A draft is applied in steps, since other parts have to answer in between: it is readied, checked,
//! its new hotkeys are bound, it is written, and the engine is told. The order of the steps is that
//! of [`crate::ui::settings::commit`].

use vstd::prelude::*;

use crate::audio::AudioDevice;
use crate::config::{
    BufferConfig, CaptureConfig, Config, ConfigView, EncodeConfig, Quality, Resolution,
};
use crate::constants::ring::MAX_BUFFER_SECONDS;
use crate::engine::{CommandView, EngineCommand};
use crate::hotkey::{parse_hotkey, parsed_hotkey};
use crate::text::{said, same_text, trim, trimmed};
use crate::ui::settings::keys::{
    check_hotkeys, conflict_text, is_text, note_conflict, other_of, place, taken_message,
    taken_text, texts_fault, Availability, CaptureResult, HotkeyTarget, RebindOutcome,
};
use crate::ui::settings::mic::{
    decoded_mic, encoded_mic, mic_is_device_swap, mic_is_on, mic_on, MicChoice, MicView,
};

verus! {

/// The fields in which two settings differ that wait for a restart, by name.
pub open spec fn waiting(a: ConfigView, b: ConfigView) -> Seq<Seq<char>> {
    one_if(a.encode.quality != b.encode.quality, "quality"@) + one_if(
        a.encode.resolution != b.encode.resolution,
        "resolution"@,
    ) + one_if(a.capture.fps != b.capture.fps, "frame rate"@) + one_if(
        mic_on(a.mic) != mic_on(b.mic),
        "microphone on/off"@,
    ) + one_if(a.desktop != b.desktop, "game & app sound"@)
}

/// A word, or nothing.
pub open spec fn one_if(b: bool, word: Seq<char>) -> Seq<Seq<char>> {
    if b {
        seq![word]
    } else {
        Seq::empty()
    }
}

/// What words say.
pub open spec fn words(v: Seq<&'static str>) -> Seq<Seq<char>> {
    v.map_values(|word: &'static str| word@)
}

/// Add a word where it is due.
fn add_word(v: &mut Vec<&'static str>, due: bool, word: &'static str)
    ensures
        words(final(v)@) == words(old(v)@) + one_if(due, word@),
{
    let ghost before = v@;
    if due {
        v.push(word);
    }
    assert(words(v@) =~= words(before) + one_if(due, word@));
}

/// The fields in which two settings differ that wait for a restart: the picture's, and whether
/// there is a microphone or the system's sound at all. The rest is applied at once.
pub fn restart_fields(a: &Config, b: &Config) -> (v: Vec<&'static str>)
    ensures
        words(v@) == waiting(a@, b@),
{
    let mut v: Vec<&'static str> = Vec::new();
    assert(words(v@) =~= Seq::empty());
    add_word(&mut v, a.encode.quality != b.encode.quality, "quality");
    assert(words(v@) =~= one_if(a.encode.quality != b.encode.quality, "quality"@));
    add_word(&mut v, a.encode.resolution != b.encode.resolution, "resolution");
    add_word(&mut v, a.capture.fps != b.capture.fps, "frame rate");
    add_word(
        &mut v,
        mic_is_on(a.audio.mic.as_str()) != mic_is_on(b.audio.mic.as_str()),
        "microphone on/off",
    );
    add_word(&mut v, a.audio.desktop != b.audio.desktop, "game & app sound");
    v
}

/// Law: nothing waits for a restart exactly where the settings agree on every field that does.
pub proof fn lemma_nothing_waits(a: ConfigView, b: ConfigView)
    ensures
        waiting(a, b).len() == 0 <==> a.encode == b.encode && a.capture.fps == b.capture.fps
            && mic_on(a.mic) == mic_on(b.mic) && a.desktop == b.desktop,
        waiting(a, a).len() == 0,
        waiting(a, b) == waiting(b, a),
{
}

/// The settings as they are edited, and what is in flight.
pub struct Editor {
    /// The settings as they were last loaded or written.
    pub base: Config,
    /// The settings that the engine started with.
    pub applied: Config,
    /// The settings as they are edited.
    pub draft: Config,
    pub mic: MicChoice,
    pub mic_devices: Vec<AudioDevice>,
    /// The hotkey that the next press binds.
    pub capturing: Option<HotkeyTarget>,
    /// Whether there is anyone to ask about a combination.
    pub has_pump: bool,
    /// The hotkey that is asked about.
    pub hotkey_check: Option<HotkeyTarget>,
    /// What was last answered about each hotkey.
    pub hotkey_avail: [Option<Availability>; 2],
    /// The folder as it is typed.
    pub folder_text: String,
    /// Why the draft could not be applied.
    pub last_error: Option<String>,
    /// Whether an edit waits to be applied.
    pub dirty: bool,
}

/// What an editor holds.
#[verifier::ext_equal]
pub struct EditorView {
    pub base: ConfigView,
    pub applied: ConfigView,
    pub draft: ConfigView,
    pub mic: MicView,
    pub devices: Seq<AudioDevice>,
    pub capturing: Option<HotkeyTarget>,
    pub has_pump: bool,
    pub check: Option<HotkeyTarget>,
    pub avail: Seq<Option<Availability>>,
    pub folder: Seq<char>,
    pub error: Option<Seq<char>>,
    pub dirty: bool,
}

impl View for Editor {
    type V = EditorView;

    open spec fn view(&self) -> EditorView {
        EditorView {
            base: self.base@,
            applied: self.applied@,
            draft: self.draft@,
            mic: self.mic@,
            devices: self.mic_devices@,
            capturing: self.capturing,
            has_pump: self.has_pump,
            check: self.hotkey_check,
            avail: self.hotkey_avail@,
            folder: self.folder_text@,
            error: said(self.last_error),
            dirty: self.dirty,
        }
    }
}

/// The text of a hotkey.
pub open spec fn combo_of(config: ConfigView, target: HotkeyTarget) -> Seq<char> {
    match target {
        HotkeyTarget::Save => config.save_clip,
        HotkeyTarget::Record => config.record_toggle,
    }
}

/// Settings with another text for a hotkey.
pub open spec fn with_combo(config: ConfigView, target: HotkeyTarget, combo: Seq<char>) -> ConfigView {
    match target {
        HotkeyTarget::Save => ConfigView { save_clip: combo, ..config },
        HotkeyTarget::Record => ConfigView { record_toggle: combo, ..config },
    }
}

/// An editor that has forgotten what was said of a hotkey, and asks about it where it can.
pub open spec fn asking(e: EditorView, target: HotkeyTarget) -> EditorView {
    EditorView {
        avail: e.avail.update(place(target), None),
        check: if e.has_pump {
            Some(target)
        } else {
            e.check
        },
        ..e
    }
}

/// An answer about a combination.
#[derive(Debug, Clone, Copy, PartialEq, Eq, Structural)]
pub enum Reply {
    /// None yet.
    Pending,
    Answer(Availability),
    /// Nobody is left to answer.
    Gone,
}

/// An editor after an answer.
pub open spec fn answered(e: EditorView, reply: Reply) -> EditorView {
    match (e.check, reply) {
        (None, _) => e,
        (Some(_), Reply::Pending) => e,
        (Some(target), Reply::Answer(found)) => EditorView {
            avail: e.avail.update(place(target), Some(found)),
            check: None,
            ..e
        },
        (Some(target), Reply::Gone) => EditorView {
            avail: e.avail.update(place(target), Some(Availability::Unknown)),
            check: None,
            ..e
        },
    }
}

/// What stands beside a hotkey.
#[derive(Debug, Clone, PartialEq, Eq)]
pub enum HotkeyNote {
    Nothing,
    /// It is the same as the other one.
    Same(String),
    Found(Availability),
}

/// Whether a note is the one that is due: a conflict with the other hotkey comes before what was
/// answered, since the two do not conflict with one another for the system.
pub open spec fn is_due(note: HotkeyNote, e: EditorView, target: HotkeyTarget) -> bool {
    match conflict_text(
        trimmed(combo_of(e.draft, target)),
        trimmed(combo_of(e.draft, other_of(target))),
        target,
    ) {
        Some(text) => note matches HotkeyNote::Same(s) && s@ == text,
        None => match e.avail[place(target)] {
            Some(found) => note == HotkeyNote::Found(found),
            None => note == HotkeyNote::Nothing,
        },
    }
}

/// How many seconds are kept where so many are chosen.
pub open spec fn kept_length(seconds: u32) -> u32 {
    if seconds < 1 {
        1
    } else if seconds > MAX_BUFFER_SECONDS {
        MAX_BUFFER_SECONDS
    } else {
        seconds
    }
}

/// Whether a hotkey was changed.
pub open spec fn changed(e: EditorView, target: HotkeyTarget) -> bool {
    trimmed(combo_of(e.draft, target)) != trimmed(combo_of(e.base, target))
}

/// The hotkeys that have to be bound anew, with their texts.
pub open spec fn rebinds_of(e: EditorView) -> Seq<(HotkeyTarget, Seq<char>)> {
    rebind_of(e, HotkeyTarget::Save) + rebind_of(e, HotkeyTarget::Record)
}

/// A hotkey, where it has to be bound anew.
pub open spec fn rebind_of(e: EditorView, target: HotkeyTarget) -> Seq<(HotkeyTarget, Seq<char>)> {
    if changed(e, target) {
        seq![(target, trimmed(combo_of(e.draft, target)))]
    } else {
        Seq::empty()
    }
}

/// An editor after a hotkey was bound anew, or could not be: then the old binding is kept.
pub open spec fn rebound(e: EditorView, target: HotkeyTarget, outcome: RebindOutcome) -> EditorView {
    if outcome == RebindOutcome::Conflict {
        EditorView {
            draft: with_combo(e.draft, target, trimmed(combo_of(e.base, target))),
            ..e
        }
    } else {
        e
    }
}

/// What the engine is told of a hotkey that was bound anew.
pub open spec fn rebind_command(target: HotkeyTarget, outcome: RebindOutcome) -> Option<CommandView> {
    match (target, outcome) {
        (HotkeyTarget::Save, RebindOutcome::Applied(id)) => Some(CommandView::SetSaveHotkeyId(id)),
        (HotkeyTarget::Record, RebindOutcome::Applied(id)) => Some(
            CommandView::SetRecordHotkeyId(id),
        ),
        _ => None,
    }
}

/// A command, or nothing.
pub open spec fn command_if(b: bool, command: CommandView) -> Seq<CommandView> {
    if b {
        seq![command]
    } else {
        Seq::empty()
    }
}

/// What the engine is told of a draft that was written.
pub open spec fn live_commands(base: ConfigView, draft: ConfigView, dir: Seq<char>) -> Seq<
    CommandView,
> {
    command_if(
        draft.buffer.clear_after_save != base.buffer.clear_after_save,
        CommandView::SetClearAfterSave(draft.buffer.clear_after_save),
    ) + command_if(draft.dir != base.dir, CommandView::SetOutputDir(dir)) + command_if(
        draft.buffer.seconds != base.buffer.seconds,
        CommandView::SetDurationCap(draft.buffer.seconds),
    ) + command_if(
        draft.mic != base.mic && mic_on(base.mic) && mic_on(draft.mic),
        CommandView::SetMicSelection(trimmed(draft.mic)),
    )
}

/// What commands say.
pub open spec fn commands(v: Seq<EngineCommand>) -> Seq<CommandView> {
    v.map_values(|command: EngineCommand| command@)
}

/// Add a command where it is due.
fn add_command(v: &mut Vec<EngineCommand>, due: bool, command: EngineCommand)
    ensures
        commands(final(v)@) == commands(old(v)@) + command_if(due, command@),
{
    let ghost before = v@;
    if due {
        v.push(command);
    }
    assert(commands(v@) =~= commands(before) + command_if(due, command@));
}

impl Editor {
    /// An editor of settings that the engine started with.
    pub fn load(base: Config, mic_devices: Vec<AudioDevice>, has_pump: bool) -> (e: Self)
        ensures
            e@ == (EditorView {
                base: base@,
                applied: base@,
                draft: base@,
                mic: decoded_mic(base@.mic),
                devices: mic_devices@,
                capturing: None,
                has_pump,
                check: None,
                avail: seq![None, None],
                folder: base@.dir,
                error: None,
                dirty: false,
            }),
    {
        let mic: MicChoice = MicChoice::from_cfg(base.audio.mic.as_str());
        let folder_text: String = base.output.dir.clone();
        let hotkey_avail: [Option<Availability>; 2] = [None, None];
        assert(hotkey_avail@ =~= seq![None, None]);
        Editor {
            draft: base.copy(),
            applied: base.copy(),
            base,
            mic,
            mic_devices,
            capturing: None,
            has_pump,
            hotkey_check: None,
            hotkey_avail,
            folder_text,
            last_error: None,
            dirty: false,
        }
    }

    /// The text of a hotkey in the draft.
    pub fn combo_for(&self, target: HotkeyTarget) -> (s: &str)
        ensures
            s@ == combo_of(self@.draft, target),
    {
        match target {
            HotkeyTarget::Save => self.draft.hotkeys.save_clip.as_str(),
            HotkeyTarget::Record => self.draft.hotkeys.record_toggle.as_str(),
        }
    }

    /// Change a hotkey's text in the draft.
    fn set_combo(&mut self, target: HotkeyTarget, combo: String)
        ensures
            final(self)@ == (EditorView {
                draft: with_combo(old(self)@.draft, target, combo@),
                ..old(self)@
            }),
    {
        match target {
            HotkeyTarget::Save => {
                self.draft.hotkeys.save_clip = combo;
            },
            HotkeyTarget::Record => {
                self.draft.hotkeys.record_toggle = combo;
            },
        }
    }

    /// Remember what is known of a hotkey.
    fn set_avail(&mut self, target: HotkeyTarget, found: Option<Availability>)
        ensures
            final(self)@ == (EditorView {
                avail: old(self)@.avail.update(place(target), found),
                ..old(self)@
            }),
    {
        match target {
            HotkeyTarget::Save => {
                self.hotkey_avail[0] = found;
            },
            HotkeyTarget::Record => {
                self.hotkey_avail[1] = found;
            },
        }
    }

    /// Forget what was said of a hotkey, and ask about it. The answer says whether there is anyone
    /// to be asked.
    pub fn start_availability_check(&mut self, target: HotkeyTarget) -> (ask: bool)
        ensures
            ask == old(self)@.has_pump,
            final(self)@ == asking(old(self)@, target),
    {
        self.set_avail(target, None);
        if self.has_pump {
            self.hotkey_check = Some(target);
        }
        self.has_pump
    }

    /// Take in what became of a question.
    pub fn poll_availability(&mut self, reply: Reply)
        ensures
            final(self)@ == answered(old(self)@, reply),
    {
        match self.hotkey_check {
            None => {},
            Some(target) => match reply {
                Reply::Pending => {},
                Reply::Answer(found) => {
                    self.set_avail(target, Some(found));
                    self.hotkey_check = None;
                },
                Reply::Gone => {
                    self.set_avail(target, Some(Availability::Unknown));
                    self.hotkey_check = None;
                },
            },
        }
    }

    /// Take in the devices that are there now. The choice stays.
    pub fn refresh_devices(&mut self, devices: Vec<AudioDevice>)
        ensures
            final(self)@ == (EditorView { devices: devices@, ..old(self)@ }),
    {
        self.mic_devices = devices;
    }

    /// Bind a hotkey with the next press.
    pub fn start_capture(&mut self, target: HotkeyTarget)
        ensures
            final(self)@ == (EditorView { capturing: Some(target), ..old(self)@ }),
    {
        self.capturing = Some(target);
    }

    /// Take in what a press meant while a hotkey is bound. The answer says about which hotkey
    /// somebody is to be asked.
    pub fn process_capture(&mut self, result: CaptureResult) -> (ask: Option<HotkeyTarget>)
        ensures
            final(self)@ == match (old(self)@.capturing, result) {
                (Some(target), CaptureResult::Bound(combo)) => EditorView {
                    capturing: None,
                    dirty: true,
                    ..asking(
                        EditorView {
                            draft: with_combo(old(self)@.draft, target, combo@),
                            ..old(self)@
                        },
                        target,
                    )
                },
                (Some(_), CaptureResult::Cancel) => EditorView { capturing: None, ..old(self)@ },
                (None, _) => old(self)@,
            },
            ask == if old(self)@.has_pump && result is Bound {
                old(self)@.capturing
            } else {
                None
            },
    {
        match self.capturing {
            None => None,
            Some(target) => {
                self.capturing = None;
                match result {
                    CaptureResult::Cancel => None,
                    CaptureResult::Bound(combo) => {
                        self.set_combo(target, combo);
                        let ask: bool = self.start_availability_check(target);
                        self.dirty = true;
                        if ask {
                            Some(target)
                        } else {
                            None
                        }
                    },
                }
            },
        }
    }

    /// Take in a hotkey's typed text: ask about it where it is a hotkey's, else forget what was
    /// said. The answer says whether somebody is to be asked.
    pub fn type_combo(&mut self, target: HotkeyTarget, combo: String) -> (ask: bool)
        ensures
            ({
                let typed = EditorView {
                    draft: with_combo(old(self)@.draft, target, combo@),
                    ..old(self)@
                };
                if parsed_hotkey(trimmed(combo@)) is Ok {
                    final(self)@ == asking(typed, target) && ask == old(self)@.has_pump
                } else {
                    final(self)@ == (EditorView {
                        avail: typed.avail.update(place(target), None),
                        check: None,
                        ..typed
                    }) && !ask
                }
            }),
    {
        let good: bool = parse_hotkey(trim(combo.as_str())).is_ok();
        self.set_combo(target, combo);
        if good {
            self.start_availability_check(target)
        } else {
            self.set_avail(target, None);
            self.hotkey_check = None;
            false
        }
    }

    /// The field of a hotkey loses the focus: what was typed is to be applied.
    pub fn leave_combo(&mut self)
        ensures
            final(self)@ == (EditorView { dirty: true, ..old(self)@ }),
    {
        self.dirty = true;
    }

    /// Choose how many seconds are kept, within what can be kept.
    pub fn choose_length(&mut self, seconds: u32)
        ensures
            final(self)@ == (EditorView {
                draft: ConfigView {
                    buffer: (BufferConfig {
                        seconds: kept_length(seconds),
                        ..old(self)@.draft.buffer
                    }),
                    ..old(self)@.draft
                },
                dirty: true,
                ..old(self)@
            }),
    {
        self.draft.buffer.seconds = if seconds < 1 {
            1
        } else if seconds > MAX_BUFFER_SECONDS {
            MAX_BUFFER_SECONDS
        } else {
            seconds
        };
        self.dirty = true;
    }

    /// Choose a quality. The one that is chosen already is no edit.
    pub fn choose_quality(&mut self, quality: Quality)
        ensures
            final(self)@ == (EditorView {
                draft: ConfigView {
                    encode: (EncodeConfig { quality, ..old(self)@.draft.encode }),
                    ..old(self)@.draft
                },
                dirty: old(self)@.dirty || quality != old(self)@.draft.encode.quality,
                ..old(self)@
            }),
    {
        if quality != self.draft.encode.quality {
            self.draft.encode.quality = quality;
            self.dirty = true;
        }
    }

    /// Choose a resolution. The one that is chosen already is no edit.
    pub fn choose_resolution(&mut self, resolution: Resolution)
        ensures
            final(self)@ == (EditorView {
                draft: ConfigView {
                    encode: (EncodeConfig { resolution, ..old(self)@.draft.encode }),
                    ..old(self)@.draft
                },
                dirty: old(self)@.dirty || resolution != old(self)@.draft.encode.resolution,
                ..old(self)@
            }),
    {
        if resolution != self.draft.encode.resolution {
            self.draft.encode.resolution = resolution;
            self.dirty = true;
        }
    }

    /// Choose a frame rate. The one that is chosen already is no edit.
    pub fn choose_fps(&mut self, fps: u32)
        ensures
            final(self)@ == (EditorView {
                draft: ConfigView {
                    capture: (CaptureConfig { fps, ..old(self)@.draft.capture }),
                    ..old(self)@.draft
                },
                dirty: old(self)@.dirty || fps != old(self)@.draft.capture.fps,
                ..old(self)@
            }),
    {
        if fps != self.draft.capture.fps {
            self.draft.capture.fps = fps;
            self.dirty = true;
        }
    }

    /// Choose a microphone.
    pub fn choose_mic(&mut self, choice: MicChoice)
        ensures
            final(self)@ == (EditorView { mic: choice@, dirty: true, ..old(self)@ }),
    {
        self.mic = choice;
        self.dirty = true;
    }

    /// Record the system's sound, or not.
    pub fn choose_desktop(&mut self, desktop: bool)
        ensures
            final(self)@ == (EditorView {
                draft: ConfigView { desktop, ..old(self)@.draft },
                dirty: true,
                ..old(self)@
            }),
    {
        self.draft.audio.desktop = desktop;
        self.dirty = true;
    }

    /// Empty the ring after a save, or keep it.
    pub fn choose_clear_after_save(&mut self, clear: bool)
        ensures
            final(self)@ == (EditorView {
                draft: ConfigView {
                    buffer: (BufferConfig {
                        clear_after_save: clear,
                        ..old(self)@.draft.buffer
                    }),
                    ..old(self)@.draft
                },
                dirty: true,
                ..old(self)@
            }),
    {
        self.draft.buffer.clear_after_save = clear;
        self.dirty = true;
    }

    /// Whether an edit waits to be applied; after that none does.
    pub fn take_dirty(&mut self) -> (dirty: bool)
        ensures
            dirty == old(self)@.dirty,
            final(self)@ == (EditorView { dirty: false, ..old(self)@ }),
    {
        let dirty: bool = self.dirty;
        self.dirty = false;
        dirty
    }

    /// Take in the typed folder once it is left: a path that is still typed is never used.
    pub fn leave_folder(&mut self)
        ensures
            final(self)@ == if old(self)@.folder == old(self)@.draft.dir {
                old(self)@
            } else {
                EditorView {
                    draft: ConfigView { dir: old(self)@.folder, ..old(self)@.draft },
                    dirty: true,
                    ..old(self)@
                }
            },
    {
        if !same_text(self.folder_text.as_str(), self.draft.output.dir.as_str()) {
            self.draft.output.dir = self.folder_text.clone();
            self.dirty = true;
        }
    }

    /// Take in a folder that was picked.
    pub fn pick_folder(&mut self, dir: String)
        ensures
            final(self)@ == (EditorView {
                folder: dir@,
                draft: ConfigView { dir: dir@, ..old(self)@.draft },
                dirty: true,
                ..old(self)@
            }),
    {
        self.folder_text = dir.clone();
        self.draft.output.dir = dir;
        self.dirty = true;
    }

    /// What stands beside a hotkey.
    pub fn hotkey_note(&self, target: HotkeyTarget) -> (note: HotkeyNote)
        ensures
            is_due(note, self@, target),
    {
        match self.cross_conflict_note(target) {
            Some(text) => HotkeyNote::Same(text),
            None => match self.hotkey_avail[target.idx()] {
                Some(found) => HotkeyNote::Found(found),
                None => HotkeyNote::Nothing,
            },
        }
    }

    /// The note beside a hotkey that is the same as the other one.
    pub fn cross_conflict_note(&self, target: HotkeyTarget) -> (note: Option<String>)
        ensures
            is_text(
                note,
                conflict_text(
                    trimmed(combo_of(self@.draft, target)),
                    trimmed(combo_of(self@.draft, other_of(target))),
                    target,
                ),
            ),
    {
        note_conflict(
            trim(self.combo_for(target)),
            trim(self.combo_for(target.other())),
            target,
        )
    }

    /// Whether both hotkeys of the draft are hotkeys and not the same; else what is wrong.
    pub fn validate_hotkeys(&self) -> (r: Result<(), String>)
        ensures
            r is Ok <==> texts_fault(
                trimmed(self@.draft.save_clip),
                trimmed(self@.draft.record_toggle),
            ) is None,
            r matches Err(e) ==> texts_fault(
                trimmed(self@.draft.save_clip),
                trimmed(self@.draft.record_toggle),
            ) == Some(e@),
    {
        match check_hotkeys(
            trim(self.combo_for(HotkeyTarget::Save)),
            trim(self.combo_for(HotkeyTarget::Record)),
        ) {
            None => Ok(()),
            Some(e) => Err(e),
        }
    }

    /// The fields that the draft changes and that wait for a restart.
    pub fn restart_required_fields(&self) -> (v: Vec<&'static str>)
        ensures
            words(v@) == waiting(self@.base, self@.draft),
    {
        restart_fields(&self.base, &self.draft)
    }

    /// The fields that were written and wait for a restart.
    pub fn pending_restart_fields(&self) -> (v: Vec<&'static str>)
        ensures
            words(v@) == waiting(self@.applied, self@.base),
    {
        restart_fields(&self.applied, &self.base)
    }

    /// Ready the draft: take over the chosen microphone, and check the hotkeys. Nothing further is
    /// done where they are at fault.
    pub fn ready(&mut self) -> (go: bool)
        ensures
            ({
                let readied = EditorView {
                    draft: ConfigView { mic: encoded_mic(old(self)@.mic), ..old(self)@.draft },
                    ..old(self)@
                };
                let fault = texts_fault(
                    trimmed(old(self)@.draft.save_clip),
                    trimmed(old(self)@.draft.record_toggle),
                );
                &&& go == (fault is None)
                &&& final(self)@ == if go {
                    readied
                } else {
                    EditorView { error: fault, ..readied }
                }
            }),
    {
        self.draft.audio.mic = self.mic.to_cfg();
        match self.validate_hotkeys() {
            Ok(()) => true,
            Err(e) => {
                self.last_error = Some(e);
                false
            },
        }
    }

    /// Take in that the draft was refused, by a check or by the disk.
    pub fn refuse(&mut self, why: String)
        ensures
            final(self)@ == (EditorView { error: Some(why@), ..old(self)@ }),
    {
        self.last_error = Some(why);
    }

    /// The text that a hotkey has to be bound to, where it was changed.
    pub fn new_combo(&self, target: HotkeyTarget) -> (r: Option<String>)
        ensures
            is_text(
                r,
                if changed(self@, target) {
                    Some(trimmed(combo_of(self@.draft, target)))
                } else {
                    None
                },
            ),
    {
        let combo: &str = trim(self.combo_for(target));
        let base: &str = trim(
            match target {
                HotkeyTarget::Save => self.base.hotkeys.save_clip.as_str(),
                HotkeyTarget::Record => self.base.hotkeys.record_toggle.as_str(),
            },
        );
        if same_text(combo, base) {
            None
        } else {
            Some(String::from_str(combo))
        }
    }

    /// The hotkeys that have to be bound anew, with their texts: all checks come before, since a
    /// binding cannot be taken back.
    pub fn rebinds(&self) -> (v: Vec<(HotkeyTarget, String)>)
        ensures
            v@.map_values(|r: (HotkeyTarget, String)| (r.0, r.1@)) == rebinds_of(self@),
    {
        let ghost shown = |r: (HotkeyTarget, String)| (r.0, r.1@);
        let mut v: Vec<(HotkeyTarget, String)> = Vec::new();
        if let Some(save) = self.new_combo(HotkeyTarget::Save) {
            v.push((HotkeyTarget::Save, save));
        }
        assert(v@.map_values(shown) =~= rebind_of(self@, HotkeyTarget::Save));
        let ghost first = v@;
        if let Some(record) = self.new_combo(HotkeyTarget::Record) {
            v.push((HotkeyTarget::Record, record));
        }
        assert(v@.map_values(shown) =~= first.map_values(shown) + rebind_of(
            self@,
            HotkeyTarget::Record,
        ));
        v
    }

    /// Take in how a new binding went. The engine is told of one that holds; where another program
    /// has the combination, the old one is kept and that is said.
    pub fn take_rebind(&mut self, target: HotkeyTarget, outcome: RebindOutcome) -> (r: (
        Option<EngineCommand>,
        Option<String>,
    ))
        ensures
            final(self)@ == rebound(old(self)@, target, outcome),
            r.0 is Some <==> rebind_command(target, outcome) is Some,
            r.0 matches Some(command) ==> rebind_command(target, outcome) == Some(command@),
            is_text(
                r.1,
                if outcome == RebindOutcome::Conflict {
                    Some(taken_text(target))
                } else {
                    None
                },
            ),
    {
        match outcome {
            RebindOutcome::Applied(id) => (
                Some(
                    match target {
                        HotkeyTarget::Save => EngineCommand::SetSaveHotkeyId(id),
                        HotkeyTarget::Record => EngineCommand::SetRecordHotkeyId(id),
                    },
                ),
                None,
            ),
            RebindOutcome::Conflict => {
                let kept: String = String::from_str(
                    trim(
                        match target {
                            HotkeyTarget::Save => self.base.hotkeys.save_clip.as_str(),
                            HotkeyTarget::Record => self.base.hotkeys.record_toggle.as_str(),
                        },
                    ),
                );
                self.set_combo(target, kept);
                (None, Some(taken_message(target)))
            },
            RebindOutcome::Unknown => (None, None),
        }
    }

    /// Whether there is anything to write. Where there is not, the attempt is over: what remains is
    /// the conflict of a hotkey, if there was one.
    pub fn to_write(&mut self, conflict: Option<String>) -> (write: bool)
        ensures
            write == (old(self)@.draft != old(self)@.base),
            final(self)@ == if write {
                old(self)@
            } else {
                EditorView { error: said(conflict), ..old(self)@ }
            },
    {
        if self.draft.same_as(&self.base) {
            self.last_error = conflict;
            return false;
        }
        true
    }

    /// Take in that the draft was written: it is the base now, and the engine is told of what needs
    /// no restart. `dir` is the folder that the draft's stands for.
    pub fn written(&mut self, dir: String, conflict: Option<String>) -> (v: Vec<EngineCommand>)
        ensures
            commands(v@) == live_commands(old(self)@.base, old(self)@.draft, dir@),
            final(self)@ == (EditorView {
                base: old(self)@.draft,
                mic: decoded_mic(old(self)@.draft.mic),
                error: said(conflict),
                ..old(self)@
            }),
    {
        let mut v: Vec<EngineCommand> = Vec::new();
        let ghost base = self@.base;
        let ghost draft = self@.draft;
        assert(commands(v@) =~= Seq::empty());
        add_command(
            &mut v,
            self.draft.buffer.clear_after_save != self.base.buffer.clear_after_save,
            EngineCommand::SetClearAfterSave(self.draft.buffer.clear_after_save),
        );
        assert(commands(v@) =~= command_if(
            draft.buffer.clear_after_save != base.buffer.clear_after_save,
            CommandView::SetClearAfterSave(draft.buffer.clear_after_save),
        ));
        add_command(
            &mut v,
            !same_text(self.draft.output.dir.as_str(), self.base.output.dir.as_str()),
            EngineCommand::SetOutputDir(dir),
        );
        add_command(
            &mut v,
            self.draft.buffer.seconds != self.base.buffer.seconds,
            EngineCommand::SetDurationCap(self.draft.buffer.seconds),
        );
        add_command(
            &mut v,
            !same_text(self.draft.audio.mic.as_str(), self.base.audio.mic.as_str())
                && mic_is_device_swap(self.base.audio.mic.as_str(), self.draft.audio.mic.as_str()),
            EngineCommand::SetMicSelection(
                String::from_str(trim(self.draft.audio.mic.as_str())),
            ),
        );
        self.base = self.draft.copy();
        self.mic = MicChoice::from_cfg(self.base.audio.mic.as_str());
        self.last_error = conflict;
        v
    }
}

/// What the user asked to be reminded of later.
pub open spec fn banner(pending: Seq<Seq<char>>, dismissed: Option<Seq<Seq<char>>>) -> bool {
    pending.len() > 0 && dismissed != Some(pending)
}

/// Whether two lists have the same words.
fn same_words(a: &Vec<&'static str>, b: &Vec<&'static str>) -> (r: bool)
    ensures
        r == (words(a@) == words(b@)),
{
    let n: usize = a.len();
    if n != b.len() {
        assert(words(a@).len() != words(b@).len());
        return false;
    }
    let mut i: usize = 0;
    while i < n
        invariant
            i <= n,
            n == a@.len(),
            n == b@.len(),
            forall|k: int| 0 <= k < i ==> a@[k]@ == b@[k]@,
        decreases n - i,
    {
        if !same_text(a[i], b[i]) {
            assert(words(a@)[i as int] != words(b@)[i as int]);
            return false;
        }
        i = i + 1;
    }
    assert(words(a@) =~= words(b@));
    true
}

/// Whether the restart banner is shown: where something waits, unless exactly that was put off.
pub fn banner_visible(
    pending: &Vec<&'static str>,
    dismissed: &Option<Vec<&'static str>>,
) -> (visible: bool)
    ensures
        visible == banner(
            words(pending@),
            match *dismissed {
                Some(v) => Some(words(v@)),
                None => None,
            },
        ),
{
    if pending.len() == 0 {
        return false;
    }
    match dismissed {
        None => true,
        Some(v) => !same_words(v, pending),
    }
}

/// Law: a change that is applied at once waits for no restart: that of the buffer, the folder, the
/// hotkeys, or from one microphone to another.
pub proof fn lemma_live_changes_do_not_wait(base: ConfigView, draft: ConfigView)
    requires
        mic_on(base.mic) == mic_on(draft.mic),
    ensures
        waiting(
            base,
            (ConfigView {
                capture: base.capture,
                encode: base.encode,
                desktop: base.desktop,
                ..draft
            }),
        ).len() == 0,
{
}

/// Law: a change that waits for a restart is not told to the engine: that of the picture, of the
/// system's sound, or of whether there is a microphone.
pub proof fn lemma_waiting_changes_are_not_told(
    base: ConfigView,
    draft: ConfigView,
    dir: Seq<char>,
)
    requires
        mic_on(base.mic) != mic_on(draft.mic) || base.mic == draft.mic,
    ensures
        live_commands(
            base,
            (ConfigView {
                capture: draft.capture,
                encode: draft.encode,
                desktop: draft.desktop,
                mic: draft.mic,
                ..base
            }),
            dir,
        ).len() == 0,
{
}

/// Law: no change gets lost: settings that differ, and not only in how they say that there is no
/// microphone, wait for a restart, are told to the engine, or bind a hotkey, unless they differ in
/// what the window does not show.
pub proof fn lemma_no_change_is_lost(base: ConfigView, draft: ConfigView, dir: Seq<char>)
    requires
        base.capture.cursor == draft.capture.cursor,
        base.capture.target == draft.capture.target,
        base.buffer.precise_mode == draft.buffer.precise_mode,
        base.bitrate_bps == draft.bitrate_bps,
        base.separate_tracks == draft.separate_tracks,
        base.vc_apps == draft.vc_apps,
        base.tracks == draft.tracks,
        base.save_clip == draft.save_clip,
        base.record_toggle == draft.record_toggle,
        waiting(base, draft).len() == 0,
        live_commands(base, draft, dir).len() == 0,
    ensures
        base == draft || !mic_on(base.mic) && base == (ConfigView { mic: base.mic, ..draft }),
{
}

/// Law: a draft that was written waits for nothing that the engine was told, and what waits after
/// it is what the whole of the changes since the start wait for: no change gets lost in between.
pub proof fn lemma_pending_accumulates(applied: ConfigView, base: ConfigView, draft: ConfigView)
    ensures
        waiting(applied, draft).len() > 0 ==> waiting(applied, base).len() > 0 || waiting(
            base,
            draft,
        ).len() > 0,
        waiting(base, draft).len() == 0 ==> waiting(applied, draft) == waiting(applied, base),
{
}

} // verus!
