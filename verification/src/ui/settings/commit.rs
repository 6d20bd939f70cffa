//! How a draft is applied, step by step. All checks come before a hotkey is bound, since a binding
//! cannot be taken back, and the draft is written after the last one.

use vstd::prelude::*;

use crate::config::ConfigView;
use crate::engine::{CommandView, EngineCommand};
use crate::text::{said, trimmed};
use crate::ui::settings::editor::{
    changed, combo_of, commands, live_commands, rebind_command, rebound, Editor, EditorView,
};
use crate::ui::settings::keys::{taken_text, texts_fault, HotkeyTarget, RebindOutcome};
use crate::ui::settings::mic::{decoded_mic, encoded_mic};

verus! {

/// How far the application of a draft has come.
#[derive(Debug, Clone, PartialEq, Eq)]
pub enum Stage {
    /// No draft is being applied.
    Idle,
    /// The draft is being checked.
    Checking,
    /// The folder is being made.
    Folder,
    /// A hotkey is being bound. The folder that was made, and what was said of the hotkey before.
    Binding(HotkeyTarget, String, Option<String>),
    /// The draft is being written. The folder that was made, and what was said of the hotkeys.
    Writing(String, Option<String>),
}

/// What can come in while a draft is applied.
#[derive(Debug, PartialEq, Eq)]
pub enum Event {
    /// The draft is to be applied.
    Start,
    /// The draft was checked, with what is wrong with it.
    Checked(Result<(), String>),
    /// The folder was made, or could not be.
    FolderMade(Result<String, String>),
    /// A hotkey was bound, or not.
    Bound(RebindOutcome),
    /// The draft was written, or could not be.
    Wrote(Result<(), String>),
}

/// What is to be done next.
#[derive(Debug, Clone, PartialEq, Eq)]
pub enum Action {
    /// Nothing: the attempt is over, or nothing was asked.
    Rest,
    /// Check the draft.
    Check,
    /// Make the draft's folder.
    MakeFolder,
    /// Bind a hotkey to a combination.
    Bind(HotkeyTarget, String),
    /// Write the draft.
    Write,
}

/// What a stage says.
#[verifier::ext_equal]
pub enum StageView {
    Idle,
    Checking,
    Folder,
    Binding(HotkeyTarget, Seq<char>, Option<Seq<char>>),
    Writing(Seq<char>, Option<Seq<char>>),
}

/// What an event says.
#[verifier::ext_equal]
pub enum EventView {
    Start,
    Checked(Result<(), Seq<char>>),
    FolderMade(Result<Seq<char>, Seq<char>>),
    Bound(RebindOutcome),
    Wrote(Result<(), Seq<char>>),
}

/// What an action says.
#[verifier::ext_equal]
pub enum ActionView {
    Rest,
    Check,
    MakeFolder,
    Bind(HotkeyTarget, Seq<char>),
    Write,
}

impl View for Stage {
    type V = StageView;

    open spec fn view(&self) -> StageView {
        match *self {
            Stage::Idle => StageView::Idle,
            Stage::Checking => StageView::Checking,
            Stage::Folder => StageView::Folder,
            Stage::Binding(target, dir, conflict) => StageView::Binding(
                target,
                dir@,
                said(conflict),
            ),
            Stage::Writing(dir, conflict) => StageView::Writing(dir@, said(conflict)),
        }
    }
}

/// What came of a step.
pub open spec fn came_of(r: Result<(), String>) -> Result<(), Seq<char>> {
    match r {
        Ok(()) => Ok(()),
        Err(why) => Err(why@),
    }
}

impl View for Event {
    type V = EventView;

    open spec fn view(&self) -> EventView {
        match *self {
            Event::Start => EventView::Start,
            Event::Checked(r) => EventView::Checked(came_of(r)),
            Event::FolderMade(Ok(dir)) => EventView::FolderMade(Ok(dir@)),
            Event::FolderMade(Err(why)) => EventView::FolderMade(Err(why@)),
            Event::Bound(outcome) => EventView::Bound(outcome),
            Event::Wrote(r) => EventView::Wrote(came_of(r)),
        }
    }
}

impl View for Action {
    type V = ActionView;

    open spec fn view(&self) -> ActionView {
        match *self {
            Action::Rest => ActionView::Rest,
            Action::Check => ActionView::Check,
            Action::MakeFolder => ActionView::MakeFolder,
            Action::Bind(target, combo) => ActionView::Bind(target, combo@),
            Action::Write => ActionView::Write,
        }
    }
}

/// What a step comes to.
#[verifier::ext_equal]
pub struct Outcome {
    pub editor: EditorView,
    pub stage: StageView,
    pub action: ActionView,
    /// What the engine is told.
    pub told: Seq<CommandView>,
}

/// The attempt is over, with what went wrong, if anything did.
pub open spec fn over(e: EditorView, error: Option<Seq<char>>) -> Outcome {
    Outcome {
        editor: EditorView { error, ..e },
        stage: StageView::Idle,
        action: ActionView::Rest,
        told: Seq::empty(),
    }
}

/// All hotkeys are bound: the draft is written where it says anything new.
pub open spec fn all_bound(e: EditorView, dir: Seq<char>, conflict: Option<Seq<char>>) -> Outcome {
    if e.draft == e.base {
        over(e, conflict)
    } else {
        Outcome {
            editor: e,
            stage: StageView::Writing(dir, conflict),
            action: ActionView::Write,
            told: Seq::empty(),
        }
    }
}

/// A hotkey is bound where it was changed, and those after it come next.
pub open spec fn bind_from(
    e: EditorView,
    target: HotkeyTarget,
    dir: Seq<char>,
    conflict: Option<Seq<char>>,
) -> Outcome {
    if changed(e, target) {
        Outcome {
            editor: e,
            stage: StageView::Binding(target, dir, conflict),
            action: ActionView::Bind(target, trimmed(combo_of(e.draft, target))),
            told: Seq::empty(),
        }
    } else if target == HotkeyTarget::Save && changed(e, HotkeyTarget::Record) {
        Outcome {
            editor: e,
            stage: StageView::Binding(HotkeyTarget::Record, dir, conflict),
            action: ActionView::Bind(
                HotkeyTarget::Record,
                trimmed(combo_of(e.draft, HotkeyTarget::Record)),
            ),
            told: Seq::empty(),
        }
    } else {
        all_bound(e, dir, conflict)
    }
}

/// What is said of the hotkeys after one more was bound: of the first that is taken.
pub open spec fn conflict_after(
    conflict: Option<Seq<char>>,
    target: HotkeyTarget,
    outcome: RebindOutcome,
) -> Option<Seq<char>> {
    if conflict is None && outcome == RebindOutcome::Conflict {
        Some(taken_text(target))
    } else {
        conflict
    }
}

/// What an event is to a stage. One that nothing asked for changes nothing.
pub open spec fn step(e: EditorView, stage: StageView, event: EventView) -> Outcome {
    match (stage, event) {
        (StageView::Idle, EventView::Start) => {
            let readied = EditorView {
                draft: ConfigView { mic: encoded_mic(e.mic), ..e.draft },
                ..e
            };
            match texts_fault(trimmed(e.draft.save_clip), trimmed(e.draft.record_toggle)) {
                Some(fault) => over(readied, Some(fault)),
                None => Outcome {
                    editor: readied,
                    stage: StageView::Checking,
                    action: ActionView::Check,
                    told: Seq::empty(),
                },
            }
        },
        (StageView::Checking, EventView::Checked(Err(why))) => over(e, Some(why)),
        (StageView::Checking, EventView::Checked(Ok(_))) => Outcome {
            editor: e,
            stage: StageView::Folder,
            action: ActionView::MakeFolder,
            told: Seq::empty(),
        },
        (StageView::Folder, EventView::FolderMade(Err(why))) => over(e, Some(why)),
        (StageView::Folder, EventView::FolderMade(Ok(dir))) => bind_from(
            e,
            HotkeyTarget::Save,
            dir,
            None,
        ),
        (StageView::Binding(target, dir, conflict), EventView::Bound(outcome)) => {
            let now = rebound(e, target, outcome);
            let then = conflict_after(conflict, target, outcome);
            Outcome {
                told: match rebind_command(target, outcome) {
                    Some(command) => seq![command],
                    None => Seq::empty(),
                },
                ..if target == HotkeyTarget::Save {
                    bind_from(now, HotkeyTarget::Record, dir, then)
                } else {
                    all_bound(now, dir, then)
                }
            }
        },
        (StageView::Writing(_, _), EventView::Wrote(Err(why))) => over(e, Some(why)),
        (StageView::Writing(dir, conflict), EventView::Wrote(Ok(_))) => Outcome {
            told: live_commands(e.base, e.draft, dir),
            ..over(EditorView { base: e.draft, mic: decoded_mic(e.draft.mic), ..e }, conflict)
        },
        _ => Outcome { editor: e, stage, action: ActionView::Rest, told: Seq::empty() },
    }
}

impl Editor {
    /// Write the draft where it says anything new.
    fn finish_binding(&mut self, dir: String, conflict: Option<String>) -> (r: (Stage, Action))
        ensures
            ({
                let o = all_bound(old(self)@, dir@, said(conflict));
                final(self)@ == o.editor && r.0@ == o.stage && r.1@ == o.action
            }),
    {
        let words: Option<String> = match &conflict {
            Some(text) => Some(text.clone()),
            None => None,
        };
        if self.to_write(words) {
            (Stage::Writing(dir, conflict), Action::Write)
        } else {
            (Stage::Idle, Action::Rest)
        }
    }

    /// Bind the hotkeys from one on.
    fn bind_next(&mut self, target: HotkeyTarget, dir: String, conflict: Option<String>) -> (r: (
        Stage,
        Action,
    ))
        ensures
            ({
                let o = bind_from(old(self)@, target, dir@, said(conflict));
                final(self)@ == o.editor && r.0@ == o.stage && r.1@ == o.action
            }),
    {
        if let Some(combo) = self.new_combo(target) {
            return (Stage::Binding(target, dir, conflict), Action::Bind(target, combo));
        }
        if target == HotkeyTarget::Save {
            if let Some(combo) = self.new_combo(HotkeyTarget::Record) {
                return (
                    Stage::Binding(HotkeyTarget::Record, dir, conflict),
                    Action::Bind(HotkeyTarget::Record, combo),
                );
            }
        }
        self.finish_binding(dir, conflict)
    }

    /// Apply the draft, one step at a time: given how far it has come and what came in, say how far
    /// it has come now, what is to be done next, and what the engine is told.
    pub fn autocommit(&mut self, stage: Stage, event: Event) -> (r: (
        Stage,
        Action,
        Vec<EngineCommand>,
    ))
        ensures
            ({
                let o = step(old(self)@, stage@, event@);
                &&& final(self)@ == o.editor
                &&& r.0@ == o.stage
                &&& r.1@ == o.action
                &&& commands(r.2@) == o.told
            }),
    {
        let none: Vec<EngineCommand> = Vec::new();
        assert(commands(none@) =~= Seq::empty());
        match (stage, event) {
            (Stage::Idle, Event::Start) => {
                if self.ready() {
                    (Stage::Checking, Action::Check, none)
                } else {
                    (Stage::Idle, Action::Rest, none)
                }
            },
            (Stage::Checking, Event::Checked(Err(why))) => {
                self.refuse(why);
                (Stage::Idle, Action::Rest, none)
            },
            (Stage::Checking, Event::Checked(Ok(_))) => (Stage::Folder, Action::MakeFolder, none),
            (Stage::Folder, Event::FolderMade(Err(why))) => {
                self.refuse(why);
                (Stage::Idle, Action::Rest, none)
            },
            (Stage::Folder, Event::FolderMade(Ok(dir))) => {
                let (next, action) = self.bind_next(HotkeyTarget::Save, dir, None);
                (next, action, none)
            },
            (Stage::Binding(target, dir, conflict), Event::Bound(outcome)) => {
                let (command, taken) = self.take_rebind(target, outcome);
                let mut told: Vec<EngineCommand> = Vec::new();
                if let Some(command) = command {
                    told.push(command);
                    assert(commands(told@) =~= seq![command@]);
                } else {
                    assert(commands(told@) =~= Seq::empty());
                }
                let ghost before = said(conflict);
                let then: Option<String> = match conflict {
                    Some(text) => Some(text),
                    None => taken,
                };
                assert(said(then) == conflict_after(before, target, outcome));
                let (next, action) = match target {
                    HotkeyTarget::Save => self.bind_next(HotkeyTarget::Record, dir, then),
                    HotkeyTarget::Record => self.finish_binding(dir, then),
                };
                (next, action, told)
            },
            (Stage::Writing(_, _), Event::Wrote(Err(why))) => {
                self.refuse(why);
                (Stage::Idle, Action::Rest, none)
            },
            (Stage::Writing(dir, conflict), Event::Wrote(Ok(_))) => {
                let told: Vec<EngineCommand> = self.written(dir, conflict);
                (Stage::Idle, Action::Rest, told)
            },
            (stage, _) => (stage, Action::Rest, none),
        }
    }
}

/// Whether a stage waits for an event.
pub open spec fn waits_for(stage: StageView, event: EventView) -> bool {
    match stage {
        StageView::Idle => event is Start,
        StageView::Checking => event is Checked,
        StageView::Folder => event is FolderMade,
        StageView::Binding(_, _, _) => event is Bound,
        StageView::Writing(_, _) => event is Wrote,
    }
}

/// An attempt to apply a draft: how far it has come, what was taken in since it began, and what is to
/// be done next.
#[verifier::ext_equal]
pub struct Attempt {
    pub stage: StageView,
    pub taken: Seq<EventView>,
    pub action: ActionView,
}

/// Where some events lead, from no attempt on, whatever the editor holds when each comes in.
pub open spec fn attempt(steps: Seq<(EditorView, EventView)>) -> Attempt
    decreases steps.len(),
{
    if steps.len() == 0 {
        Attempt { stage: StageView::Idle, taken: Seq::empty(), action: ActionView::Rest }
    } else {
        let before = attempt(steps.drop_last());
        let (e, event) = steps.last();
        let o = step(e, before.stage, event);
        Attempt {
            stage: o.stage,
            taken: if !waits_for(before.stage, event) {
                before.taken
            } else if event is Start {
                seq![event]
            } else {
                before.taken.push(event)
            },
            action: o.action,
        }
    }
}

/// Whether all checks of an attempt were passed, and nothing but bindings came after them.
pub open spec fn all_checked(taken: Seq<EventView>) -> bool {
    &&& taken.len() >= 3
    &&& taken[0] is Start
    &&& taken[1] matches EventView::Checked(Ok(_))
    &&& taken[2] matches EventView::FolderMade(Ok(_))
    &&& forall|k: int| 3 <= k < taken.len() ==> (#[trigger] taken[k]) is Bound
}

/// Law: all checks come before a hotkey is bound, and every binding before the draft is written.
/// Whatever comes in, when a hotkey is to be bound, or the draft to be written, the attempt has passed
/// the check of the draft and that of its folder, and nothing was refused, bound out of turn or
/// written since it began.
pub proof fn lemma_checks_come_first(steps: Seq<(EditorView, EventView)>)
    ensures
        ({
            let a = attempt(steps);
            &&& a.action is Bind ==> a.stage is Binding
            &&& a.action is Write ==> a.stage is Writing
            &&& a.stage is Binding || a.stage is Writing ==> all_checked(a.taken)
            &&& a.stage is Checking ==> a.taken.len() == 1 && a.taken[0] is Start
            &&& a.stage is Folder ==> a.taken.len() == 2 && a.taken[0] is Start && (a.taken[1]
                matches EventView::Checked(Ok(_)))
        }),
    decreases steps.len(),
{
    if steps.len() > 0 {
        lemma_checks_come_first(steps.drop_last());
    }
}

/// Law: a refusal ends the attempt. Whether the hotkeys' texts, the draft, its folder or the disk are
/// at fault, nothing is bound or written any more and the engine is told nothing; only the error
/// changes, and the microphone that was chosen stands in the draft.
pub proof fn lemma_refusal_ends_attempt(e: EditorView, stage: StageView, event: EventView)
    requires
        waits_for(stage, event),
        match event {
            EventView::Start => texts_fault(
                trimmed(e.draft.save_clip),
                trimmed(e.draft.record_toggle),
            ) is Some,
            EventView::Checked(r) => r is Err,
            EventView::FolderMade(r) => r is Err,
            EventView::Bound(_) => false,
            EventView::Wrote(r) => r is Err,
        },
    ensures
        ({
            let o = step(e, stage, event);
            &&& o.stage is Idle
            &&& o.action is Rest
            &&& o.told.len() == 0
            &&& o.editor.error is Some
            &&& o.editor.base == e.base
            &&& o.editor == (EditorView {
                draft: if event is Start {
                    ConfigView { mic: encoded_mic(e.mic), ..e.draft }
                } else {
                    e.draft
                },
                error: o.editor.error,
                ..e
            })
        }),
{
}

/// Law: nothing happens between attempts. Until the next start, whatever else comes in, nothing is
/// done, the engine is told nothing, and the editor stays as it is.
pub proof fn lemma_nothing_between_attempts(e: EditorView, event: EventView)
    requires
        !(event is Start),
    ensures
        step(e, StageView::Idle, event) == (Outcome {
            editor: e,
            stage: StageView::Idle,
            action: ActionView::Rest,
            told: Seq::empty(),
        }),
{
}

} // verus!
