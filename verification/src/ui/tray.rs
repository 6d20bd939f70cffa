//! The tray: what a click means, what the icon looks like, and how the shell goes on.

use vstd::prelude::*;

use crate::constants::PRODUCT_NAME;
use crate::engine::{EngineCommand, TrayState};
use crate::text::same_text;
use crate::ui::theme::{glyph_rgba, pixels, samples, ACCENT, AMBER, BAD, WARN};

verus! {

/// The menu's ids.
pub const ID_SAVE: &'static str = "save";

pub const ID_PAUSE: &'static str = "pause";

pub const ID_RECORD: &'static str = "record";

pub const ID_SETTINGS: &'static str = "settings";

pub const ID_OPEN: &'static str = "open";

pub const ID_AUTOSTART: &'static str = "autostart";

pub const ID_QUIT: &'static str = "quit";

/// How long the shell sleeps between two rounds.
pub const POLL_INTERVAL_MS: u64 = 30;

/// The edge of the tray icon, in pixels.
pub const ICON_SIZE: u32 = 32;

/// How the shell ended.
#[derive(Debug, Clone, Copy, PartialEq, Eq, Structural)]
pub enum ShellOutcome {
    /// The program ends.
    Quit,
    /// The program starts anew.
    Restart,
}

/// What a menu item does.
#[derive(Debug, Clone, Copy, PartialEq, Eq, Structural)]
pub enum MenuAction {
    Save,
    TogglePause,
    ToggleRecord,
    OpenSettings,
    OpenFolder,
    ToggleAutostart,
    Quit,
}

/// What the item with an id does, if there is one.
pub open spec fn action_of(id: Seq<char>) -> Option<MenuAction> {
    if id == ID_SAVE@ {
        Some(MenuAction::Save)
    } else if id == ID_PAUSE@ {
        Some(MenuAction::TogglePause)
    } else if id == ID_RECORD@ {
        Some(MenuAction::ToggleRecord)
    } else if id == ID_SETTINGS@ {
        Some(MenuAction::OpenSettings)
    } else if id == ID_OPEN@ {
        Some(MenuAction::OpenFolder)
    } else if id == ID_AUTOSTART@ {
        Some(MenuAction::ToggleAutostart)
    } else if id == ID_QUIT@ {
        Some(MenuAction::Quit)
    } else {
        None
    }
}

/// What the item with an id does, if there is one.
pub fn menu_action(id: &str) -> (r: Option<MenuAction>)
    ensures
        r == action_of(id@),
{
    if same_text(id, ID_SAVE) {
        Some(MenuAction::Save)
    } else if same_text(id, ID_PAUSE) {
        Some(MenuAction::TogglePause)
    } else if same_text(id, ID_RECORD) {
        Some(MenuAction::ToggleRecord)
    } else if same_text(id, ID_SETTINGS) {
        Some(MenuAction::OpenSettings)
    } else if same_text(id, ID_OPEN) {
        Some(MenuAction::OpenFolder)
    } else if same_text(id, ID_AUTOSTART) {
        Some(MenuAction::ToggleAutostart)
    } else if same_text(id, ID_QUIT) {
        Some(MenuAction::Quit)
    } else {
        None
    }
}

/// The colour of a state.
pub open spec fn color_of(state: TrayState) -> [u8; 4] {
    match state {
        TrayState::Buffering => ACCENT,
        TrayState::Paused => AMBER,
        TrayState::Warning => WARN,
        TrayState::Error => BAD,
    }
}

/// The colour of a state.
pub fn state_color(state: TrayState) -> (c: [u8; 4])
    ensures
        c == color_of(state),
{
    match state {
        TrayState::Buffering => ACCENT,
        TrayState::Paused => AMBER,
        TrayState::Warning => WARN,
        TrayState::Error => BAD,
    }
}

/// Law: no two states share a colour.
pub proof fn lemma_states_differ_in_colour(a: TrayState, b: TrayState)
    ensures
        color_of(a)@ == color_of(b)@ ==> a == b,
{
    assert(ACCENT@[0] == 0xA7 && AMBER@[0] == 0xFA && WARN@[0] == 0xFA && BAD@[0] == 0xFA);
    assert(AMBER@[1] == 0xD6 && WARN@[1] == 0xC8 && BAD@[1] == 0x6D);
}

/// The pixels of a state's icon.
pub fn icon_rgba(state: TrayState) -> (rgba: Vec<u8>)
    ensures
        rgba@ == pixels(
            samples(color_of(state), 128, 128 * 128int),
            128,
            4,
            ICON_SIZE as int,
            ICON_SIZE * ICON_SIZE,
        ),
        rgba@.len() == 4 * (ICON_SIZE * ICON_SIZE),
{
    glyph_rgba(state_color(state), ICON_SIZE)
}

/// The byte at `i` of a picture whose first and third channel change places, pixel by pixel; what
/// is left behind the last whole pixel stays.
pub open spec fn swapped(rgba: Seq<u8>, i: int) -> u8 {
    if i >= (rgba.len() / 4) * 4 {
        rgba[i]
    } else if i % 4 == 0 {
        rgba[i + 2]
    } else if i % 4 == 2 {
        rgba[i - 2]
    } else {
        rgba[i]
    }
}

/// What the system makes an icon of: the colours in its own order, and for each pixel a mask, its
/// alpha less the highest value.
pub fn icon_buffers(rgba: &[u8]) -> (r: (Vec<u8>, Vec<u8>))
    ensures
        r.0@ == Seq::new(rgba@.len(), |i: int| swapped(rgba@, i)),
        r.1@ == Seq::new(
            rgba@.len() / 4,
            |i: int| ((rgba@[4 * i + 3] + 1) % 256) as u8,
        ),
{
    let len: usize = rgba.len();
    let n: usize = len / 4;
    let mut bgra: Vec<u8> = Vec::new();
    let mut mask: Vec<u8> = Vec::new();
    let mut p: usize = 0;
    while p < n
        invariant
            p <= n,
            len == rgba@.len(),
            n == len / 4,
            bgra@.len() == 4 * p,
            mask@.len() == p,
            forall|i: int| 0 <= i < 4 * p ==> #[trigger] bgra@[i] == swapped(rgba@, i),
            forall|i: int|
                0 <= i < p ==> #[trigger] mask@[i] == ((rgba@[4 * i + 3] + 1) % 256) as u8,
        decreases n - p,
    {
        let o: usize = 4 * p;
        let alpha: u8 = rgba[o + 3];
        mask.push(alpha.wrapping_sub(255));
        bgra.push(rgba[o + 2]);
        bgra.push(rgba[o + 1]);
        bgra.push(rgba[o]);
        bgra.push(alpha);
        p = p + 1;
    }
    let mut k: usize = 4 * n;
    while k < rgba.len()
        invariant
            4 * n <= k <= rgba@.len(),
            n == rgba@.len() / 4,
            bgra@.len() == k,
            forall|i: int| 0 <= i < k ==> #[trigger] bgra@[i] == swapped(rgba@, i),
        decreases rgba@.len() - k,
    {
        bgra.push(rgba[k]);
        k = k + 1;
    }
    assert(bgra@ =~= Seq::new(rgba@.len(), |i: int| swapped(rgba@, i)));
    assert(mask@ =~= Seq::new(
        rgba@.len() / 4,
        |i: int| ((rgba@[4 * i + 3] + 1) % 256) as u8,
    ));
    (bgra, mask)
}

/// What the tooltip says of a state.
pub open spec fn state_text(state: TrayState) -> Seq<char> {
    match state {
        TrayState::Buffering => "buffering"@,
        TrayState::Paused => "paused"@,
        TrayState::Warning => "warning — check the log"@,
        TrayState::Error => "error — capture stopped"@,
    }
}

/// The tooltip: the product, the state, and whether a recording runs.
pub open spec fn tooltip_text(state: TrayState, recording: bool) -> Seq<char> {
    PRODUCT_NAME@ + " — "@ + state_text(state) + if recording {
        " · recording"@
    } else {
        ""@
    }
}

/// The tooltip.
pub fn tooltip(state: TrayState, recording: bool) -> (s: String)
    ensures
        s@ == tooltip_text(state, recording),
{
    let mut s: String = String::from_str(PRODUCT_NAME);
    s.append(" — ");
    s.append(
        match state {
            TrayState::Buffering => "buffering",
            TrayState::Paused => "paused",
            TrayState::Warning => "warning — check the log",
            TrayState::Error => "error — capture stopped",
        },
    );
    s.append(
        if recording {
            " · recording"
        } else {
            ""
        },
    );
    s
}

/// What the shell has to do after a click.
#[derive(Debug, Clone, PartialEq, Eq)]
pub enum ShellAction {
    Nothing,
    /// Tell the engine.
    Send(EngineCommand),
    /// Check or uncheck the pause item, and tell the engine.
    Pause(bool),
    OpenSettings,
    OpenFolder,
    /// Write the start-with-the-system entry so.
    SetAutostart(bool),
    Quit,
}

/// What the shell remembers.
pub struct Shell {
    state: TrayState,
    paused: bool,
    recording: bool,
    autostart_enabled: bool,
    open_on_start: bool,
}

/// What a shell remembers.
#[verifier::ext_equal]
pub struct ShellView {
    pub state: TrayState,
    pub paused: bool,
    pub recording: bool,
    pub autostart_enabled: bool,
    pub open_on_start: bool,
}

impl View for Shell {
    type V = ShellView;

    closed spec fn view(&self) -> ShellView {
        ShellView {
            state: self.state,
            paused: self.paused,
            recording: self.recording,
            autostart_enabled: self.autostart_enabled,
            open_on_start: self.open_on_start,
        }
    }
}

/// What a click makes of a shell, and what has to be done.
pub open spec fn clicked(shell: ShellView, id: Seq<char>) -> (ShellView, ShellAction) {
    match action_of(id) {
        None => (shell, ShellAction::Nothing),
        Some(MenuAction::Save) => (shell, ShellAction::Send(EngineCommand::SaveClip)),
        Some(MenuAction::TogglePause) => (
            ShellView { paused: !shell.paused, ..shell },
            ShellAction::Pause(!shell.paused),
        ),
        Some(MenuAction::ToggleRecord) => (shell, ShellAction::Send(EngineCommand::ToggleRecord)),
        Some(MenuAction::OpenSettings) => (shell, ShellAction::OpenSettings),
        Some(MenuAction::OpenFolder) => (shell, ShellAction::OpenFolder),
        Some(MenuAction::ToggleAutostart) => (
            shell,
            ShellAction::SetAutostart(!shell.autostart_enabled),
        ),
        Some(MenuAction::Quit) => (shell, ShellAction::Quit),
    }
}

/// How a round of the shell ends: whether the shell ends, and whether the engine is told to wind
/// down.
#[derive(Debug, Clone, Copy, PartialEq, Eq, Structural)]
pub struct RoundEnd {
    pub outcome: ShellOutcome,
    pub tell_engine: bool,
}

/// How a round ends. A click on quit comes before a request to restart, and both before a worker
/// that has ended; only then is the engine gone already.
pub open spec fn round_end(quit: bool, restart: bool, finished: bool) -> Option<RoundEnd> {
    if quit {
        Some(RoundEnd { outcome: ShellOutcome::Quit, tell_engine: true })
    } else if restart {
        Some(RoundEnd { outcome: ShellOutcome::Restart, tell_engine: true })
    } else if finished {
        Some(RoundEnd { outcome: ShellOutcome::Quit, tell_engine: false })
    } else {
        None
    }
}

impl Shell {
    /// A shell that shows a buffering engine.
    pub fn new(autostart_enabled: bool) -> (shell: Self)
        ensures
            shell@ == (ShellView {
                state: TrayState::Buffering,
                paused: false,
                recording: false,
                autostart_enabled,
                open_on_start: false,
            }),
    {
        Shell {
            state: TrayState::Buffering,
            paused: false,
            recording: false,
            autostart_enabled,
            open_on_start: false,
        }
    }

    /// Ask for the settings window at the start: after a restart, so that it does not seem to have
    /// vanished.
    pub fn open_settings_on_start(&mut self)
        ensures
            final(self)@ == (ShellView { open_on_start: true, ..old(self)@ }),
    {
        self.open_on_start = true;
    }

    /// Whether the settings window opens now, and the restart is confirmed. Asked once.
    pub fn take_open_on_start(&mut self) -> (open: bool)
        ensures
            open == old(self)@.open_on_start,
            final(self)@ == (ShellView { open_on_start: false, ..old(self)@ }),
    {
        let open: bool = self.open_on_start;
        self.open_on_start = false;
        open
    }

    /// What has to be done after a click.
    pub fn handle_menu(&mut self, id: &str) -> (action: ShellAction)
        ensures
            (final(self)@, action) == clicked(old(self)@, id@),
    {
        match menu_action(id) {
            None => ShellAction::Nothing,
            Some(MenuAction::Save) => ShellAction::Send(EngineCommand::SaveClip),
            Some(MenuAction::TogglePause) => {
                self.paused = !self.paused;
                ShellAction::Pause(self.paused)
            },
            Some(MenuAction::ToggleRecord) => ShellAction::Send(EngineCommand::ToggleRecord),
            Some(MenuAction::OpenSettings) => ShellAction::OpenSettings,
            Some(MenuAction::OpenFolder) => ShellAction::OpenFolder,
            Some(MenuAction::ToggleAutostart) => ShellAction::SetAutostart(!self.autostart_enabled),
            Some(MenuAction::Quit) => ShellAction::Quit,
        }
    }

    /// Take in whether the start-with-the-system entry could be written. Gives what the item shows:
    /// a failed write leaves it as it was.
    pub fn toggle_autostart(&mut self, want: bool, written: bool) -> (checked: bool)
        ensures
            checked == if written {
                want
            } else {
                old(self)@.autostart_enabled
            },
            final(self)@ == (ShellView { autostart_enabled: checked, ..old(self)@ }),
    {
        if written {
            self.autostart_enabled = want;
        }
        self.autostart_enabled
    }

    /// Take in the engine's state. The answer says whether icon and tooltip change.
    pub fn set_state(&mut self, state: TrayState) -> (changed: bool)
        ensures
            changed == (old(self)@.state != state),
            final(self)@ == (ShellView { state, ..old(self)@ }),
    {
        if self.state == state {
            return false;
        }
        self.state = state;
        true
    }

    /// Take in whether a recording runs. Gives the record item's new label where it changes.
    pub fn poll_status(&mut self, recording: bool) -> (label: Option<&'static str>)
        ensures
            label is Some <==> old(self)@.recording != recording,
            label matches Some(text) ==> text@ == if recording {
                "Stop recording"@
            } else {
                "Start recording"@
            },
            final(self)@ == (ShellView { recording, ..old(self)@ }),
    {
        if self.recording == recording {
            return None;
        }
        self.recording = recording;
        Some(
            if recording {
                "Stop recording"
            } else {
                "Start recording"
            },
        )
    }

    /// The tooltip of what the shell shows.
    pub fn tooltip(&self) -> (s: String)
        ensures
            s@ == tooltip_text(self@.state, self@.recording),
    {
        tooltip(self.state, self.recording)
    }

    /// How the round ends. Where a worker has ended, the shell shows an error.
    pub fn end_round(&mut self, quit: bool, restart: bool, finished: bool) -> (r: Option<RoundEnd>)
        ensures
            r == round_end(quit, restart, finished),
            final(self)@ == if !quit && !restart && finished {
                ShellView { state: TrayState::Error, ..old(self)@ }
            } else {
                old(self)@
            },
    {
        if quit {
            Some(RoundEnd { outcome: ShellOutcome::Quit, tell_engine: true })
        } else if restart {
            Some(RoundEnd { outcome: ShellOutcome::Restart, tell_engine: true })
        } else if finished {
            self.state = TrayState::Error;
            Some(RoundEnd { outcome: ShellOutcome::Quit, tell_engine: false })
        } else {
            None
        }
    }
}

/// The title of the notice after a restart.
pub fn restarted_title() -> (s: String)
    ensures
        s@ == PRODUCT_NAME@ + " restarted"@,
{
    let mut s: String = String::from_str(PRODUCT_NAME);
    s.append(" restarted");
    s
}

} // verus!
