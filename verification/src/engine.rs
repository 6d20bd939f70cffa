//! What the engine shows of itself, and what it is told.

use vstd::prelude::*;

verus! {

/// The state of the engine.
#[derive(Debug, Clone, Copy, PartialEq, Eq, Structural)]
pub enum TrayState {
    /// The ring is filling or full.
    Buffering,
    /// Capture is paused.
    Paused,
    /// Running, but something falls behind.
    Warning,
    /// Stopped by an error.
    Error,
}

/// What the engine can be told to do.
#[derive(Debug, Clone, PartialEq, Eq)]
pub enum EngineCommand {
    /// Save the last seconds.
    SaveClip,
    /// Pause, or go on.
    SetPaused(bool),
    /// Start or stop a recording.
    ToggleRecord,
    /// Empty the ring after a save, or keep it.
    SetClearAfterSave(bool),
    /// Write clips into this folder.
    SetOutputDir(String),
    /// Keep so many seconds.
    SetDurationCap(u32),
    /// Record this microphone: `default-follow`, or the id of a device.
    SetMicSelection(String),
    /// Save when the hotkey with this id is pressed.
    SetSaveHotkeyId(u32),
    /// Start or stop a recording when the hotkey with this id is pressed.
    SetRecordHotkeyId(u32),
    /// Wind down.
    Shutdown,
}

/// What a command says.
pub enum CommandView {
    SaveClip,
    SetPaused(bool),
    ToggleRecord,
    SetClearAfterSave(bool),
    SetOutputDir(Seq<char>),
    SetDurationCap(u32),
    SetMicSelection(Seq<char>),
    SetSaveHotkeyId(u32),
    SetRecordHotkeyId(u32),
    Shutdown,
}

impl View for EngineCommand {
    type V = CommandView;

    open spec fn view(&self) -> CommandView {
        match *self {
            EngineCommand::SaveClip => CommandView::SaveClip,
            EngineCommand::SetPaused(paused) => CommandView::SetPaused(paused),
            EngineCommand::ToggleRecord => CommandView::ToggleRecord,
            EngineCommand::SetClearAfterSave(clear) => CommandView::SetClearAfterSave(clear),
            EngineCommand::SetOutputDir(dir) => CommandView::SetOutputDir(dir@),
            EngineCommand::SetDurationCap(seconds) => CommandView::SetDurationCap(seconds),
            EngineCommand::SetMicSelection(mic) => CommandView::SetMicSelection(mic@),
            EngineCommand::SetSaveHotkeyId(id) => CommandView::SetSaveHotkeyId(id),
            EngineCommand::SetRecordHotkeyId(id) => CommandView::SetRecordHotkeyId(id),
            EngineCommand::Shutdown => CommandView::Shutdown,
        }
    }
}

} // verus!
