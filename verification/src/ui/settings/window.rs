//! How the settings window opens, hides and closes.
//!
//! There can be one event loop in a program, so the window is hidden where it is closed, and shown
//! again; it goes for good only with the program.

use vstd::prelude::*;

verus! {

/// What the window and the tray tell one another.
#[derive(Debug, Clone, Copy, PartialEq, Eq, Structural)]
pub struct Shared {
    /// The program ends.
    pub quit: bool,
    /// The window is shown.
    pub visible: bool,
    /// The list of clips is to be read again.
    pub rescan_recent: bool,
    /// The devices are to be listed again.
    pub rescan_devices: bool,
    /// A restart was asked for.
    pub restart: bool,
}

impl Shared {
    /// A window that opens.
    pub fn new() -> (s: Self)
        ensures
            s == (Shared {
                quit: false,
                visible: true,
                rescan_recent: false,
                rescan_devices: false,
                restart: false,
            }),
    {
        Shared {
            quit: false,
            visible: true,
            rescan_recent: false,
            rescan_devices: false,
            restart: false,
        }
    }
}

/// What has to be done to open the window.
#[derive(Debug, Clone, Copy, PartialEq, Eq, Structural)]
pub enum OpenStep {
    /// Nothing: there can be no window any more.
    Nothing,
    /// Say that the window's thread has ended.
    Disable,
    /// Show the window again.
    Reshow,
    /// Start the window's thread.
    Spawn,
}

/// The settings window as the tray knows it.
#[derive(Debug, Clone, Copy, PartialEq, Eq, Structural)]
pub struct SettingsHandle {
    /// What is shared with the window, once its thread runs.
    pub running: Option<Shared>,
    /// There can be no window any more in this session.
    pub disabled: bool,
}

/// The handle after the window was asked for, and what has to be done. `finished` says whether the
/// window's thread has ended.
pub open spec fn opened(handle: SettingsHandle, finished: bool) -> (SettingsHandle, OpenStep) {
    if handle.disabled {
        (handle, OpenStep::Nothing)
    } else {
        match handle.running {
            Some(_) if finished => (
                SettingsHandle { running: None, disabled: true },
                OpenStep::Disable,
            ),
            Some(shared) => (
                SettingsHandle {
                    running: Some(
                        Shared {
                            visible: true,
                            rescan_recent: true,
                            rescan_devices: true,
                            ..shared
                        },
                    ),
                    disabled: false,
                },
                OpenStep::Reshow,
            ),
            None => (handle, OpenStep::Spawn),
        }
    }
}

impl SettingsHandle {
    /// No window yet.
    pub fn new() -> (handle: Self)
        ensures
            handle == (SettingsHandle { running: None, disabled: false }),
    {
        SettingsHandle { running: None, disabled: false }
    }

    /// What has to be done to open the window.
    pub fn open(&mut self, finished: bool) -> (step: OpenStep)
        ensures
            (*final(self), step) == opened(*old(self), finished),
    {
        if self.disabled {
            return OpenStep::Nothing;
        }
        match self.running {
            Some(shared) => {
                if finished {
                    self.running = None;
                    self.disabled = true;
                    return OpenStep::Disable;
                }
                self.running = Some(
                    Shared {
                        quit: shared.quit,
                        visible: true,
                        rescan_recent: true,
                        rescan_devices: true,
                        restart: shared.restart,
                    },
                );
                OpenStep::Reshow
            },
            None => OpenStep::Spawn,
        }
    }

    /// Take in that the window's thread was started.
    pub fn spawned(&mut self)
        ensures
            *final(self) == (SettingsHandle {
                running: Some(
                    Shared {
                        quit: false,
                        visible: true,
                        rescan_recent: false,
                        rescan_devices: false,
                        restart: false,
                    },
                ),
                ..*old(self)
            }),
    {
        self.running = Some(Shared::new());
    }

    /// Whether the window asked for a restart.
    pub fn restart_requested(&self) -> (b: bool)
        ensures
            b == (self.running is Some && self.running->0.restart),
    {
        match self.running {
            Some(shared) => shared.restart,
            None => false,
        }
    }

    /// End the window: what its thread is told, if there is one. A window that was ended once is
    /// not ended again.
    pub fn shutdown(&mut self) -> (told: Option<Shared>)
        ensures
            told == match old(self).running {
                Some(shared) => Some(Shared { quit: true, ..shared }),
                None => None,
            },
            *final(self) == (SettingsHandle { running: None, ..*old(self) }),
    {
        match self.running {
            Some(shared) => {
                self.running = None;
                Some(
                    Shared {
                        quit: true,
                        visible: shared.visible,
                        rescan_recent: shared.rescan_recent,
                        rescan_devices: shared.rescan_devices,
                        restart: shared.restart,
                    },
                )
            },
            None => None,
        }
    }
}

/// What a frame of the window does.
#[derive(Debug, Clone, Copy, PartialEq, Eq, Structural)]
pub struct FrameStep {
    pub rescan_recent: bool,
    pub rescan_devices: bool,
    /// Write down where the window stands.
    pub persist: bool,
    pub close: bool,
    pub hide: bool,
    /// Draw the next frame soon.
    pub repaint: bool,
}

/// What a frame does, and what is shared after it. A request to close is met only where the program
/// ends; otherwise the window hides, and then it draws no more.
pub open spec fn framed(shared: Shared, close_requested: bool) -> (Shared, FrameStep) {
    let hide = !shared.quit && close_requested;
    (
        Shared {
            visible: shared.visible && !hide,
            rescan_recent: false,
            rescan_devices: false,
            ..shared
        },
        FrameStep {
            rescan_recent: shared.rescan_recent,
            rescan_devices: shared.rescan_devices,
            persist: shared.quit || close_requested,
            close: shared.quit,
            hide,
            repaint: !shared.quit && !close_requested && shared.visible,
        },
    )
}

/// What a frame does.
pub fn frame(shared: &mut Shared, close_requested: bool) -> (step: FrameStep)
    ensures
        (*final(shared), step) == framed(*old(shared), close_requested),
{
    let hide: bool = !shared.quit && close_requested;
    let step: FrameStep = FrameStep {
        rescan_recent: shared.rescan_recent,
        rescan_devices: shared.rescan_devices,
        persist: shared.quit || close_requested,
        close: shared.quit,
        hide,
        repaint: !shared.quit && !close_requested && shared.visible,
    };
    shared.rescan_recent = false;
    shared.rescan_devices = false;
    if hide {
        shared.visible = false;
    }
    step
}

/// Where the window stands, or would stand were it not maximized.
#[derive(Debug, Clone, Copy, PartialEq, Eq)]
pub struct Placed<T> {
    pub rect: T,
    pub maximized: bool,
}

/// What is remembered of the window's place. A maximized window keeps the place that it had before,
/// so that it opens again at a size that makes sense.
pub fn observe_place<T: Copy>(before: Option<Placed<T>>, rect: T, maximized: bool) -> (after: Placed<
    T,
>)
    ensures
        after.maximized == maximized,
        after.rect == if maximized && before is Some {
            before->0.rect
        } else {
            rect
        },
{
    match before {
        Some(placed) if maximized => Placed { rect: placed.rect, maximized: true },
        _ => Placed { rect, maximized },
    }
}

/// Law: a window that was closed stays hidden and draws nothing, frame after frame, until it is
/// asked for; then it is shown, and reads the clips and the devices again.
pub proof fn lemma_hidden_until_opened(shared: Shared, close_again: bool)
    requires
        !shared.quit,
    ensures
        ({
            let hidden = framed(shared, true).0;
            let later = framed(hidden, close_again);
            let shown = opened(
                SettingsHandle { running: Some(later.0), disabled: false },
                false,
            );
            &&& !hidden.visible
            &&& !later.0.visible && !later.1.repaint && !later.1.close
            &&& shown.1 == OpenStep::Reshow
            &&& shown.0.running matches Some(again) && again.visible && framed(
                again,
                false,
            ).1.rescan_recent && framed(again, false).1.rescan_devices && framed(
                again,
                false,
            ).1.repaint
        }),
{
}

/// Law: once the window's thread has ended by itself there is never another.
pub proof fn lemma_no_second_event_loop(handle: SettingsHandle, finished: bool)
    requires
        handle.running is Some,
        !handle.disabled,
    ensures
        opened(opened(handle, true).0, finished) == (
            SettingsHandle { running: None, disabled: true },
            OpenStep::Nothing,
        ),
{
}

} // verus!
