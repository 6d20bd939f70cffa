//! What the tray, the notifications and the windows show and decide.

pub mod looks;
pub mod notify;
pub mod pill;
pub mod recent;
pub mod settings;
pub mod sound;
pub mod theme;
pub mod tray;
pub mod window_state;
