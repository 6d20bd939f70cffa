//! The settings window: what it shows, what an edit does, and how it opens and closes.

pub mod commit;
pub mod editor;
pub mod keys;
pub mod lines;
pub mod mic;
pub mod shown;
pub mod window;
