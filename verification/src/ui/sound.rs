//! The sound that confirms a save.

use vstd::prelude::*;

use crate::text::{trim, trimmed};

verus! {

/// Which sound is played.
#[derive(Debug, Clone, PartialEq, Eq)]
pub enum SoundChoice {
    /// The one in this file.
    File(String),
    /// The one that comes with the program.
    Bundled,
}

/// The file that a setting names, if it names one.
pub fn sound_file<'a>(custom_path: &'a str) -> (path: Option<&'a str>)
    ensures
        path is Some <==> trimmed(custom_path@).len() > 0,
        path matches Some(p) ==> p@ == trimmed(custom_path@),
{
    let p: &str = trim(custom_path);
    if p.unicode_len() > 0 {
        Some(p)
    } else {
        None
    }
}

/// Which sound is played: that of the setting's file, where it names one that is there.
pub fn play_save(custom_path: &str, is_file: bool) -> (choice: SoundChoice)
    ensures
        match choice {
            SoundChoice::File(path) => is_file && trimmed(custom_path@).len() > 0 && path@
                == trimmed(custom_path@),
            SoundChoice::Bundled => !is_file || trimmed(custom_path@).len() == 0,
        },
{
    match sound_file(custom_path) {
        Some(p) => if is_file {
            SoundChoice::File(String::from_str(p))
        } else {
            SoundChoice::Bundled
        },
        None => SoundChoice::Bundled,
    }
}

} // verus!
