//! The folders that clips are sorted into.

use vstd::prelude::*;

verus! {

/// The folder of clips that belong to no application.
pub const FALLBACK_FOLDER: &'static str = "Other";

} // verus!
