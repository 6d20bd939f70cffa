//! Encoder quality defaults, for 1080p60, 1440p60 and 4K60 in turn.

use vstd::prelude::*;

verus! {

/// NVENC constant quality.
pub const NVENC_CQ: [u8; 3] = [23, 23, 24];

/// AMF quantiser.
pub const AMF_QP: [u8; 3] = [21, 21, 22];

/// QSV intelligent constant quality.
pub const QSV_ICQ: [u8; 3] = [22, 22, 23];

/// Whether the quantiser is raised while the byte cap keeps evicting early.
pub const AUTO_QP_RELIEF_DEFAULT: bool = true;

/// How long early eviction lasts before the quantiser is raised.
pub const RELIEF_SUSTAIN_SECONDS: i64 = 60;

} // verus!
