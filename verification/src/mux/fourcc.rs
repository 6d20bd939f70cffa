//! Four-character codes of the boxes, brands and handlers in use.

use vstd::prelude::*;

verus! {

/// `ftyp`.
pub const FTYP: [u8; 4] = ['f' as u8, 't' as u8, 'y' as u8, 'p' as u8];

/// `isom`.
pub const ISOM: [u8; 4] = ['i' as u8, 's' as u8, 'o' as u8, 'm' as u8];

/// `iso2`.
pub const ISO2: [u8; 4] = ['i' as u8, 's' as u8, 'o' as u8, '2' as u8];

/// `avc1`.
pub const AVC1: [u8; 4] = ['a' as u8, 'v' as u8, 'c' as u8, '1' as u8];

/// `mp41`.
pub const MP41: [u8; 4] = ['m' as u8, 'p' as u8, '4' as u8, '1' as u8];

/// `free`.
pub const FREE: [u8; 4] = ['f' as u8, 'r' as u8, 'e' as u8, 'e' as u8];

/// `mdat`.
pub const MDAT: [u8; 4] = ['m' as u8, 'd' as u8, 'a' as u8, 't' as u8];

/// `moov`.
pub const MOOV: [u8; 4] = ['m' as u8, 'o' as u8, 'o' as u8, 'v' as u8];

/// `mvhd`.
pub const MVHD: [u8; 4] = ['m' as u8, 'v' as u8, 'h' as u8, 'd' as u8];

/// `trak`.
pub const TRAK: [u8; 4] = ['t' as u8, 'r' as u8, 'a' as u8, 'k' as u8];

/// `tkhd`.
pub const TKHD: [u8; 4] = ['t' as u8, 'k' as u8, 'h' as u8, 'd' as u8];

/// `mdia`.
pub const MDIA: [u8; 4] = ['m' as u8, 'd' as u8, 'i' as u8, 'a' as u8];

/// `mdhd`.
pub const MDHD: [u8; 4] = ['m' as u8, 'd' as u8, 'h' as u8, 'd' as u8];

/// `hdlr`.
pub const HDLR: [u8; 4] = ['h' as u8, 'd' as u8, 'l' as u8, 'r' as u8];

/// `vide`.
pub const VIDE: [u8; 4] = ['v' as u8, 'i' as u8, 'd' as u8, 'e' as u8];

/// `soun`.
pub const SOUN: [u8; 4] = ['s' as u8, 'o' as u8, 'u' as u8, 'n' as u8];

/// `minf`.
pub const MINF: [u8; 4] = ['m' as u8, 'i' as u8, 'n' as u8, 'f' as u8];

/// `vmhd`.
pub const VMHD: [u8; 4] = ['v' as u8, 'm' as u8, 'h' as u8, 'd' as u8];

/// `smhd`.
pub const SMHD: [u8; 4] = ['s' as u8, 'm' as u8, 'h' as u8, 'd' as u8];

/// `dinf`.
pub const DINF: [u8; 4] = ['d' as u8, 'i' as u8, 'n' as u8, 'f' as u8];

/// `dref`.
pub const DREF: [u8; 4] = ['d' as u8, 'r' as u8, 'e' as u8, 'f' as u8];

/// `url `.
pub const URL: [u8; 4] = ['u' as u8, 'r' as u8, 'l' as u8, ' ' as u8];

/// `stbl`.
pub const STBL: [u8; 4] = ['s' as u8, 't' as u8, 'b' as u8, 'l' as u8];

/// `stsd`.
pub const STSD: [u8; 4] = ['s' as u8, 't' as u8, 's' as u8, 'd' as u8];

/// `stts`.
pub const STTS: [u8; 4] = ['s' as u8, 't' as u8, 't' as u8, 's' as u8];

/// `stsc`.
pub const STSC: [u8; 4] = ['s' as u8, 't' as u8, 's' as u8, 'c' as u8];

/// `stsz`.
pub const STSZ: [u8; 4] = ['s' as u8, 't' as u8, 's' as u8, 'z' as u8];

/// `stco`.
pub const STCO: [u8; 4] = ['s' as u8, 't' as u8, 'c' as u8, 'o' as u8];

/// `avcC`.
pub const AVCC: [u8; 4] = ['a' as u8, 'v' as u8, 'c' as u8, 'C' as u8];

/// `colr`.
pub const COLR: [u8; 4] = ['c' as u8, 'o' as u8, 'l' as u8, 'r' as u8];

/// `nclx`.
pub const NCLX: [u8; 4] = ['n' as u8, 'c' as u8, 'l' as u8, 'x' as u8];

/// `mp4a`.
pub const MP4A: [u8; 4] = ['m' as u8, 'p' as u8, '4' as u8, 'a' as u8];

/// `esds`.
pub const ESDS: [u8; 4] = ['e' as u8, 's' as u8, 'd' as u8, 's' as u8];

/// `mvex`.
pub const MVEX: [u8; 4] = ['m' as u8, 'v' as u8, 'e' as u8, 'x' as u8];

/// `trex`.
pub const TREX: [u8; 4] = ['t' as u8, 'r' as u8, 'e' as u8, 'x' as u8];

/// `moof`.
pub const MOOF: [u8; 4] = ['m' as u8, 'o' as u8, 'o' as u8, 'f' as u8];

/// `mfhd`.
pub const MFHD: [u8; 4] = ['m' as u8, 'f' as u8, 'h' as u8, 'd' as u8];

/// `traf`.
pub const TRAF: [u8; 4] = ['t' as u8, 'r' as u8, 'a' as u8, 'f' as u8];

/// `tfhd`.
pub const TFHD: [u8; 4] = ['t' as u8, 'f' as u8, 'h' as u8, 'd' as u8];

/// `tfdt`.
pub const TFDT: [u8; 4] = ['t' as u8, 'f' as u8, 'd' as u8, 't' as u8];

/// `trun`.
pub const TRUN: [u8; 4] = ['t' as u8, 'r' as u8, 'u' as u8, 'n' as u8];

/// `stss`.
pub const STSS: [u8; 4] = ['s' as u8, 't' as u8, 's' as u8, 's' as u8];

/// `co64`.
pub const CO64: [u8; 4] = ['c' as u8, 'o' as u8, '6' as u8, '4' as u8];

/// `edts`.
pub const EDTS: [u8; 4] = ['e' as u8, 'd' as u8, 't' as u8, 's' as u8];

/// `elst`.
pub const ELST: [u8; 4] = ['e' as u8, 'l' as u8, 's' as u8, 't' as u8];

} // verus!
