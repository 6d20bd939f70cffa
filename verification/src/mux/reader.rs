//! Reading a movie's duration back from its file.

use vstd::prelude::*;

use crate::bytes::{be_value, read_u32, read_u64};
use crate::mux::fourcc;

verus! {

/// How much of a movie box is read to find its header.
pub const MOOV_PREFIX_LEN: u64 = 8192;

/// What one box header says about the search for a box.
#[derive(Debug, Clone, Copy)]
pub enum BoxStep {
    /// This is the box: where its payload begins, and its length.
    Found(u64, u64),
    /// Another box: the next one begins here.
    Next(u64),
    /// The file is malformed.
    Malformed,
}

/// The size of a box and of its header, from the first bytes of the box at `pos`. A size field of
/// one is followed by the true size; one of zero reaches to the end of the file.
pub open spec fn box_extent(header: Seq<u8>, pos: int, file_len: int) -> Option<(int, int)> {
    let size = be_value(header.subrange(0, 4));
    if size == 1 {
        if header.len() < 16 {
            None
        } else {
            Some((be_value(header.subrange(8, 16)), 16))
        }
    } else if size == 0 {
        Some((file_len - pos, 8))
    } else {
        Some((size, 8))
    }
}

/// What the first bytes of the box at `pos` say about the search for a box of type `typ`. A box that
/// is smaller than its own header is malformed, whatever its type.
pub open spec fn box_step(header: Seq<u8>, pos: int, file_len: int, typ: Seq<u8>) -> BoxStep {
    match box_extent(header, pos, file_len) {
        None => BoxStep::Malformed,
        Some((size, header_len)) => if size < header_len {
            BoxStep::Malformed
        } else if header.subrange(4, 8) == typ {
            BoxStep::Found((pos + header_len) as u64, (size - header_len) as u64)
        } else if pos + size > file_len {
            BoxStep::Malformed
        } else {
            BoxStep::Next((pos + size) as u64)
        },
    }
}

/// The bytes that a search reads at `pos`: a box header in its long form, as far as there are so
/// many.
pub open spec fn header_at(file: Seq<u8>, pos: int) -> Seq<u8> {
    file.subrange(
        pos,
        if pos + 16 <= file.len() {
            pos + 16
        } else {
            file.len() as int
        },
    )
}

/// Where the payload of the first box of type `typ` lies, from `pos` on, and its length.
pub open spec fn box_from(file: Seq<u8>, pos: int, typ: Seq<u8>) -> Option<(u64, u64)>
    decreases file.len() - pos,
{
    if pos < 0 || pos + 8 > file.len() {
        None
    } else {
        match box_step(header_at(file, pos), pos, file.len() as int, typ) {
            BoxStep::Found(at, len) => Some((at, len)),
            BoxStep::Malformed => None,
            BoxStep::Next(next) => if pos < next {
                box_from(file, next as int, typ)
            } else {
                None
            },
        }
    }
}

/// Look at one box. `header` holds the first bytes of the box at `pos`: sixteen, or as many as are
/// left of the file.
pub fn look_at_box(pos: u64, file_len: u64, header: &[u8], typ: &[u8; 4]) -> (r: BoxStep)
    requires
        pos + 8 <= file_len,
        header@.len() >= 8,
        header@.len() == 16 || pos + header@.len() == file_len,
        pos + header@.len() <= file_len,
    ensures
        r == box_step(header@, pos as int, file_len as int, typ@),
        r matches BoxStep::Next(next) ==> pos < next <= file_len,
{
    let size32: u32 = match read_u32(header, 0) {
        Some(v) => v,
        None => 0,
    };
    let (size, header_len): (u64, u64) = if size32 == 1 {
        match read_u64(header, 8) {
            Some(v) => (v, 16),
            None => {
                return BoxStep::Malformed;
            },
        }
    } else if size32 == 0 {
        (file_len - pos, 8)
    } else {
        (size32 as u64, 8)
    };
    if size < header_len {
        return BoxStep::Malformed;
    }
    let found: bool = header[4] == typ[0] && header[5] == typ[1] && header[6] == typ[2]
        && header[7] == typ[3];
    proof {
        let t = header@.subrange(4, 8);
        if found {
            assert(t =~= typ@);
        } else {
            assert(t[0] == header@[4] && t[1] == header@[5] && t[2] == header@[6] && t[3]
                == header@[7]);
        }
    }
    if found {
        return BoxStep::Found(pos + header_len, size - header_len);
    }
    if size > file_len - pos {
        return BoxStep::Malformed;
    }
    BoxStep::Next(pos + size)
}

/// Find the payload of the first top-level box of a type, and its length.
pub fn find_top_level_box(file: &[u8], typ: &[u8; 4]) -> (r: Option<(u64, u64)>)
    ensures
        r == box_from(file@, 0, typ@),
{
    let total: usize = file.len();
    let len: u64 = total as u64;
    let mut pos: u64 = 0;
    while len >= 8 && pos <= len - 8
        invariant
            total == file@.len(),
            len == total,
            pos <= len,
            box_from(file@, 0, typ@) == box_from(file@, pos as int, typ@),
        decreases len - pos,
    {
        let n: usize = if len - pos >= 16 {
            16
        } else {
            (len - pos) as usize
        };
        let at: usize = pos as usize;
        let header: &[u8] = &file[at..at + n];
        assert(header@ == header_at(file@, pos as int));
        match look_at_box(pos, len, header, typ) {
            BoxStep::Found(off, size) => {
                return Some((off, size));
            },
            BoxStep::Next(next) => {
                pos = next;
            },
            BoxStep::Malformed => {
                return None;
            },
        }
    }
    None
}

/// Whether `needle` stands in `hay` at `i`.
pub open spec fn stands_at(hay: Seq<u8>, needle: Seq<u8>, i: int) -> bool {
    0 <= i && i + needle.len() <= hay.len() && hay.subrange(i, i + needle.len()) == needle
}

/// The first place at `i` or later where `needle` stands in `hay`.
pub open spec fn place_from(hay: Seq<u8>, needle: Seq<u8>, i: int) -> Option<int>
    decreases hay.len() - i,
{
    if i < 0 || i + needle.len() > hay.len() || needle.len() == 0 {
        None
    } else if stands_at(hay, needle, i) {
        Some(i)
    } else {
        place_from(hay, needle, i + 1)
    }
}

/// The first place of `needle` in `hay`. An empty needle is nowhere.
pub fn find_subslice(hay: &[u8], needle: &[u8]) -> (r: Option<usize>)
    ensures
        r is Some <==> place_from(hay@, needle@, 0) is Some,
        r matches Some(i) ==> place_from(hay@, needle@, 0) == Some(i as int),
{
    if needle.len() == 0 || hay.len() < needle.len() {
        return None;
    }
    let last: usize = hay.len() - needle.len();
    let mut i: usize = 0;
    while i <= last
        invariant
            0 < needle@.len() <= hay@.len(),
            last == hay@.len() - needle@.len(),
            last < hay@.len() <= usize::MAX,
            i <= last + 1,
            place_from(hay@, needle@, 0) == place_from(hay@, needle@, i as int),
        decreases last + 1 - i,
    {
        if same_at(hay, needle, i) {
            return Some(i);
        }
        i = i + 1;
    }
    None
}

/// Whether `needle` stands in `hay` at `i`.
fn same_at(hay: &[u8], needle: &[u8], i: usize) -> (b: bool)
    requires
        i + needle@.len() <= hay@.len(),
    ensures
        b == stands_at(hay@, needle@, i as int),
{
    let ghost there = hay@.subrange(i as int, i + needle@.len());
    let total: usize = hay.len();
    let mut k: usize = 0;
    while k < needle.len()
        invariant
            k <= needle@.len(),
            total == hay@.len(),
            i + needle@.len() <= total,
            there == hay@.subrange(i as int, i + needle@.len()),
            forall|j: int| 0 <= j < k ==> there[j] == needle@[j],
        decreases needle@.len() - k,
    {
        if hay[i + k] != needle[k] {
            assert(there[k as int] != needle@[k as int]);
            return false;
        }
        k = k + 1;
    }
    assert(there =~= needle@);
    true
}

/// The timescale and duration in a movie header whose type stands at `m`; the version before them
/// decides how wide they are.
pub open spec fn header_times(moov: Seq<u8>, m: int) -> Option<(int, int)> {
    if m + 5 > moov.len() {
        None
    } else if moov[m + 4] == 1 {
        if m + 36 > moov.len() {
            None
        } else {
            Some(
                (
                    be_value(moov.subrange(m + 24, m + 28)),
                    be_value(moov.subrange(m + 28, m + 36)),
                ),
            )
        }
    } else if m + 24 > moov.len() {
        None
    } else {
        Some((be_value(moov.subrange(m + 16, m + 20)), be_value(moov.subrange(m + 20, m + 24))))
    }
}

/// The timescale and duration in the first bytes of a movie box, unless either is zero: a movie
/// that was not finished has no duration.
pub open spec fn movie_times(moov: Seq<u8>) -> Option<(int, int)> {
    match place_from(moov, fourcc::MVHD@, 0) {
        None => None,
        Some(m) => match header_times(moov, m) {
            None => None,
            Some((timescale, duration)) => if timescale == 0 || duration == 0 {
                None
            } else {
                Some((timescale, duration))
            },
        },
    }
}

/// Where the first place of a needle lies.
proof fn lemma_place_from(hay: Seq<u8>, needle: Seq<u8>, i: int)
    requires
        0 <= i,
    ensures
        place_from(hay, needle, i) matches Some(k) ==> i <= k && stands_at(hay, needle, k),
    decreases hay.len() - i,
{
    if i + needle.len() <= hay.len() && needle.len() > 0 && !stands_at(hay, needle, i) {
        lemma_place_from(hay, needle, i + 1);
    }
}

/// Read the timescale and the duration from the first bytes of a movie box's payload.
pub fn read_movie_times(moov: &[u8]) -> (r: Option<(u32, u64)>)
    ensures
        r is Some <==> movie_times(moov@) is Some,
        r matches Some(t) ==> movie_times(moov@) == Some((t.0 as int, t.1 as int)),
{
    let m: usize = match find_subslice(moov, &fourcc::MVHD) {
        Some(m) => m,
        None => {
            return None;
        },
    };
    proof {
        lemma_place_from(moov@, fourcc::MVHD@, 0);
    }
    let len: usize = moov.len();
    if len - m < 5 {
        return None;
    }
    let (timescale, duration): (u32, u64) = if moov[m + 4] == 1 {
        if len - m < 36 {
            return None;
        }
        match (read_u32(moov, m + 24), read_u64(moov, m + 28)) {
            (Some(ts), Some(du)) => (ts, du),
            _ => {
                return None;
            },
        }
    } else {
        if len - m < 24 {
            return None;
        }
        match (read_u32(moov, m + 16), read_u32(moov, m + 20)) {
            (Some(ts), Some(du)) => (ts, du as u64),
            _ => {
                return None;
            },
        }
    };
    if timescale == 0 || duration == 0 {
        None
    } else {
        Some((timescale, duration))
    }
}

/// The part of a file that is read for its duration: the first bytes of the movie box's payload.
pub open spec fn moov_prefix(file: Seq<u8>) -> Option<Seq<u8>> {
    match box_from(file, 0, fourcc::MOOV@) {
        None => None,
        Some((at, len)) => {
            let n: int = if len < MOOV_PREFIX_LEN {
                len as int
            } else {
                MOOV_PREFIX_LEN as int
            };
            if at + n <= file.len() {
                Some(file.subrange(at as int, at + n))
            } else {
                None
            }
        },
    }
}

/// Read the timescale and the duration of a movie from its file: nothing where it has none.
pub fn read_mp4_duration(file: &[u8]) -> (r: Option<(u32, u64)>)
    ensures
        r is Some <==> moov_prefix(file@) is Some && movie_times(moov_prefix(file@).unwrap()) is Some,
        r matches Some(t) ==> movie_times(moov_prefix(file@).unwrap()) == Some(
            (t.0 as int, t.1 as int),
        ),
{
    let (at, len): (u64, u64) = match find_top_level_box(file, &fourcc::MOOV) {
        Some(found) => found,
        None => {
            return None;
        },
    };
    let n: u64 = if len < MOOV_PREFIX_LEN {
        len
    } else {
        MOOV_PREFIX_LEN
    };
    let file_len: u64 = file.len() as u64;
    if at > file_len || n > file_len - at {
        return None;
    }
    let from: usize = at as usize;
    let until: usize = (at + n) as usize;
    read_movie_times(&file[from..until])
}

/// A duration in milliseconds, rounded half up; what does not fit counts as the most that does.
pub open spec fn rounded_ms(timescale: int, duration: int) -> int {
    let ms = (duration * 2000 + timescale) / (2 * timescale);
    if ms > u64::MAX {
        u64::MAX as int
    } else {
        ms
    }
}

/// A duration in milliseconds, rounded half up.
pub fn duration_ms(timescale: u32, duration: u64) -> (ms: u64)
    requires
        timescale > 0,
    ensures
        ms == rounded_ms(timescale as int, duration as int),
{
    let doubled: u128 = duration as u128 * 2000 + timescale as u128;
    let ms: u128 = doubled / (2 * timescale as u128);
    if ms > u64::MAX as u128 {
        u64::MAX
    } else {
        ms as u64
    }
}

} // verus!
