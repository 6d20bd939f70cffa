//! Text in 16-bit units, as the system's calls take and give it.

use vstd::prelude::*;

use crate::text::is_char_number;

verus! {

/// Where a text ends: at the first zero, or where the buffer does.
pub open spec fn zero_from(buf: Seq<u16>, i: int) -> int
    decreases buf.len() - i,
{
    if i >= buf.len() {
        buf.len() as int
    } else if buf[i] == 0 {
        i
    } else {
        zero_from(buf, i + 1)
    }
}

/// Whether a unit is the first of a surrogate pair.
pub open spec fn is_high(u: u16) -> bool {
    0xD800 <= u <= 0xDBFF
}

/// Whether a unit is the second of a surrogate pair.
pub open spec fn is_low(u: u16) -> bool {
    0xDC00 <= u <= 0xDFFF
}

/// The characters of UTF-16 text from unit `i` on. A pair of surrogates makes one character; a
/// surrogate alone is replaced by U+FFFD.
pub open spec fn utf16_from(buf: Seq<u16>, i: int) -> Seq<char>
    decreases buf.len() - i,
{
    if i < 0 || i >= buf.len() {
        Seq::empty()
    } else if is_high(buf[i]) && i + 1 < buf.len() && is_low(buf[i + 1]) {
        seq![(0x1_0000 + (buf[i] - 0xD800) * 0x400 + (buf[i + 1] - 0xDC00)) as char] + utf16_from(
            buf,
            i + 2,
        )
    } else if is_high(buf[i]) || is_low(buf[i]) {
        seq![0xFFFDint as char] + utf16_from(buf, i + 1)
    } else {
        seq![buf[i] as char] + utf16_from(buf, i + 1)
    }
}

/// Decode UTF-16 text that ends at the first zero.
pub fn utf16_to_string(buf: &[u16]) -> (s: String)
    ensures
        s@ == utf16_from(buf@.take(zero_from(buf@, 0)), 0),
{
    let mut end: usize = 0;
    while end < buf.len() && buf[end] != 0
        invariant
            end <= buf@.len(),
            zero_from(buf@, 0) == zero_from(buf@, end as int),
        decreases buf@.len() - end,
    {
        end = end + 1;
    }
    let ghost text = buf@.take(end as int);
    let mut s: String = String::new();
    let mut i: usize = 0;
    assert(s@ + utf16_from(text, 0) =~= utf16_from(text, 0));
    while i < end
        invariant
            i <= end <= buf@.len(),
            text == buf@.take(end as int),
            s@ + utf16_from(text, i as int) == utf16_from(text, 0),
        decreases end - i,
    {
        let ghost before = s@;
        let u: u16 = buf[i];
        let high: bool = 0xD800 <= u && u <= 0xDBFF;
        let low: bool = 0xDC00 <= u && u <= 0xDFFF;
        let mut next: usize = i + 1;
        let mut n: u32 = u as u32;
        if high && i + 1 < end && 0xDC00 <= buf[i + 1] && buf[i + 1] <= 0xDFFF {
            n = 0x1_0000 + (u as u32 - 0xD800) * 0x400 + (buf[i + 1] as u32 - 0xDC00);
            next = i + 2;
        } else if high || low {
            n = 0xFFFD;
        }
        assert(is_char_number(n as int));
        if let Some(c) = char::from_u32(n) {
            s.push(c);
            assert(utf16_from(text, i as int) == seq![c] + utf16_from(text, next as int));
            assert(s@ + utf16_from(text, next as int) =~= before + (seq![c] + utf16_from(
                text,
                next as int,
            )));
        }
        i = next;
    }
    assert(s@ + utf16_from(text, end as int) =~= s@);
    s
}

/// The units of one character: one, or a pair of surrogates.
pub open spec fn units_of(c: char) -> Seq<u16> {
    let n = c as int;
    if n < 0x1_0000 {
        seq![n as u16]
    } else {
        seq![
            (0xD800 + (n - 0x1_0000) / 0x400) as u16,
            (0xDC00 + (n - 0x1_0000) % 0x400) as u16,
        ]
    }
}

/// The units of a text.
pub open spec fn utf16_units(s: Seq<char>) -> Seq<u16>
    decreases s.len(),
{
    if s.len() == 0 {
        Seq::empty()
    } else {
        utf16_units(s.drop_last()) + units_of(s.last())
    }
}

/// Encode text in 16-bit units.
pub fn to_wide(s: &str) -> (wide: Vec<u16>)
    ensures
        wide@ == utf16_units(s@),
{
    let mut wide: Vec<u16> = Vec::new();
    let n: usize = s.unicode_len();
    let mut i: usize = 0;
    assert(s@.take(0) =~= Seq::empty());
    while i < n
        invariant
            i <= n,
            n == s@.len(),
            wide@ == utf16_units(s@.take(i as int)),
        decreases n - i,
    {
        let ghost before = wide@;
        let c: char = s.get_char(i);
        let v: u32 = c as u32;
        if v < 0x1_0000 {
            wide.push(v as u16);
        } else {
            wide.push((0xD800 + (v - 0x1_0000) / 0x400) as u16);
            wide.push((0xDC00 + (v - 0x1_0000) % 0x400) as u16);
        }
        assert(wide@ =~= before + units_of(c));
        assert(s@.take(i + 1).drop_last() =~= s@.take(i as int));
        i = i + 1;
    }
    assert(s@.take(n as int) =~= s@);
    wide
}

/// Decoding what begins with a character's units gives the character first.
proof fn lemma_decode_char(c: char, rest: Seq<u16>)
    ensures
        utf16_from(units_of(c) + rest, 0) == seq![c] + utf16_from(rest, 0),
{
    let n = c as int;
    let u = units_of(c);
    let all = u + rest;
    lemma_decode_shifted(u, rest, 0);
    if n < 0x1_0000 {
        assert(!is_high(u[0]) && !is_low(u[0]));
        assert(all[0] == u[0]);
        assert(u[0] as char == c);
    } else {
        let high = (n - 0x1_0000) / 0x400;
        let low = (n - 0x1_0000) % 0x400;
        assert(0 <= high < 0x400 && 0 <= low < 0x400);
        assert(all[0] == u[0] && all[1] == u[1]);
        assert(is_high(all[0]) && is_low(all[1]));
        assert(n == 0x1_0000 + high * 0x400 + low);
    }
}

/// Decoding behind some units does not depend on them.
proof fn lemma_decode_shifted(front: Seq<u16>, rest: Seq<u16>, i: int)
    requires
        0 <= i <= rest.len(),
    ensures
        utf16_from(front + rest, front.len() + i) == utf16_from(rest, i),
    decreases rest.len() - i,
{
    let all = front + rest;
    if i < rest.len() {
        assert(all[front.len() + i] == rest[i]);
        if i + 1 < rest.len() {
            assert(all[front.len() + i + 1] == rest[i + 1]);
            lemma_decode_shifted(front, rest, i + 1);
            if i + 2 <= rest.len() {
                lemma_decode_shifted(front, rest, i + 2);
            }
        } else {
            lemma_decode_shifted(front, rest, i + 1);
        }
    }
}

/// The units of a text, from its first character on.
proof fn lemma_units_first(s: Seq<char>)
    requires
        s.len() > 0,
    ensures
        utf16_units(s) == units_of(s[0]) + utf16_units(s.skip(1)),
    decreases s.len(),
{
    if s.len() == 1 {
        assert(s.drop_last() =~= Seq::empty());
        assert(s.skip(1) =~= Seq::empty());
        assert(utf16_units(s) =~= units_of(s[0]) + utf16_units(s.skip(1)));
    } else {
        lemma_units_first(s.drop_last());
        assert(s.drop_last().skip(1) =~= s.skip(1).drop_last());
        assert(utf16_units(s) =~= units_of(s[0]) + utf16_units(s.skip(1)));
    }
}

/// Law: text that is encoded and decoded again is the same.
pub proof fn lemma_wide_reads_back(s: Seq<char>)
    ensures
        utf16_from(utf16_units(s), 0) == s,
    decreases s.len(),
{
    if s.len() > 0 {
        lemma_units_first(s);
        lemma_wide_reads_back(s.skip(1));
        lemma_decode_char(s[0], utf16_units(s.skip(1)));
        assert(seq![s[0]] + s.skip(1) =~= s);
    } else {
        assert(s =~= Seq::empty());
    }
}

/// What a text leaves in a buffer of `len` units: as many of its units as fit before a zero.
pub open spec fn fitted(s: Seq<char>, len: int) -> Seq<u16> {
    let units = utf16_units(s);
    if units.len() < len {
        units.push(0u16)
    } else {
        units.take(len - 1).push(0u16)
    }
}

/// Write a text into a buffer, as far as it fits, and a zero behind it.
pub fn fill_wide(dst: &mut [u16], s: &str)
    requires
        old(dst)@.len() > 0,
    ensures
        final(dst)@ == fitted(s@, old(dst)@.len() as int) + old(dst)@.skip(
            fitted(s@, old(dst)@.len() as int).len() as int,
        ),
{
    let ghost before = dst@;
    let wide: Vec<u16> = to_wide(s);
    let len: usize = dst.len();
    let n: usize = if wide.len() < len - 1 {
        wide.len()
    } else {
        len - 1
    };
    let mut i: usize = 0;
    while i < n
        invariant
            i <= n,
            n < len,
            n <= wide@.len(),
            dst@.len() == len,
            len == before.len(),
            forall|k: int| 0 <= k < i ==> dst@[k] == wide@[k],
            forall|k: int| i <= k < len ==> dst@[k] == before[k],
        decreases n - i,
    {
        dst[i] = wide[i];
        i = i + 1;
    }
    dst[n] = 0;
    proof {
        let text = fitted(s@, len as int);
        assert(text.len() == n + 1);
        assert(dst@ =~= text + before.skip(text.len() as int));
    }
}

/// Law: what is left in a buffer fits it and ends with a zero; before the zero stand the first units of
/// the text, and all of them where there is room.
pub proof fn lemma_text_is_cut_to_fit(s: Seq<char>, len: int)
    requires
        0 < len,
    ensures
        fitted(s, len).len() <= len,
        fitted(s, len).last() == 0,
        fitted(s, len).drop_last().is_prefix_of(utf16_units(s)),
        utf16_units(s).len() < len ==> fitted(s, len).drop_last() == utf16_units(s),
        utf16_units(s).len() >= len ==> fitted(s, len).len() == len,
{
    let units = utf16_units(s);
    if units.len() < len {
        assert(fitted(s, len).drop_last() =~= units);
    } else {
        assert(fitted(s, len).drop_last() =~= units.take(len - 1));
    }
}

} // verus!
