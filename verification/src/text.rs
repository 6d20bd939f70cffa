//! Text: decimal numbers, ASCII case, trimming, splitting.

use vstd::prelude::*;

verus! {

/// `String::push`: appends one character.
pub assume_specification[ String::push ](s: &mut String, c: char)
    ensures
        final(s)@ == old(s)@.push(c),
;

/// What a text says, where there is one.
pub open spec fn said(s: Option<String>) -> Option<Seq<char>> {
    match s {
        Some(s) => Some(s@),
        None => None,
    }
}

/// The character of a decimal digit.
pub open spec fn digit(d: int) -> char {
    (0x30 + d) as char
}

/// A number in decimal, without leading zeros.
pub open spec fn decimal(n: int) -> Seq<char>
    decreases n,
{
    if n < 10 {
        seq![digit(n)]
    } else {
        decimal(n / 10).push(digit(n % 10))
    }
}

/// A number in decimal, with a leading zero below ten.
pub open spec fn decimal2(n: int) -> Seq<char> {
    if n < 10 {
        seq!['0', digit(n)]
    } else {
        decimal(n)
    }
}

/// Append a number in decimal.
pub fn push_decimal(s: &mut String, n: u64)
    ensures
        final(s)@ == old(s)@ + decimal(n as int),
    decreases n,
{
    let ghost before = s@;
    if n >= 10 {
        push_decimal(s, n / 10);
    }
    let d: u8 = (n % 10) as u8;
    s.push((0x30 + d) as char);
    assert(s@ =~= before + decimal(n as int));
}

/// Append a number in decimal, with a leading zero below ten.
pub fn push_decimal2(s: &mut String, n: u64)
    ensures
        final(s)@ == old(s)@ + decimal2(n as int),
{
    let ghost before = s@;
    if n < 10 {
        s.push('0');
        s.push((0x30 + n as u8) as char);
        assert(s@ =~= before + decimal2(n as int));
    } else {
        push_decimal(s, n);
    }
}

/// A character with an ASCII capital made small.
pub open spec fn lower(c: char) -> char {
    if 'A' <= c <= 'Z' {
        (c as int + 32) as char
    } else {
        c
    }
}

/// Text with ASCII capitals made small.
pub open spec fn lowered(s: Seq<char>) -> Seq<char> {
    s.map_values(|c: char| lower(c))
}

/// A character with an ASCII capital made small.
pub fn lower_char(c: char) -> (r: char)
    ensures
        r == lower(c),
{
    if c >= 'A' && c <= 'Z' {
        (c as u8 + 32) as char
    } else {
        c
    }
}

/// Whether two texts have the same characters.
pub fn same_text(a: &str, b: &str) -> (r: bool)
    ensures
        r == (a@ == b@),
{
    let n: usize = a.unicode_len();
    if n != b.unicode_len() {
        return false;
    }
    let mut i: usize = 0;
    while i < n
        invariant
            i <= n,
            n == a@.len(),
            n == b@.len(),
            forall|k: int| 0 <= k < i ==> a@[k] == b@[k],
        decreases n - i,
    {
        if a.get_char(i) != b.get_char(i) {
            return false;
        }
        i = i + 1;
    }
    assert(a@ =~= b@);
    true
}

/// Whether a text begins with another.
pub open spec fn begins_with(s: Seq<char>, prefix: Seq<char>) -> bool {
    prefix.len() <= s.len() && s.take(prefix.len() as int) == prefix
}

/// Whether a text ends with another.
pub open spec fn finishes_with(s: Seq<char>, suffix: Seq<char>) -> bool {
    suffix.len() <= s.len() && s.skip(s.len() - suffix.len()) == suffix
}

/// Whether a text begins with another.
pub fn starts_with(s: &str, prefix: &str) -> (b: bool)
    ensures
        b == begins_with(s@, prefix@),
{
    let n: usize = prefix.unicode_len();
    if s.unicode_len() < n {
        return false;
    }
    let mut i: usize = 0;
    while i < n
        invariant
            i <= n,
            n == prefix@.len(),
            n <= s@.len(),
            forall|k: int| 0 <= k < i ==> s@[k] == prefix@[k],
        decreases n - i,
    {
        if s.get_char(i) != prefix.get_char(i) {
            assert(s@.take(n as int)[i as int] != prefix@[i as int]);
            return false;
        }
        i = i + 1;
    }
    assert(s@.take(n as int) =~= prefix@);
    true
}

/// Whether a text, with its ASCII capitals made small, ends with another.
pub fn ends_with_ignoring_case(s: &str, suffix: &str) -> (b: bool)
    ensures
        b == finishes_with(lowered(s@), suffix@),
{
    let len: usize = s.unicode_len();
    let n: usize = suffix.unicode_len();
    let ghost low = lowered(s@);
    if len < n {
        return false;
    }
    let ghost end = low.skip(len - n);
    let mut i: usize = 0;
    while i < n
        invariant
            i <= n,
            n == suffix@.len(),
            len == s@.len(),
            n <= len,
            low == lowered(s@),
            end == low.skip(len - n),
            forall|k: int| 0 <= k < i ==> end[k] == suffix@[k],
        decreases n - i,
    {
        if lower_char(s.get_char(len - n + i)) != suffix.get_char(i) {
            assert(end[i as int] != suffix@[i as int]);
            return false;
        }
        i = i + 1;
    }
    assert(end =~= suffix@);
    true
}

/// Whether a number is that of a character.
pub open spec fn is_char_number(n: int) -> bool {
    0 <= n <= 0xD7FF || 0xE000 <= n <= 0x10FFFF
}

/// `char::from_u32`: the character with a number, if it is that of one.
pub assume_specification[ char::from_u32 ](i: u32) -> (r: Option<char>)
    ensures
        r is Some <==> is_char_number(i as int),
        r matches Some(c) ==> c as int == i,
;

/// The character of a hexadecimal digit.
pub open spec fn hex_digit(d: int) -> char {
    if d < 10 {
        (0x30 + d) as char
    } else {
        (0x57 + d) as char
    }
}

/// The last `n` hexadecimal digits of a number.
pub open spec fn hex_digits(v: int, n: int) -> Seq<char>
    decreases n,
{
    if n <= 0 {
        Seq::empty()
    } else {
        hex_digits(v / 16, n - 1).push(hex_digit(v % 16))
    }
}

/// The number of hexadecimal digits of a number, at least one.
pub open spec fn hex_len(v: int) -> int
    decreases v,
{
    if v < 16 {
        1
    } else {
        1 + hex_len(v / 16)
    }
}

/// A number in hexadecimal behind `0x`, with at least `least` digits.
pub open spec fn hex_text(v: int, least: int) -> Seq<char> {
    "0x"@ + hex_digits(
        v,
        if hex_len(v) < least {
            least
        } else {
            hex_len(v)
        },
    )
}

/// Append the last hexadecimal digits of a number.
fn push_hex_digits(s: &mut String, v: u64, n: u64)
    ensures
        final(s)@ == old(s)@ + hex_digits(v as int, n as int),
    decreases n,
{
    let ghost before = s@;
    if n > 0 {
        push_hex_digits(s, v / 16, n - 1);
        let d: u8 = (v % 16) as u8;
        s.push(
            if d < 10 {
                (0x30 + d) as char
            } else {
                (0x57 + d) as char
            },
        );
    }
    assert(s@ =~= before + hex_digits(v as int, n as int));
}

/// The number of hexadecimal digits of a number.
fn count_hex(v: u64) -> (n: u64)
    ensures
        n == hex_len(v as int),
        n <= v + 1,
    decreases v,
{
    if v < 16 {
        1
    } else {
        1 + count_hex(v / 16)
    }
}

/// Append a number in hexadecimal.
pub fn push_hex(s: &mut String, v: u64, least: u64)
    ensures
        final(s)@ == old(s)@ + hex_text(v as int, least as int),
{
    let ghost before = s@;
    s.append("0x");
    let digits: u64 = count_hex(v);
    push_hex_digits(
        s,
        v,
        if digits < least {
            least
        } else {
            digits
        },
    );
    assert(s@ =~= before + hex_text(v as int, least as int));
}

/// A number in decimal, with its sign where it is negative.
pub open spec fn signed_decimal(n: int) -> Seq<char> {
    if n < 0 {
        "-"@ + decimal(-n)
    } else {
        decimal(n)
    }
}

/// Append a number in decimal, with its sign where it is negative.
pub fn push_signed(s: &mut String, n: i64)
    ensures
        final(s)@ == old(s)@ + signed_decimal(n as int),
{
    let ghost before = s@;
    if n < 0 {
        s.append("-");
        let below: u64 = (-(n + 1)) as u64;
        push_decimal(s, below + 1);
    } else {
        push_decimal(s, n as u64);
    }
    assert(s@ =~= before + signed_decimal(n as int));
}

/// Whether a character is white space, as Unicode has it.
pub open spec fn white(c: char) -> bool {
    ||| 0x9 <= c as int <= 0xd
    ||| c as int == 0x20
    ||| c as int == 0x85
    ||| c as int == 0xa0
    ||| c as int == 0x1680
    ||| 0x2000 <= c as int <= 0x200a
    ||| c as int == 0x2028
    ||| c as int == 0x2029
    ||| c as int == 0x202f
    ||| c as int == 0x205f
    ||| c as int == 0x3000
}

/// Whether a character is white space, as Unicode has it.
pub fn is_white(c: char) -> (b: bool)
    ensures
        b == white(c),
{
    let n: u32 = c as u32;
    (0x9 <= n && n <= 0xd) || n == 0x20 || n == 0x85 || n == 0xa0 || n == 0x1680 || (0x2000 <= n
        && n <= 0x200a) || n == 0x2028 || n == 0x2029 || n == 0x202f || n == 0x205f || n == 0x3000
}

/// Text without the white space before it.
pub open spec fn without_lead(s: Seq<char>) -> Seq<char>
    decreases s.len(),
{
    if s.len() > 0 && white(s[0]) {
        without_lead(s.drop_first())
    } else {
        s
    }
}

/// Text without the white space behind it.
pub open spec fn without_tail(s: Seq<char>) -> Seq<char>
    decreases s.len(),
{
    if s.len() > 0 && white(s.last()) {
        without_tail(s.drop_last())
    } else {
        s
    }
}

/// Text without the white space around it.
pub open spec fn trimmed(s: Seq<char>) -> Seq<char> {
    without_tail(without_lead(s))
}

/// Text without the white space around it.
pub fn trim<'a>(s: &'a str) -> (t: &'a str)
    ensures
        t@ == trimmed(s@),
{
    let n: usize = s.unicode_len();
    let mut start: usize = 0;
    assert(s@.subrange(0, n as int) =~= s@);
    while start < n && is_white(s.get_char(start))
        invariant
            start <= n,
            n == s@.len(),
            without_lead(s@) == without_lead(s@.subrange(start as int, n as int)),
        decreases n - start,
    {
        assert(s@.subrange(start as int, n as int).drop_first() =~= s@.subrange(
            start + 1,
            n as int,
        ));
        start = start + 1;
    }
    let ghost rest = s@.subrange(start as int, n as int);
    assert(without_lead(s@) == rest);
    let mut end: usize = n;
    while end > start && is_white(s.get_char(end - 1))
        invariant
            start <= end <= n,
            n == s@.len(),
            rest == s@.subrange(start as int, n as int),
            without_tail(rest) == without_tail(s@.subrange(start as int, end as int)),
        decreases end,
    {
        assert(s@.subrange(start as int, end as int).drop_last() =~= s@.subrange(
            start as int,
            end - 1,
        ));
        end = end - 1;
    }
    s.substring_char(start, end)
}

/// Law: what is trimmed stays as it is when it is trimmed again.
pub proof fn lemma_trimmed_stays(s: Seq<char>)
    ensures
        trimmed(trimmed(s)) == trimmed(s),
{
    let lead = without_lead(s);
    let t = trimmed(s);
    lemma_lead_is_gone(s);
    lemma_tail_is_gone(lead);
    assert(t.len() > 0 ==> t[0] == lead[0]);
    assert(without_lead(t) == t);
}

/// What begins with no white space any more.
proof fn lemma_lead_is_gone(s: Seq<char>)
    ensures
        without_lead(s).len() > 0 ==> !white(without_lead(s)[0]),
    decreases s.len(),
{
    if s.len() > 0 && white(s[0]) {
        lemma_lead_is_gone(s.drop_first());
    }
}

/// What ends with no white space any more begins as before.
proof fn lemma_tail_is_gone(s: Seq<char>)
    ensures
        without_tail(s).len() > 0 ==> !white(without_tail(s).last()),
        without_tail(s).len() <= s.len(),
        without_tail(s) == s.take(without_tail(s).len() as int),
        without_tail(without_tail(s)) == without_tail(s),
    decreases s.len(),
{
    if s.len() > 0 && white(s.last()) {
        lemma_tail_is_gone(s.drop_last());
        let n = without_tail(s).len() as int;
        assert(s.drop_last().take(n) =~= s.take(n));
    } else {
        assert(s =~= s.take(s.len() as int));
    }
}

/// Whether a character is a decimal digit.
pub open spec fn is_digit(c: char) -> bool {
    '0' <= c <= '9'
}

/// The number that decimal digits write.
pub open spec fn number(s: Seq<char>) -> int
    decreases s.len(),
{
    if s.len() == 0 {
        0
    } else {
        10 * number(s.drop_last()) + (s.last() as int - '0' as int)
    }
}

/// The digits of a number: what follows a plus sign, where there is one.
pub open spec fn digits_of(s: Seq<char>) -> Seq<char> {
    if s.len() > 0 && s[0] == '+' {
        s.drop_first()
    } else {
        s
    }
}

/// The number that a text writes, if it writes one that is at most `most`: decimal digits, a plus
/// sign before them or not, and nothing else.
pub open spec fn parsed_number(s: Seq<char>, most: int) -> Option<int> {
    let digits = digits_of(s);
    if digits.len() > 0 && (forall|i: int| 0 <= i < digits.len() ==> is_digit(#[trigger] digits[i]))
        && number(digits) <= most {
        Some(number(digits))
    } else {
        None
    }
}

/// More digits do not make a number smaller.
pub proof fn lemma_number_grows(s: Seq<char>, i: int)
    requires
        0 <= i <= s.len(),
        forall|k: int| 0 <= k < s.len() ==> is_digit(#[trigger] s[k]),
    ensures
        0 <= number(s.take(i)) <= number(s),
    decreases s.len(),
{
    if i == s.len() {
        assert(s.take(i) =~= s);
        if s.len() > 0 {
            lemma_number_grows(s.drop_last(), s.len() - 1);
            assert(s.drop_last().take(s.len() - 1) =~= s.drop_last());
        }
    } else {
        lemma_number_grows(s.drop_last(), i);
        assert(s.drop_last().take(i) =~= s.take(i));
    }
}

/// The number that a text writes, if it writes one that is at most `most`.
pub fn parse_number(s: &str, most: u64) -> (r: Option<u64>)
    ensures
        r is Some <==> parsed_number(s@, most as int) is Some,
        r matches Some(v) ==> parsed_number(s@, most as int) == Some(v as int),
{
    let n: usize = s.unicode_len();
    let start: usize = if n > 0 && s.get_char(0) == '+' {
        1
    } else {
        0
    };
    let ghost digits = digits_of(s@);
    assert(digits.len() == n - start);
    assert(forall|k: int| 0 <= k < digits.len() ==> digits[k] == s@[k + start]);
    if start == n {
        return None;
    }
    let mut v: u64 = 0;
    let mut i: usize = start;
    assert(digits.take(0).len() == 0);
    while i < n
        invariant
            n == s@.len(),
            start <= i <= n,
            digits.len() == n - start,
            forall|k: int| 0 <= k < digits.len() ==> digits[k] == s@[k + start],
            digits == digits_of(s@),
            forall|k: int| 0 <= k < i - start ==> is_digit(#[trigger] digits[k]),
            v == number(digits.take(i - start)),
            v <= most,
        decreases n - i,
    {
        let c: char = s.get_char(i);
        assert(c == digits[i - start]);
        if c < '0' || c > '9' {
            assert(!is_digit(digits[i - start]));
            return None;
        }
        let d: u64 = (c as u32 - 0x30) as u64;
        let ghost longer = digits.take(i - start + 1);
        assert(longer.drop_last() =~= digits.take(i - start));
        assert(longer.last() == c);
        assert(number(longer) == 10 * v + d);
        if d > most || v > (most - d) / 10 {
            proof {
                if forall|k: int| 0 <= k < digits.len() ==> is_digit(#[trigger] digits[k]) {
                    lemma_number_grows(digits, i - start + 1);
                }
            }
            return None;
        }
        v = 10 * v + d;
        i = i + 1;
    }
    assert(digits.take(n - start) =~= digits);
    Some(v)
}

} // verus!
