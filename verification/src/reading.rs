//! What is written reads back: numbers, and the times that are shown of a clip.

use vstd::prelude::*;

use crate::check::micros::{
    digits_end, exponent, has_point, mantissa, micros_of, millis3, padded, pieces, plain_micros,
    pointed, run_end, seconds6, size, tens, whole_end, LIMIT,
};
use crate::text::{
    decimal, decimal2, digits_of, hex_digit, hex_digits, hex_len, hex_text, is_digit, number,
    parsed_number, signed_decimal, trimmed, white, without_lead, without_tail,
};

verus! {

/// Whether all of some characters are decimal digits.
pub open spec fn digits_only(s: Seq<char>) -> bool {
    forall|i: int| 0 <= i < s.len() ==> '0' <= #[trigger] s[i] <= '9'
}

/// Law: a number in decimal reads back as it was: it is made of digits, at least one, without leading
/// zeros.
pub proof fn lemma_decimal_reads_back(n: int)
    requires
        0 <= n,
    ensures
        decimal(n).len() > 0,
        digits_only(decimal(n)),
        number(decimal(n)) == n,
        n > 0 ==> decimal(n)[0] != '0',
        n < 10 ==> decimal(n).len() == 1,
    decreases n,
{
    if n >= 10 {
        lemma_decimal_reads_back(n / 10);
        let before = decimal(n / 10);
        let all = decimal(n);
        assert(all.drop_last() =~= before);
        assert(all.last() as int == 0x30 + n % 10);
        assert(digits_only(all)) by {
            assert forall|i: int| 0 <= i < all.len() implies '0' <= #[trigger] all[i] <= '9' by {
                if i < before.len() {
                    assert(all[i] == before[i]);
                }
            }
        }
        assert(all[0] == before[0]);
    } else {
        let all = decimal(n);
        assert(all.last() as int == 0x30 + n);
        assert(all.drop_last() =~= Seq::empty());
        assert(number(all.drop_last()) == 0);
    }
}

/// Law: a text that writes a number in decimal is taken for that number.
pub proof fn lemma_decimal_is_parsed(n: int, most: int)
    requires
        0 <= n,
    ensures
        parsed_number(decimal(n), most) == if n <= most {
            Some(n)
        } else {
            None
        },
{
    lemma_decimal_reads_back(n);
    let s = decimal(n);
    assert('0' <= s[0] <= '9');
    assert(digits_of(s) == s);
    assert forall|i: int| 0 <= i < s.len() implies is_digit(#[trigger] s[i]) by {
        assert('0' <= s[i] <= '9');
    }
}

/// Law: a number below a hundred in two digits has two, and reads back as it was.
pub proof fn lemma_decimal2_reads_back(n: int)
    requires
        0 <= n < 100,
    ensures
        decimal2(n).len() == 2,
        digits_only(decimal2(n)),
        number(decimal2(n)) == n,
{
    lemma_decimal_reads_back(n);
    reveal_with_fuel(number, 3);
    reveal_with_fuel(decimal, 3);
    let s = decimal2(n);
    if n < 10 {
        assert(s.drop_last().last() == '0');
        assert(s.last() as int == 0x30 + n);
    }
}

/// Law: a number with a sign reads back as it was.
pub proof fn lemma_signed_reads_back(n: int)
    ensures
        n >= 0 ==> digits_only(signed_decimal(n)) && number(signed_decimal(n)) == n,
        n < 0 ==> signed_decimal(n).len() > 1 && signed_decimal(n)[0] == '-' && digits_only(
            signed_decimal(n).skip(1),
        ) && number(signed_decimal(n).skip(1)) == -n,
{
    if n >= 0 {
        lemma_decimal_reads_back(n);
    } else {
        lemma_decimal_reads_back(-n);
        reveal_strlit("-");
        assert(signed_decimal(n).skip(1) =~= decimal(-n));
    }
}

/// The value of a hexadecimal digit.
pub open spec fn hex_digit_value(c: char) -> int {
    if '0' <= c <= '9' {
        c as int - '0' as int
    } else {
        c as int - 'a' as int + 10
    }
}

/// The number that hexadecimal digits write.
pub open spec fn hex_value(s: Seq<char>) -> int
    decreases s.len(),
{
    if s.len() == 0 {
        0
    } else {
        16 * hex_value(s.drop_last()) + hex_digit_value(s.last())
    }
}

/// Sixteen to a power.
pub open spec fn sixteens(n: int) -> int
    decreases n,
{
    if n <= 0 {
        1
    } else {
        16 * sixteens(n - 1)
    }
}

/// The last digits read back.
proof fn lemma_hex_digits(v: int, n: int)
    requires
        0 <= v < sixteens(n),
        0 <= n,
    ensures
        hex_digits(v, n).len() == n,
        hex_value(hex_digits(v, n)) == v,
    decreases n,
{
    if n > 0 {
        lemma_hex_digits(v / 16, n - 1);
        let all = hex_digits(v, n);
        assert(all.drop_last() =~= hex_digits(v / 16, n - 1));
        assert(all.last() == hex_digit(v % 16));
        assert(hex_digit_value(hex_digit(v % 16)) == v % 16);
    }
}

/// As many digits as a number has are enough for it.
proof fn lemma_hex_len(v: int, more: int)
    requires
        0 <= v,
        hex_len(v) <= more,
    ensures
        1 <= hex_len(v),
        v < sixteens(more),
    decreases v,
{
    if v >= 16 {
        lemma_hex_len(v / 16, more - 1);
    } else {
        lemma_sixteens(more);
    }
}

/// Sixteen to a power above zero is at least sixteen.
proof fn lemma_sixteens(n: int)
    requires
        1 <= n,
    ensures
        16 <= sixteens(n),
    decreases n,
{
    reveal_with_fuel(sixteens, 2);
    if n > 1 {
        lemma_sixteens(n - 1);
    }
}

/// Law: a number in hexadecimal stands behind `0x`, has at least the digits that were asked for, and
/// reads back as it was.
pub proof fn lemma_hex_reads_back(v: int, least: int)
    requires
        0 <= v,
        0 <= least,
    ensures
        hex_text(v, least).len() >= 2 + least,
        hex_text(v, least)[0] == '0',
        hex_text(v, least)[1] == 'x',
        hex_value(hex_text(v, least).skip(2)) == v,
{
    let n = if hex_len(v) < least {
        least
    } else {
        hex_len(v)
    };
    lemma_hex_len(v, n);
    lemma_hex_digits(v, n);
    reveal_strlit("0x");
    assert(hex_text(v, least).skip(2) =~= hex_digits(v, n));
}

/// Whether all of some characters are white space.
pub open spec fn all_white(s: Seq<char>) -> bool {
    forall|i: int| 0 <= i < s.len() ==> white(#[trigger] s[i])
}

/// White space before a text is cut.
proof fn lemma_lead_is_cut(lead: Seq<char>, s: Seq<char>)
    requires
        all_white(lead),
        s.len() > 0 ==> !white(s[0]),
    ensures
        without_lead(lead + s) == s,
    decreases lead.len(),
{
    if lead.len() > 0 {
        let rest = lead.drop_first();
        assert(white(lead[0]));
        assert forall|i: int| 0 <= i < rest.len() implies white(#[trigger] rest[i]) by {
            assert(rest[i] == lead[i + 1]);
        }
        lemma_lead_is_cut(rest, s);
        assert((lead + s).drop_first() =~= rest + s);
    } else {
        assert(lead + s =~= s);
    }
}

/// White space behind a text is cut.
proof fn lemma_tail_is_cut(s: Seq<char>, tail: Seq<char>)
    requires
        all_white(tail),
        s.len() > 0 ==> !white(s.last()),
    ensures
        without_tail(s + tail) == s,
    decreases tail.len(),
{
    if tail.len() > 0 {
        let rest = tail.drop_last();
        assert(white(tail[tail.len() - 1]));
        assert forall|i: int| 0 <= i < rest.len() implies white(#[trigger] rest[i]) by {
            assert(rest[i] == tail[i]);
        }
        lemma_tail_is_cut(s, rest);
        assert((s + tail).drop_last() =~= s + rest);
    } else {
        assert(s + tail =~= s);
    }
}

/// Law: trimming takes the white space around a text, all of it and nothing else.
pub proof fn lemma_trimming_takes_the_white(lead: Seq<char>, s: Seq<char>, tail: Seq<char>)
    requires
        all_white(lead),
        all_white(tail),
        s.len() > 0,
        !white(s[0]),
        !white(s.last()),
    ensures
        trimmed(lead + s + tail) == s,
{
    assert(lead + s + tail =~= lead + (s + tail));
    assert((s + tail)[0] == s[0]);
    lemma_lead_is_cut(lead, s + tail);
    lemma_tail_is_cut(s, tail);
}

/// Law: the spaces, tabs and line ends that lists are written with are white, and no letter, digit or
/// sign of a list is.
pub proof fn lemma_what_is_white(c: char)
    ensures
        c == ' ' || c == '\t' || c == '\n' || c == '\r' ==> white(c),
        '!' <= c <= '~' ==> !white(c),
{
}

/// Law: nothing but white space trims to nothing.
pub proof fn lemma_only_white_trims_to_nothing(s: Seq<char>)
    requires
        all_white(s),
    ensures
        trimmed(s).len() == 0,
{
    let none: Seq<char> = Seq::empty();
    lemma_lead_is_cut(s, none);
    assert(s + none =~= s);
}

/// A number with so many digits has so many, and reads back where they are enough.
proof fn lemma_padded(n: int, digits: nat)
    requires
        0 <= n < tens(digits),
    ensures
        padded(n, digits).len() == digits,
        digits_only(padded(n, digits)),
        number(padded(n, digits)) == n,
    decreases digits,
{
    if digits > 0 {
        lemma_padded(n / 10, (digits - 1) as nat);
        let before = padded(n / 10, (digits - 1) as nat);
        let all = padded(n, digits);
        assert(all.drop_last() =~= before);
        assert(all.last() as int == 0x30 + n % 10);
        assert forall|i: int| 0 <= i < all.len() implies '0' <= #[trigger] all[i] <= '9' by {
            if i < before.len() {
                assert(all[i] == before[i]);
            }
        }
    }
}

/// Digits one after the other write one number.
proof fn lemma_number_concat(a: Seq<char>, b: Seq<char>)
    ensures
        number(a + b) == number(a) * tens(b.len()) + number(b),
    decreases b.len(),
{
    if b.len() > 0 {
        let init = b.drop_last();
        lemma_number_concat(a, init);
        assert((a + b).drop_last() =~= a + init);
        assert(tens(b.len()) == 10 * tens(init.len()));
        let (x, y, z) = (number(a), tens(init.len()), number(init));
        assert(10 * (x * y + z) == x * (10 * y) + 10 * z) by (nonlinear_arith);
    } else {
        assert(a + b =~= a);
        assert(number(a) * 1 == number(a));
    }
}

/// Digits end where another character stands.
proof fn lemma_run_end(s: Seq<char>, i: int, j: int)
    requires
        0 <= i <= j <= s.len(),
        forall|k: int| i <= k < j ==> is_digit(#[trigger] s[k]),
        j < s.len() ==> !is_digit(s[j]),
    ensures
        run_end(s, i) == j,
    decreases j - i,
{
    if i < j {
        assert(is_digit(s[i]));
        lemma_run_end(s, i + 1, j);
    }
}

/// Seconds with six decimals are read as microseconds.
proof fn lemma_plain_seconds(t: int)
    requires
        0 <= t <= LIMIT,
    ensures
        plain_micros(decimal(t / 1_000_000) + "."@ + padded(t % 1_000_000, 6)) == Some(t),
{
    let a = decimal(t / 1_000_000);
    let b = padded(t % 1_000_000, 6);
    reveal_strlit(".");
    let dot = "."@;
    let s = a + dot + b;
    reveal_with_fuel(tens, 8);
    assert(tens(6) == 1_000_000);
    lemma_decimal_reads_back(t / 1_000_000);
    lemma_padded(t % 1_000_000, 6);
    let n = a.len() as int;
    assert forall|k: int| 0 <= k < n implies is_digit(#[trigger] s[k]) by {
        assert('0' <= a[k] <= '9');
    }
    assert(s[n] == '.');
    lemma_run_end(s, 0, n);
    assert forall|k: int| n + 1 <= k < s.len() implies is_digit(#[trigger] s[k]) by {
        assert('0' <= b[k - n - 1] <= '9');
    }
    lemma_run_end(s, n + 1, s.len() as int);
    assert(whole_end(s) == n);
    assert(has_point(s));
    assert(digits_end(s) == s.len());
    assert(s.take(n) =~= a);
    assert(s.subrange(n + 1, s.len() as int) =~= b);
    let m = a + b;
    assert(mantissa(s) == m);
    assert(s.skip(s.len() as int).len() == 0);
    assert(exponent(s.skip(s.len() as int)) == Some(0int));
    lemma_number_concat(a, b);
    assert(number(m) == (t / 1_000_000) * 1_000_000 + t % 1_000_000);
    assert(tens(0) == 1);
    assert(pointed(m, n + 6) == number(m) * 1);
}

/// Law: a time that is shown in seconds reads back as it was, to the microsecond, before zero and
/// after it.
pub proof fn lemma_seconds_read_back(t: int)
    requires
        -LIMIT <= t <= LIMIT,
    ensures
        micros_of(seconds6(t)) == Some(t),
{
    let n = size(t);
    let plain = decimal(n / 1_000_000) + "."@ + padded(n % 1_000_000, 6);
    lemma_plain_seconds(n);
    lemma_decimal_reads_back(n / 1_000_000);
    reveal_with_fuel(tens, 8);
    lemma_padded(n % 1_000_000, 6);
    reveal_strlit("-");
    reveal_strlit("");
    reveal_strlit(".");
    let sign = if t < 0 {
        "-"@
    } else {
        ""@
    };
    let s = seconds6(t);
    assert(s =~= sign + plain);
    let a = decimal(n / 1_000_000);
    let b = padded(n % 1_000_000, 6);
    assert('0' <= a[0] <= '9');
    assert('0' <= b[5] <= '9');
    assert(plain[0] == a[0]);
    assert(plain.last() == b[5]);
    assert(s.last() == plain.last());
    assert(s[0] == if t < 0 { '-' } else { a[0] });
    let none: Seq<char> = Seq::empty();
    lemma_trimming_takes_the_white(none, s, none);
    assert(none + s + none =~= s);
    assert(trimmed(s) == s);
    if t < 0 {
        assert(s.drop_first() =~= plain);
    } else {
        assert(s =~= plain);
    }
}

/// Law: a time that is shown in milliseconds has three decimals, and reads back as it was, to the
/// microsecond.
pub proof fn lemma_millis_read_back(t: int)
    requires
        0 <= t,
    ensures
        millis3(t).len() >= 5,
        millis3(t)[millis3(t).len() - 4] == '.',
        digits_only(millis3(t).take(millis3(t).len() - 4)),
        number(millis3(t).take(millis3(t).len() - 4)) * 1_000 + number(
            millis3(t).skip(millis3(t).len() - 3),
        ) == t,
        millis3(-t) == if t == 0 {
            millis3(t)
        } else {
            "-"@ + millis3(t)
        },
{
    let a = decimal(t / 1_000);
    let b = padded(t % 1_000, 3);
    reveal_with_fuel(tens, 5);
    lemma_decimal_reads_back(t / 1_000);
    lemma_padded(t % 1_000, 3);
    reveal_strlit("");
    reveal_strlit("-");
    reveal_strlit(".");
    let s = millis3(t);
    assert(s =~= a + "."@ + b);
    assert(s.take(s.len() - 4) =~= a);
    assert(s.skip(s.len() - 3) =~= b);
    if t > 0 {
        assert(millis3(-t) =~= "-"@ + millis3(t));
    }
}

/// Whether a character does not stand in a text.
pub open spec fn is_free_of(s: Seq<char>, c: char) -> bool {
    forall|i: int| 0 <= i < s.len() ==> #[trigger] s[i] != c
}

/// Texts one after the other, with a character between each two.
pub open spec fn joined(parts: Seq<Seq<char>>, sep: char) -> Seq<char>
    decreases parts.len(),
{
    if parts.len() == 0 {
        Seq::empty()
    } else if parts.len() == 1 {
        parts[0]
    } else {
        joined(parts.drop_last(), sep).push(sep) + parts.last()
    }
}

/// What follows a text without separators lengthens its last piece.
proof fn lemma_last_piece_grows(s: Seq<char>, more: Seq<char>, sep: char)
    requires
        is_free_of(more, sep),
    ensures
        pieces(s, sep).len() > 0,
        pieces(s + more, sep) == pieces(s, sep).drop_last().push(pieces(s, sep).last() + more),
    decreases more.len(),
{
    if more.len() == 0 {
        assert(s + more =~= s);
        lemma_some_piece(s, sep);
        let all = pieces(s, sep);
        assert(all.last() + more =~= all.last());
        assert(all =~= all.drop_last().push(all.last()));
    } else {
        let init = more.drop_last();
        assert forall|i: int| 0 <= i < init.len() implies #[trigger] init[i] != sep by {
            assert(init[i] == more[i]);
        }
        lemma_last_piece_grows(s, init, sep);
        assert((s + more).drop_last() =~= s + init);
        assert((s + more).last() == more[more.len() - 1]);
        let before = pieces(s + init, sep);
        assert(before.drop_last() =~= pieces(s, sep).drop_last());
        assert(before.last().push(more.last()) =~= pieces(s, sep).last() + more);
    }
}

/// Every text has a piece.
proof fn lemma_some_piece(s: Seq<char>, sep: char)
    ensures
        pieces(s, sep).len() > 0,
    decreases s.len(),
{
    if s.len() > 0 {
        lemma_some_piece(s.drop_last(), sep);
    }
}

/// Law: texts that are put together with a separator are the pieces again.
pub proof fn lemma_joined_come_apart(parts: Seq<Seq<char>>, sep: char)
    requires
        parts.len() > 0,
        forall|i: int| 0 <= i < parts.len() ==> is_free_of(#[trigger] parts[i], sep),
    ensures
        pieces(joined(parts, sep), sep) == parts,
    decreases parts.len(),
{
    let none: Seq<char> = Seq::empty();
    assert(is_free_of(parts[parts.len() - 1], sep));
    if parts.len() == 1 {
        lemma_last_piece_grows(none, parts[0], sep);
        assert(none + parts[0] =~= parts[0]);
        assert(pieces(parts[0], sep) =~= parts);
    } else {
        let init = parts.drop_last();
        assert forall|i: int| 0 <= i < init.len() implies is_free_of(#[trigger] init[i], sep) by {
            assert(init[i] == parts[i]);
        }
        lemma_joined_come_apart(init, sep);
        let front = joined(init, sep).push(sep);
        assert(front.drop_last() =~= joined(init, sep));
        lemma_last_piece_grows(front, parts.last(), sep);
        assert(none + parts.last() =~= parts.last());
        assert(pieces(front, sep) == init.push(none));
        assert(init.push(none).drop_last() =~= init);
        assert(pieces(joined(parts, sep), sep) =~= parts);
    }
}

/// Law: where a character is not white, trimming leaves something of a text.
pub proof fn lemma_something_is_left(s: Seq<char>, i: int)
    requires
        0 <= i < s.len(),
        !white(s[i]),
    ensures
        trimmed(s).len() > 0,
    decreases s.len(),
{
    if white(s[0]) {
        let rest = s.drop_first();
        assert(rest[i - 1] == s[i]);
        lemma_something_is_left(rest, i - 1);
    } else {
        lemma_first_is_left(s);
    }
}

/// A first character that is not white is left.
proof fn lemma_first_is_left(s: Seq<char>)
    requires
        s.len() > 0,
        !white(s[0]),
    ensures
        without_tail(s).len() > 0,
    decreases s.len(),
{
    if s.len() > 1 {
        assert(s.drop_last()[0] == s[0]);
        lemma_first_is_left(s.drop_last());
    }
}

/// Law: a time that is shown in seconds is made of digits, a point and perhaps a sign.
pub proof fn lemma_seconds_are_plain(t: int, c: char)
    requires
        !('0' <= c <= '9'),
        c != '.',
        c != '-',
    ensures
        is_free_of(seconds6(t), c),
        seconds6(t).len() > 0,
{
    let n = size(t);
    reveal_strlit("-");
    reveal_strlit("");
    reveal_strlit(".");
    reveal_with_fuel(tens, 8);
    lemma_decimal_reads_back(n / 1_000_000);
    lemma_padded(n % 1_000_000, 6);
    let sign = if t < 0 {
        "-"@
    } else {
        ""@
    };
    let (a, b) = (decimal(n / 1_000_000), padded(n % 1_000_000, 6));
    let s = sign + a + "."@ + b;
    assert forall|i: int| 0 <= i < s.len() implies #[trigger] s[i] != c by {
        if i < sign.len() {
            assert(s[i] == sign[i]);
        } else if i < sign.len() + a.len() {
            assert(s[i] == a[i - sign.len()]);
        } else if i > sign.len() + a.len() {
            assert(s[i] == b[i - sign.len() - a.len() - 1]);
        }
    }
}

} // verus!
