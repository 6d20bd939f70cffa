//! Times in microseconds, as they are printed and read: decimal counts of seconds.

use vstd::prelude::*;

use crate::text::{decimal, is_digit, lemma_number_grows, number, push_decimal, trim, trimmed};

verus! {

/// The pieces of a text between separators.
pub open spec fn pieces(s: Seq<char>, sep: char) -> Seq<Seq<char>>
    decreases s.len(),
{
    if s.len() == 0 {
        seq![Seq::empty()]
    } else {
        let before = pieces(s.drop_last(), sep);
        if s.last() == sep {
            before.push(Seq::empty())
        } else {
            before.drop_last().push(before.last().push(s.last()))
        }
    }
}

/// What texts say.
pub open spec fn views(v: Seq<&str>) -> Seq<Seq<char>> {
    v.map_values(|s: &str| s@)
}

/// The pieces of a text between separators.
pub fn split<'a>(s: &'a str, sep: char) -> (v: Vec<&'a str>)
    ensures
        views(v@) == pieces(s@, sep),
        v@.len() >= 1,
{
    let mut v: Vec<&'a str> = Vec::new();
    let n: usize = s.unicode_len();
    let mut start: usize = 0;
    let mut i: usize = 0;
    assert(s@.take(0) =~= Seq::empty());
    assert(views(v@).push(s@.subrange(0, 0)) =~= pieces(s@.take(0), sep));
    while i < n
        invariant
            start <= i <= n,
            n == s@.len(),
            views(v@).push(s@.subrange(start as int, i as int)) == pieces(s@.take(i as int), sep),
        decreases n - i,
    {
        let ghost before = v@;
        let ghost piece = s@.subrange(start as int, i as int);
        assert(s@.take(i + 1).drop_last() =~= s@.take(i as int));
        assert(s@.take(i + 1).last() == s@[i as int]);
        if s.get_char(i) == sep {
            v.push(s.substring_char(start, i));
            start = i + 1;
            assert(views(v@) =~= views(before).push(piece));
            assert(s@.subrange(start as int, i + 1) =~= Seq::empty());
        } else {
            assert(s@.subrange(start as int, i + 1) =~= piece.push(s@[i as int]));
            assert(views(before).push(piece).drop_last() =~= views(before));
        }
        i = i + 1;
    }
    let ghost before = v@;
    v.push(s.substring_char(start, n));
    assert(s@.take(n as int) =~= s@);
    assert(views(v@) =~= views(before).push(s@.subrange(start as int, n as int)));
    v
}

/// Whether every character of a text is a digit.
pub open spec fn all_digits(s: Seq<char>) -> bool {
    forall|i: int| 0 <= i < s.len() ==> is_digit(#[trigger] s[i])
}

/// A time that is taken, in microseconds, either way from zero, at most.
pub const LIMIT: i64 = 1_000_000_000_001_000_000;

/// Ten to a small power.
pub open spec fn tens(n: nat) -> int
    decreases n,
{
    if n == 0 {
        1
    } else {
        10 * tens((n - 1) as nat)
    }
}

/// Where the digits that begin at a place end.
pub open spec fn run_end(s: Seq<char>, i: int) -> int
    decreases s.len() - i,
{
    if 0 <= i < s.len() && is_digit(s[i]) {
        run_end(s, i + 1)
    } else {
        i
    }
}

/// Where the digits before the point end.
pub open spec fn whole_end(s: Seq<char>) -> int {
    run_end(s, 0)
}

/// Whether there is a point.
pub open spec fn has_point(s: Seq<char>) -> bool {
    whole_end(s) < s.len() && s[whole_end(s)] == '.'
}

/// Where the digits before and behind the point end.
pub open spec fn digits_end(s: Seq<char>) -> int {
    if has_point(s) {
        run_end(s, whole_end(s) + 1)
    } else {
        whole_end(s)
    }
}

/// The digits before and behind the point.
pub open spec fn mantissa(s: Seq<char>) -> Seq<char> {
    if has_point(s) {
        s.take(whole_end(s)) + s.subrange(whole_end(s) + 1, digits_end(s))
    } else {
        s.take(whole_end(s))
    }
}

/// The power of ten that stands behind the digits: none, or an `e` with a number, with a sign or
/// without.
pub open spec fn exponent(t: Seq<char>) -> Option<int> {
    if t.len() == 0 {
        Some(0)
    } else if t[0] == 'e' || t[0] == 'E' {
        let rest = t.drop_first();
        let signed = rest.len() > 0 && (rest[0] == '-' || rest[0] == '+');
        let n = if signed {
            rest.drop_first()
        } else {
            rest
        };
        if 0 < n.len() && all_digits(n) {
            Some(
                if signed && rest[0] == '-' {
                    -number(n)
                } else {
                    number(n)
                },
            )
        } else {
            None
        }
    } else {
        None
    }
}

/// Digits with the point behind the first `k` of them, to the nearest whole number, halves up.
pub open spec fn pointed(digits: Seq<char>, k: int) -> int {
    if k < 0 {
        0
    } else if k >= digits.len() {
        number(digits) * tens((k - digits.len()) as nat)
    } else if digits[k] >= '5' {
        number(digits.take(k)) + 1
    } else {
        number(digits.take(k))
    }
}

/// The microseconds that a count of seconds without a sign writes, to the nearest: digits with a
/// point among them or none, and a power of ten behind them or none. Times out of reach are not
/// taken.
pub open spec fn plain_micros(s: Seq<char>) -> Option<int> {
    match exponent(s.skip(digits_end(s))) {
        Some(e) => {
            let t = pointed(mantissa(s), whole_end(s) + e + 6);
            if mantissa(s).len() > 0 && t <= LIMIT {
                Some(t)
            } else {
                None
            }
        },
        None => None,
    }
}

/// The microseconds that a text writes, with the white space around it left out: a count of
/// seconds, with a sign before it or not.
pub open spec fn micros_of(s: Seq<char>) -> Option<int> {
    let t = trimmed(s);
    if t.len() > 0 && t[0] == '-' {
        match plain_micros(t.drop_first()) {
            Some(n) => Some(-n),
            None => None,
        }
    } else if t.len() > 0 && t[0] == '+' {
        plain_micros(t.drop_first())
    } else {
        plain_micros(t)
    }
}

/// Digits end where there is none, and all before are.
proof fn lemma_run_end(s: Seq<char>, i: int)
    requires
        0 <= i <= s.len(),
    ensures
        i <= run_end(s, i) <= s.len(),
        forall|k: int| i <= k < run_end(s, i) ==> is_digit(#[trigger] s[k]),
    decreases s.len() - i,
{
    if i < s.len() && is_digit(s[i]) {
        lemma_run_end(s, i + 1);
    }
}

/// Where the digits that begin at a place end.
fn find_run_end(s: &str, i: usize) -> (end: usize)
    requires
        i <= s@.len(),
    ensures
        end == run_end(s@, i as int),
        i <= end <= s@.len(),
{
    let n: usize = s.unicode_len();
    let mut end: usize = i;
    while end < n && s.get_char(end) >= '0' && s.get_char(end) <= '9'
        invariant
            i <= end <= n,
            n == s@.len(),
            run_end(s@, i as int) == run_end(s@, end as int),
        decreases n - end,
    {
        end = end + 1;
    }
    end
}

/// A power of ten that is out of reach, whatever digits it stands behind.
const FAR_POWER: i128 = 0x1_0000_0000_0000_0000_0000;

/// A power of ten, cut to one that is out of reach where it is farther.
spec fn cut_power(e: int) -> int {
    if e > FAR_POWER {
        FAR_POWER as int
    } else if e < -FAR_POWER {
        -(FAR_POWER as int)
    } else {
        e
    }
}

/// The number that digits write, cut to one that is out of reach.
fn power_number(s: &str) -> (r: Option<i128>)
    ensures
        r is Some <==> 0 < s@.len() && all_digits(s@),
        r matches Some(v) ==> v == cut_power(number(s@)) && 0 <= v <= FAR_POWER,
{
    let n: usize = s.unicode_len();
    if n == 0 {
        return None;
    }
    let mut v: i128 = 0;
    let mut i: usize = 0;
    assert(s@.take(0) =~= Seq::empty());
    while i < n
        invariant
            i <= n,
            n == s@.len(),
            0 <= number(s@.take(i as int)),
            v == cut_power(number(s@.take(i as int))),
            0 <= v <= FAR_POWER,
            forall|k: int| 0 <= k < i ==> is_digit(#[trigger] s@[k]),
        decreases n - i,
    {
        let c: char = s.get_char(i);
        let ghost longer = s@.take(i + 1);
        assert(longer.drop_last() =~= s@.take(i as int));
        assert(longer.last() == c);
        if c < '0' || c > '9' {
            assert(!is_digit(s@[i as int]));
            return None;
        }
        let next: i128 = 10 * v + (c as u32 - 0x30) as i128;
        v = if next > FAR_POWER {
            FAR_POWER
        } else {
            next
        };
        i = i + 1;
    }
    assert(s@.take(n as int) =~= s@);
    Some(v)
}

/// The power of ten that stands behind the digits, cut to one that is out of reach.
fn parse_exponent(t: &str) -> (r: Option<i128>)
    ensures
        r is Some <==> exponent(t@) is Some,
        r matches Some(e) ==> e == cut_power(exponent(t@).unwrap()) && -FAR_POWER <= e
            <= FAR_POWER,
{
    let n: usize = t.unicode_len();
    if n == 0 {
        return Some(0);
    }
    let c: char = t.get_char(0);
    if c != 'e' && c != 'E' {
        return None;
    }
    let rest: &str = t.substring_char(1, n);
    assert(rest@ =~= t@.drop_first());
    if n > 1 && (rest.get_char(0) == '-' || rest.get_char(0) == '+') {
        let digits: &str = rest.substring_char(1, n - 1);
        assert(digits@ =~= rest@.drop_first());
        match power_number(digits) {
            Some(v) => Some(
                if rest.get_char(0) == '-' {
                    -v
                } else {
                    v
                },
            ),
            None => None,
        }
    } else {
        power_number(rest)
    }
}

/// A power of ten that is cut gives the same time, or none as before.
proof fn lemma_cut_power(digits: Seq<char>, whole: int, e: int)
    requires
        all_digits(digits),
        digits.len() <= usize::MAX,
        0 <= whole <= digits.len(),
    ensures
        ({
            let far = pointed(digits, whole + e + 6);
            let cut = pointed(digits, whole + cut_power(e) + 6);
            &&& far <= LIMIT <==> cut <= LIMIT
            &&& far <= LIMIT ==> far == cut
        }),
{
    if e > FAR_POWER {
        let n = number(digits);
        let a = (whole + e + 6 - digits.len()) as nat;
        let b = (whole + FAR_POWER + 6 - digits.len()) as nat;
        lemma_number_grows(digits, 0);
        assert(digits.take(0) =~= Seq::empty());
        lemma_tens_grow(19, a);
        lemma_tens_grow(19, b);
        assert(tens(19) == 10_000_000_000_000_000_000) by {
            reveal_with_fuel(tens, 20);
        }
        if n == 0 {
            assert(n * tens(a) == 0 && n * tens(b) == 0) by (nonlinear_arith)
                requires
                    n == 0,
            ;
        } else {
            let (ta, tb) = (tens(a), tens(b));
            assert(n * ta >= ta && n * tb >= tb) by (nonlinear_arith)
                requires
                    n >= 1,
                    ta >= 1,
                    tb >= 1,
            ;
        }
    }
}

/// More digits write no less.
proof fn lemma_pointed_is_more(digits: Seq<char>, j: int, k: int)
    requires
        all_digits(digits),
        0 <= j <= digits.len(),
        j <= k,
    ensures
        number(digits.take(j)) <= pointed(digits, k),
{
    if k >= digits.len() {
        lemma_number_grows(digits, j);
        lemma_tens_is_more((k - digits.len()) as nat);
        let n = number(digits);
        let t = tens((k - digits.len()) as nat);
        assert(n * t >= n) by (nonlinear_arith)
            requires
                n >= 0,
                t >= 1,
        ;
    } else {
        let head = digits.take(k);
        assert forall|i: int| 0 <= i < head.len() implies is_digit(#[trigger] head[i]) by {
            assert(head[i] == digits[i]);
        }
        lemma_number_grows(head, j);
        assert(head.take(j) =~= digits.take(j));
    }
}

/// A power of ten is at least one.
proof fn lemma_tens_is_more(n: nat)
    ensures
        tens(n) >= 1,
    decreases n,
{
    if n > 0 {
        lemma_tens_is_more((n - 1) as nat);
    }
}

/// A number times a power of ten, where that is in reach.
fn times_tens(v: i64, n: u128) -> (r: Option<i64>)
    requires
        0 <= v <= LIMIT,
    ensures
        r is Some <==> v * tens(n as nat) <= LIMIT,
        r matches Some(t) ==> t == v * tens(n as nat) && 0 <= t <= LIMIT,
{
    if v == 0 {
        assert(v * tens(n as nat) == 0) by (nonlinear_arith)
            requires
                v == 0,
        ;
        return Some(0);
    }
    let mut t: i64 = v;
    let mut i: u128 = 0;
    assert(v * tens(0) == v) by (nonlinear_arith)
        requires
            tens(0) == 1,
    ;
    while i < n
        invariant
            i <= n,
            0 <= v,
            0 <= t <= LIMIT,
            t == v * tens(i as nat),
        decreases n - i,
    {
        let ghost p = tens(i as nat);
        assert(v * (10 * p) == 10 * (v * p)) by (nonlinear_arith);
        if t > LIMIT / 10 {
            proof {
                lemma_tens_grow((i + 1) as nat, n as nat);
                let a = tens((i + 1) as nat);
                let b = tens(n as nat);
                assert(v * b >= v * a) by (nonlinear_arith)
                    requires
                        v >= 0,
                        b >= a,
                ;
            }
            return None;
        }
        t = 10 * t;
        i = i + 1;
    }
    Some(t)
}

/// Higher powers of ten are greater.
proof fn lemma_tens_grow(a: nat, b: nat)
    requires
        a <= b,
    ensures
        tens(a) <= tens(b),
    decreases b,
{
    if a < b {
        lemma_tens_grow(a, (b - 1) as nat);
        lemma_tens_is_more((b - 1) as nat);
    }
}

/// The digits of a text with the point behind the first `k` of them, where that is in reach. `whole`
/// and `end` are where the digits before the point end, and all digits do.
fn pointed_value(s: &str, whole: usize, end: usize, k: i128) -> (r: Option<i64>)
    requires
        whole == whole_end(s@),
        end == digits_end(s@),
        whole <= end <= s@.len(),
        k <= 2 * FAR_POWER,
    ensures
        r is Some <==> pointed(mantissa(s@), k as int) <= LIMIT,
        r matches Some(v) ==> v == pointed(mantissa(s@), k as int) && 0 <= v <= LIMIT,
{
    let ghost digits = mantissa(s@);
    proof {
        lemma_run_end(s@, 0);
        if has_point(s@) {
            lemma_run_end(s@, whole_end(s@) + 1);
        }
        assert forall|i: int| 0 <= i < digits.len() implies is_digit(#[trigger] digits[i]) by {
            if i < whole {
                assert(digits[i] == s@[i]);
            } else {
                assert(digits[i] == s@[i + 1]);
            }
        }
    }
    if k < 0 {
        return Some(0);
    }
    let count: usize = if whole < end {
        end - 1
    } else {
        end
    };
    assert(count == digits.len());
    let mut v: i64 = 0;
    let mut j: usize = 0;
    assert(digits.take(0) =~= Seq::empty());
    while j < count && (j as i128) < k
        invariant
            j <= count,
            j <= k,
            digits == mantissa(s@),
            count == digits.len(),
            count == if whole < end {
                end - 1
            } else {
                end as int
            },
            whole == whole_end(s@),
            end == digits_end(s@),
            whole <= end <= s@.len(),
            all_digits(digits),
            0 <= v <= LIMIT,
            v == number(digits.take(j as int)),
        decreases count - j,
    {
        let c: char = if j < whole {
            s.get_char(j)
        } else {
            s.get_char(j + 1)
        };
        assert(c == digits[j as int]);
        let ghost longer = digits.take(j + 1);
        assert(longer.drop_last() =~= digits.take(j as int));
        assert(longer.last() == c);
        assert(is_digit(digits[j as int]));
        let d: i64 = (c as u32 - 0x30) as i64;
        proof {
            lemma_pointed_is_more(digits, j + 1, k as int);
        }
        if v > LIMIT / 10 {
            return None;
        }
        v = 10 * v + d;
        if v > LIMIT {
            return None;
        }
        j = j + 1;
    }
    if k >= count as i128 {
        assert(digits.take(count as int) =~= digits);
        let more: u128 = (k - count as i128) as u128;
        return times_tens(v, more);
    }
    let c: char = if j < whole {
        s.get_char(j)
    } else {
        s.get_char(j + 1)
    };
    assert(c == digits[j as int]);
    if c >= '5' {
        if v == LIMIT {
            return None;
        }
        v = v + 1;
    }
    Some(v)
}

/// The microseconds that a count of seconds without a sign writes.
fn parse_plain(s: &str) -> (r: Option<i64>)
    ensures
        r is Some <==> plain_micros(s@) is Some,
        r matches Some(v) ==> plain_micros(s@) == Some(v as int) && 0 <= v <= LIMIT,
{
    let n: usize = s.unicode_len();
    let whole: usize = find_run_end(s, 0);
    let point: bool = whole < n && s.get_char(whole) == '.';
    let end: usize = if point {
        find_run_end(s, whole + 1)
    } else {
        whole
    };
    let behind: &str = s.substring_char(end, n);
    assert(behind@ =~= s@.skip(end as int));
    let e: i128 = match parse_exponent(behind) {
        Some(e) => e,
        None => {
            return None;
        },
    };
    let count: usize = if point {
        end - 1
    } else {
        end
    };
    assert(count == mantissa(s@).len());
    if count == 0 {
        return None;
    }
    proof {
        let digits = mantissa(s@);
        lemma_run_end(s@, 0);
        if point {
            lemma_run_end(s@, whole + 1);
        }
        assert forall|i: int| 0 <= i < digits.len() implies is_digit(#[trigger] digits[i]) by {
            if i < whole {
                assert(digits[i] == s@[i]);
            } else {
                assert(digits[i] == s@[i + 1]);
            }
        }
        lemma_cut_power(digits, whole as int, exponent(s@.skip(end as int)).unwrap());
    }
    pointed_value(s, whole, end, whole as i128 + e + 6)
}

/// The microseconds that a text writes.
pub fn parse_micros(s: &str) -> (r: Option<i64>)
    ensures
        r is Some <==> micros_of(s@) is Some,
        r matches Some(v) ==> micros_of(s@) == Some(v as int) && -LIMIT <= v <= LIMIT,
{
    let t: &str = trim(s);
    let n: usize = t.unicode_len();
    if n > 0 && (t.get_char(0) == '-' || t.get_char(0) == '+') {
        let rest: &str = t.substring_char(1, n);
        assert(rest@ =~= t@.drop_first());
        match parse_plain(rest) {
            Some(v) => Some(
                if t.get_char(0) == '-' {
                    -v
                } else {
                    v
                },
            ),
            None => None,
        }
    } else {
        parse_plain(t)
    }
}

/// The times of lines: the first field of each, where it is a time.
pub open spec fn times_of(lines: Seq<Seq<char>>) -> Seq<int>
    decreases lines.len(),
{
    if lines.len() == 0 {
        Seq::empty()
    } else {
        let before = times_of(lines.drop_last());
        match micros_of(pieces(lines.last(), ',')[0]) {
            Some(t) => before.push(t),
            None => before,
        }
    }
}

/// Whole numbers.
pub open spec fn ints(v: Seq<i64>) -> Seq<int> {
    v.map_values(|t: i64| t as int)
}

/// The times that a listing holds: one a line, in its first field. Lines without one are left out.
pub fn parse_times(text: &str) -> (v: Vec<i64>)
    ensures
        ints(v@) == times_of(pieces(text@, '\n')),
        forall|i: int| 0 <= i < v@.len() ==> -LIMIT <= #[trigger] v@[i] <= LIMIT,
{
    let lines: Vec<&str> = split(text, '\n');
    let ghost all = views(lines@);
    let mut v: Vec<i64> = Vec::new();
    let n: usize = lines.len();
    let mut i: usize = 0;
    assert(all.take(0) =~= Seq::empty());
    assert(ints(v@) =~= times_of(all.take(0)));
    while i < n
        invariant
            i <= n,
            n == lines@.len(),
            all == views(lines@),
            ints(v@) == times_of(all.take(i as int)),
            forall|k: int| 0 <= k < v@.len() ==> -LIMIT <= #[trigger] v@[k] <= LIMIT,
        decreases n - i,
    {
        let ghost before = v@;
        assert(all.take(i + 1).drop_last() =~= all.take(i as int));
        assert(all.take(i + 1).last() == lines@[i as int]@);
        let fields: Vec<&str> = split(lines[i], ',');
        assert(views(fields@)[0] == fields@[0]@);
        match parse_micros(fields[0]) {
            Some(t) => {
                v.push(t);
            },
            None => {},
        }
        assert(ints(v@) =~= times_of(all.take(i + 1)));
        i = i + 1;
    }
    assert(all.take(n as int) =~= all);
    v
}

/// A number with so many digits, zeros before it where it is shorter.
pub open spec fn padded(n: int, digits: nat) -> Seq<char>
    decreases digits,
{
    if digits == 0 {
        Seq::empty()
    } else {
        padded(n / 10, (digits - 1) as nat).push((0x30 + n % 10) as char)
    }
}

/// Append a number with so many digits.
fn push_padded(s: &mut String, n: u64, digits: u32)
    requires
        digits <= 20,
    ensures
        final(s)@ == old(s)@ + padded(n as int, digits as nat),
    decreases digits,
{
    let ghost before = s@;
    if digits > 0 {
        push_padded(s, n / 10, digits - 1);
        let d: u8 = (n % 10) as u8;
        s.push((0x30 + d) as char);
    }
    assert(s@ =~= before + padded(n as int, digits as nat));
}

/// The size of a number.
pub open spec fn size(n: int) -> int {
    if n < 0 {
        -n
    } else {
        n
    }
}

/// Microseconds as seconds with six decimals.
pub open spec fn seconds6(t: int) -> Seq<char> {
    (if t < 0 {
        "-"@
    } else {
        ""@
    }) + decimal(size(t) / 1_000_000) + "."@ + padded(size(t) % 1_000_000, 6)
}

/// Microseconds as seconds with six decimals.
pub fn push_seconds6(s: &mut String, t: i64)
    requires
        t > i64::MIN,
    ensures
        final(s)@ == old(s)@ + seconds6(t as int),
{
    let ghost before = s@;
    let n: u64 = if t < 0 {
        (-t) as u64
    } else {
        t as u64
    };
    let mut word: String = String::from_str(
        if t < 0 {
            "-"
        } else {
            ""
        },
    );
    push_decimal(&mut word, n / 1_000_000);
    word.append(".");
    push_padded(&mut word, n % 1_000_000, 6);
    s.append(word.as_str());
}

/// Microseconds as milliseconds with three decimals.
pub open spec fn millis3(t: int) -> Seq<char> {
    (if t < 0 {
        "-"@
    } else {
        ""@
    }) + decimal(size(t) / 1000) + "."@ + padded(size(t) % 1000, 3)
}

/// Microseconds as milliseconds with three decimals.
pub fn push_millis3(s: &mut String, t: i64)
    requires
        t > i64::MIN,
    ensures
        final(s)@ == old(s)@ + millis3(t as int),
{
    let n: u64 = if t < 0 {
        (-t) as u64
    } else {
        t as u64
    };
    let mut word: String = String::from_str(
        if t < 0 {
            "-"
        } else {
            ""
        },
    );
    push_decimal(&mut word, n / 1000);
    word.append(".");
    push_padded(&mut word, n % 1000, 3);
    s.append(word.as_str());
}

/// The whole number nearest to a fraction, the even one where two are as near.
pub open spec fn nearest(p: int, q: int) -> int {
    let below = p / q;
    let over = 2 * (p % q);
    if over < q || (over == q && below % 2 == 0) {
        below
    } else {
        below + 1
    }
}

} // verus!
