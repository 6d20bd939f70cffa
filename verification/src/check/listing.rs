//! What is read out of the listings that a check goes by, and what a check says of it.

use vstd::prelude::*;

use crate::check::micros::{nearest, pieces, seconds6, times_of, LIMIT};
use crate::check::report::decode_fault;
use crate::check::streams::{
    found_at, listed_from, once, place_of, rate_of, with_line, with_lines, FrameRate, RawView,
    StreamView,
};
use crate::check::timing::{first_back, first_late, first_skewed, least, Delta};
use crate::reading::{
    all_white, is_free_of, joined, lemma_decimal_is_parsed, lemma_decimal_reads_back,
    lemma_joined_come_apart, lemma_only_white_trims_to_nothing, lemma_seconds_are_plain,
    lemma_seconds_read_back, lemma_something_is_left, lemma_trimming_takes_the_white,
};
use crate::text::{decimal, trimmed, white};

verus! {

/// The first place of a character is behind what is free of it.
proof fn lemma_place_behind(a: Seq<char>, c: char, rest: Seq<char>, i: int)
    requires
        is_free_of(a, c),
        0 <= i <= a.len(),
        rest.len() > 0 ==> rest[0] == c,
    ensures
        place_of(a + rest, c, i) == if rest.len() > 0 {
            Some(a.len() as int)
        } else {
            None
        },
    decreases a.len() - i,
{
    if i < a.len() {
        assert((a + rest)[i] == a[i]);
        lemma_place_behind(a, c, rest, i + 1);
    } else if rest.len() > 0 {
        assert((a + rest)[i] == rest[0]);
    }
}

/// Law: a text is parted at the first separator: what stands before it and what stands behind it; and
/// not at all where there is none.
pub proof fn lemma_parted_at_the_first(a: Seq<char>, c: char, b: Seq<char>)
    requires
        is_free_of(a, c),
    ensures
        once(a + seq![c] + b, c) == Some((a, b)),
        once(a, c) is None,
{
    let rest = seq![c] + b;
    let none: Seq<char> = Seq::empty();
    let all = a + seq![c] + b;
    assert(all =~= a + rest);
    lemma_place_behind(a, c, rest, 0);
    assert(all.subrange(0, a.len() as int) =~= a);
    assert(all.subrange(a.len() + 1int, all.len() as int) =~= b);
    lemma_place_behind(a, c, none, 0);
    assert(a + none =~= a);
}

/// Law: a frame rate that is written as two numbers with a stroke between them reads back, and one over
/// zero is none.
pub proof fn lemma_rate_reads_back(num: u32, den: u32)
    ensures
        den > 0 ==> rate_of(decimal(num as int) + seq!['/'] + decimal(den as int)) == Some(
            FrameRate { num, den },
        ),
        den == 0 ==> rate_of(decimal(num as int) + seq!['/'] + decimal(den as int)) is None,
{
    let (a, b) = (decimal(num as int), decimal(den as int));
    lemma_decimal_reads_back(num as int);
    assert forall|i: int| 0 <= i < a.len() implies #[trigger] a[i] != '/' by {
        assert('0' <= a[i] <= '9');
    }
    lemma_parted_at_the_first(a, '/', b);
    lemma_number_is_not_trimmed(num as int);
    lemma_number_is_not_trimmed(den as int);
    lemma_decimal_is_parsed(num as int, u32::MAX as int);
    lemma_decimal_is_parsed(den as int, u32::MAX as int);
}

/// There is no white space around a number.
proof fn lemma_number_is_not_trimmed(n: int)
    requires
        0 <= n,
    ensures
        trimmed(decimal(n)) == decimal(n),
{
    let s = decimal(n);
    let none: Seq<char> = Seq::empty();
    lemma_decimal_reads_back(n);
    assert('0' <= s[0] <= '9' && '0' <= s[s.len() - 1] <= '9');
    lemma_trimming_takes_the_white(none, s, none);
    assert(none + s + none =~= s);
}

/// Law: a line says what its key names, and nothing else; a line without an equals sign says nothing.
pub proof fn lemma_line_says_what_it_names(s: RawView, line: Seq<char>, value: Seq<char>, n: u32)
    requires
        value.len() > 0,
        !white(value[0]),
        !white(value.last()),
    ensures
        is_free_of(line, '=') ==> with_line(s, line) == s,
        with_line(s, "codec_type="@ + value) == (RawView {
            info: StreamView { codec_type: value, ..s.info },
            ..s
        }),
        with_line(s, "codec_name="@ + value) == (RawView {
            info: StreamView { codec_name: value, ..s.info },
            ..s
        }),
        with_line(s, "sample_rate="@ + decimal(n as int)) == (RawView {
            info: StreamView { sample_rate: Some(n), ..s.info },
            ..s
        }),
        with_line(s, "channels="@ + decimal(n as int)) == (RawView {
            info: StreamView { channels: Some(n), ..s.info },
            ..s
        }),
{
    reveal_strlit("codec_type");
    reveal_strlit("codec_name");
    reveal_strlit("sample_rate");
    reveal_strlit("channels");
    reveal_strlit("avg_frame_rate");
    reveal_strlit("codec_type=");
    reveal_strlit("codec_name=");
    reveal_strlit("sample_rate=");
    reveal_strlit("channels=");
    assert("codec_type"@[6] == 't' && "codec_name"@[6] == 'n' && "sample_rate"@.len() == 11);
    if is_free_of(line, '=') {
        lemma_parted_at_the_first(line, '=', value);
    }
    let none: Seq<char> = Seq::empty();
    lemma_trimming_takes_the_white(none, value, none);
    assert(none + value + none =~= value);
    lemma_number_is_not_trimmed(n as int);
    lemma_decimal_is_parsed(n as int, u32::MAX as int);
    lemma_key("codec_type"@, value);
    lemma_key("codec_name"@, value);
    lemma_key("sample_rate"@, decimal(n as int));
    lemma_key("channels"@, decimal(n as int));
    assert("codec_type="@ + value =~= "codec_type"@ + seq!['='] + value);
    assert("codec_name="@ + value =~= "codec_name"@ + seq!['='] + value);
    assert("sample_rate="@ + decimal(n as int) =~= "sample_rate"@ + seq!['='] + decimal(n as int));
    assert("channels="@ + decimal(n as int) =~= "channels"@ + seq!['='] + decimal(n as int));
}

/// A key without white space is found as it stands.
proof fn lemma_key(key: Seq<char>, value: Seq<char>)
    requires
        key.len() > 0,
        is_free_of(key, '='),
        !white(key[0]),
        !white(key.last()),
    ensures
        once(key + seq!['='] + value, '=') == Some((key, value)),
        trimmed(key) == key,
{
    let none: Seq<char> = Seq::empty();
    lemma_parted_at_the_first(key, '=', value);
    lemma_trimming_takes_the_white(none, key, none);
    assert(none + key + none =~= key);
}

/// Law: the first place of a word is found, and nothing only where it stands nowhere.
pub proof fn lemma_first_word_is_found(s: Seq<char>, word: Seq<char>, i: int)
    requires
        0 <= i,
        word.len() > 0,
    ensures
        found_at(s, word, i) matches Some(k) ==> i <= k && k + word.len() <= s.len() && s.subrange(
            k,
            k + word.len(),
        ) == word,
        found_at(s, word, i) matches Some(k) ==> forall|j: int|
            i <= j < k ==> s.subrange(j, #[trigger] (j + word.len())) != word,
        found_at(s, word, i) is None ==> forall|j: int|
            i <= j && j + word.len() <= s.len() ==> s.subrange(j, #[trigger] (j + word.len()))
                != word,
    decreases s.len() + 1 - i,
{
    if i + word.len() <= s.len() && s.subrange(i, i + word.len()) != word {
        lemma_first_word_is_found(s, word, i + 1);
    }
}

/// A search that finds a place finds it from there, too.
proof fn lemma_found_again(s: Seq<char>, word: Seq<char>, i: int)
    requires
        0 <= i,
        word.len() > 0,
    ensures
        found_at(s, word, i) matches Some(k) ==> found_at(s, word, k) == Some(k),
    decreases s.len() + 1 - i,
{
    if i + word.len() <= s.len() && s.subrange(i, i + word.len()) != word {
        lemma_found_again(s, word, i + 1);
    }
}

/// Law: a listing is read part by part: a part begins behind its mark and ends at its end mark, or where
/// the next begins, and gives one stream where a kind is said; then the reading goes on with the next
/// part.
pub proof fn lemma_listing_is_read_part_by_part(s: Seq<char>, i: int, at: int, next: int)
    requires
        0 <= i,
        found_at(s, "[STREAM]"@, i) == Some(at),
        found_at(s, "[STREAM]"@, at + 8) == Some(next) || found_at(s, "[STREAM]"@, at + 8) is None
            && next == s.len(),
    ensures
        ({
            let part = s.subrange(at + 8, next);
            let said = match found_at(part, "[/STREAM]"@, 0) {
                Some(end) => part.take(end),
                None => part,
            };
            let stream = with_lines(pieces(said, '\n'));
            listed_from(s, i) == if stream.info.codec_type.len() == 0 {
                listed_from(s, next)
            } else {
                seq![stream] + listed_from(s, next)
            }
        }),
        found_at(s, "[STREAM]"@, i) is None ==> listed_from(s, i).len() == 0,
{
    reveal_strlit("[STREAM]");
    reveal_strlit("[/STREAM]");
    lemma_first_word_is_found(s, "[STREAM]"@, i);
    lemma_first_word_is_found(s, "[STREAM]"@, at + 8);
    lemma_found_again(s, "[STREAM]"@, at + 8);
    let part = s.subrange(at + 8, next);
    lemma_first_word_is_found(part, "[/STREAM]"@, 0);
    let none: Seq<RawView> = Seq::empty();
    assert(listed_from(s, at + 8) == listed_from(s, next)) by {
        if found_at(s, "[STREAM]"@, at + 8) is None {
            lemma_first_word_is_found(s, "[STREAM]"@, next);
            assert(found_at(s, "[STREAM]"@, next) is None);
        }
    }
    assert(none + listed_from(s, next) =~= listed_from(s, next));
}

/// Law: a line that begins with a time gives that time; the lines before it give what they gave.
pub proof fn lemma_line_gives_its_time(lines: Seq<Seq<char>>, t: int, more: Seq<char>)
    requires
        -LIMIT <= t <= LIMIT,
        is_free_of(more, ','),
    ensures
        times_of(lines.push(seconds6(t))) == times_of(lines).push(t),
        times_of(lines.push(seconds6(t) + seq![','] + more)) == times_of(lines).push(t),
        times_of(Seq::empty()).len() == 0,
{
    let one = seq![seconds6(t)];
    let two = seq![seconds6(t), more];
    lemma_seconds_are_plain(t, ',');
    lemma_seconds_read_back(t);
    reveal_with_fuel(joined, 3);
    lemma_joined_come_apart(one, ',');
    lemma_joined_come_apart(two, ',');
    assert(two.drop_last() =~= one);
    assert(joined(one, ',') =~= seconds6(t));
    assert(joined(two, ',') =~= seconds6(t) + seq![','] + more);
    assert(lines.push(seconds6(t)).drop_last() =~= lines);
    assert(lines.push(seconds6(t) + seq![','] + more).drop_last() =~= lines);
}

/// Law: what is shown of a fraction is the nearest whole number, and the even one of two.
pub proof fn lemma_nearest_is_nearest(p: int, q: int)
    requires
        0 <= p,
        0 < q,
    ensures
        -q <= 2 * (nearest(p, q) * q - p) <= q,
        2 * (nearest(p, q) * q - p) == q || 2 * (p - nearest(p, q) * q) == q ==> nearest(p, q) % 2
            == 0,
{
    let below = p / q;
    vstd::arithmetic::div_mod::lemma_fundamental_div_mod(p, q);
    assert(q * below == below * q) by (nonlinear_arith);
    assert((below + 1) * q == below * q + q) by (nonlinear_arith);
}

/// Law: a clip is decoded where the decoder ended well and said nothing; whatever it says, but for white
/// space, is a fault.
pub proof fn lemma_complaint_is_a_fault(status: Seq<char>, complaint: Seq<char>, i: int)
    ensures
        decode_fault(false, status, complaint) is Some,
        all_white(complaint) ==> decode_fault(true, status, complaint) is None,
        0 <= i < complaint.len() && !white(complaint[i]) ==> decode_fault(true, status, complaint) is Some,
{
    if all_white(complaint) {
        lemma_only_white_trims_to_nothing(complaint);
    }
    if 0 <= i < complaint.len() && !white(complaint[i]) {
        lemma_something_is_left(complaint, i);
    }
}

/// Law: the frame that is named is the first that does not come after the one before.
pub proof fn lemma_first_step_back_is_named(pts: Seq<i64>, i: int, k: int)
    requires
        1 <= i <= k < pts.len(),
        pts[k] <= pts[k - 1],
        forall|j: int| i <= j < k ==> #[trigger] pts[j] > pts[j - 1],
    ensures
        first_back(pts, i) == Some(k),
    decreases k - i,
{
    if i < k {
        assert(pts[i] > pts[i - 1]);
        lemma_first_step_back_is_named(pts, i + 1, k);
    }
}

/// Law: the track that is named is the first that begins before zero, or later than an AAC frame, which
/// lasts a third of 64 milliseconds.
pub proof fn lemma_first_late_track_is_named(audio: Seq<(Seq<char>, int)>, i: int, k: int)
    requires
        0 <= i <= k < audio.len(),
        audio[k].1 < 0 || 3 * audio[k].1 > 64_000,
        forall|j: int| i <= j < k ==> 0 <= (#[trigger] audio[j]).1 && 3 * audio[j].1 <= 64_000,
    ensures
        first_late(audio, i) == Some(k),
    decreases k - i,
{
    if i < k {
        assert(0 <= audio[i].1 && 3 * audio[i].1 <= 64_000);
        lemma_first_late_track_is_named(audio, i + 1, k);
    }
}

/// Whether a sound track whose last time is `t` ends at most an AAC frame away from the picture.
pub open spec fn ends_with_picture(t: int, last: int, delta: Delta) -> bool {
    let apart = (3 * t + 64_000) * delta.den - 3 * (last * delta.den + delta.num);
    -64_000 * delta.den <= apart <= 64_000 * delta.den
}

/// Law: the track that is named is the first that ends more than an AAC frame away from the picture.
pub proof fn lemma_first_skewed_track_is_named(
    last: int,
    delta: Delta,
    audio: Seq<(Seq<char>, int)>,
    i: int,
    k: int,
)
    requires
        0 <= i <= k < audio.len(),
        !ends_with_picture(audio[k].1, last, delta),
        forall|j: int| i <= j < k ==> ends_with_picture((#[trigger] audio[j]).1, last, delta),
    ensures
        first_skewed(last, delta, audio, i) == Some(k),
    decreases k - i,
{
    lemma_apart(audio[i].1, last, delta);
    if i < k {
        assert(ends_with_picture(audio[i].1, last, delta));
        lemma_first_skewed_track_is_named(last, delta, audio, i + 1, k);
    }
}

/// How far a track ends behind the picture, two ways.
proof fn lemma_apart(t: int, last: int, delta: Delta)
    ensures
        (t - last) * (3 * delta.den) + 64_000 * delta.den - 3 * delta.num == (3 * t + 64_000)
            * delta.den - 3 * (last * delta.den + delta.num),
{
    let d = delta.den as int;
    assert((t - last) * (3 * d) == 3 * (t * d) - 3 * (last * d)) by (nonlinear_arith);
    assert((3 * t + 64_000) * d == 3 * (t * d) + 64_000 * d) by (nonlinear_arith);
}

/// Law: the least of some numbers is one of them, and none is less.
pub proof fn lemma_least_is_least(s: Seq<int>)
    requires
        s.len() > 0,
    ensures
        s.contains(least(s)),
        forall|i: int| 0 <= i < s.len() ==> least(s) <= #[trigger] s[i],
    decreases s.len(),
{
    if s.len() > 1 {
        let init = s.drop_last();
        lemma_least_is_least(init);
        let k = choose|k: int| 0 <= k < init.len() && init[k] == least(init);
        assert(s[k] == init[k]);
        assert(s[s.len() - 1] == s.last());
        assert forall|i: int| 0 <= i < s.len() implies least(s) <= #[trigger] s[i] by {
            if i < init.len() {
                assert(init[i] == s[i]);
            }
        }
    } else {
        assert(s[0] == least(s));
    }
}

} // verus!
