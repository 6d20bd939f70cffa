//! What the list of recent clips shows: the newest of the clips, each once, and true to what is known
//! of it.

use vstd::prelude::*;

use crate::reading::{digits_only, lemma_decimal2_reads_back, lemma_decimal_reads_back};
use crate::status::elapsed_text;
use crate::text::{decimal, lowered, number};
use crate::ui::recent::{
    all_clips, at_most, clip_name, clips_among, duration_text, heading, headings,
    lemma_newest_come_first, lemma_no_clip_is_lost, millis_since, newest_first, rounded, size_text,
    tenths_text, ClipFile, FoundFile, Listed, RECENT_LIMIT,
};

verus! {

/// Law: of the clips of a folder the newest are shown, twenty at the most. The clips that are left out
/// are no newer than any that is shown, and none is left out while there is room.
pub proof fn lemma_newest_are_shown(files: Seq<ClipFile>, limit: int) -> (rest: Seq<ClipFile>)
    requires
        0 <= limit,
    ensures
        RECENT_LIMIT == 20,
        at_most(newest_first(files), limit).len() == if files.len() < limit {
            files.len() as int
        } else {
            limit
        },
        (at_most(newest_first(files), limit) + rest).to_multiset() == files.to_multiset(),
        forall|i: int, j: int|
            0 <= i < j < at_most(newest_first(files), limit).len() ==> (#[trigger] at_most(
                newest_first(files),
                limit,
            )[i]).modified >= (#[trigger] at_most(newest_first(files), limit)[j]).modified,
        forall|i: int, j: int|
            0 <= i < at_most(newest_first(files), limit).len() && 0 <= j < rest.len() ==> (
            #[trigger] at_most(newest_first(files), limit)[i]).modified >= (
            #[trigger] rest[j]).modified,
{
    let all = newest_first(files);
    let shown = at_most(all, limit);
    let n = shown.len() as int;
    lemma_no_clip_is_lost(files);
    assert(all.len() == files.len()) by {
        broadcast use vstd::seq_lib::group_to_multiset_ensures;

        assert(all.to_multiset().len() == files.to_multiset().len());
    }
    assert(shown =~= all.take(n));
    let rest = all.skip(n);
    assert(shown + rest =~= all);
    assert forall|i: int, j: int| 0 <= i < j < n implies (#[trigger] shown[i]).modified >= (
    #[trigger] shown[j]).modified by {
        lemma_newest_come_first(files, i, j);
    }
    assert forall|i: int, j: int| 0 <= i < n && 0 <= j < rest.len() implies (
    #[trigger] shown[i]).modified >= (#[trigger] rest[j]).modified by {
        lemma_newest_come_first(files, i, n + j);
    }
    rest
}

/// Law: a name is that of a clip where it begins with `clipd_` and ends with `.mp4`, whatever stands
/// between, and whether the ending is in small letters or not.
pub proof fn lemma_names_of_clips(name: Seq<char>, middle: Seq<char>)
    ensures
        clip_name("clipd_"@ + middle + ".mp4"@),
        clip_name("clipd_"@ + middle + ".MP4"@),
        clip_name(name) ==> name.len() >= 6 && name.take(6) == "clipd_"@ && lowered(
            name.skip(name.len() - 4),
        ) == ".mp4"@,
{
    reveal_strlit("clipd");
    reveal_strlit("_");
    reveal_strlit("clipd_");
    reveal_strlit(".mp4");
    reveal_strlit(".MP4");
    let prefix = "clipd"@ + "_"@;
    assert(prefix =~= "clipd_"@);
    let small = "clipd_"@ + middle + ".mp4"@;
    let large = "clipd_"@ + middle + ".MP4"@;
    assert(small.take(6) =~= prefix);
    assert(large.take(6) =~= prefix);
    assert(lowered(small).skip(small.len() - 4) =~= ".mp4"@);
    assert(lowered(large).skip(large.len() - 4) =~= ".mp4"@);
    if clip_name(name) {
        assert(lowered(name.skip(name.len() - 4)) =~= lowered(name).skip(name.len() - 4));
    }
}

/// Law: a folder's clips are those of its files, one after the other: a file with a clip's name is one
/// clip, with what is known of the file, and anything else is none.
pub proof fn lemma_each_file_is_a_clip_or_none(files: Seq<FoundFile>, f: FoundFile, app: Seq<char>)
    ensures
        clips_among(Seq::empty(), app).len() == 0,
        !(f.is_file && clip_name(f.name@)) ==> clips_among(files.push(f), app) == clips_among(
            files,
            app,
        ),
        f.is_file && clip_name(f.name@) ==> clips_among(files.push(f), app).drop_last()
            == clips_among(files, app),
        f.is_file && clip_name(f.name@) ==> ({
            let clip = clips_among(files.push(f), app).last();
            &&& clips_among(files.push(f), app).len() == clips_among(files, app).len() + 1
            &&& clip.path == f.path@
            &&& clip.name == f.name@
            &&& clip.app == app
            &&& clip.size == f.size
            &&& clip.modified == f.modified
        }),
{
    let all = files.push(f);
    assert(all.drop_last() =~= files);
    assert(all.last() == f);
    if f.is_file && clip_name(f.name@) {
        assert(clips_among(all, app).drop_last() =~= clips_among(files, app));
    } else {
        assert(clips_among(all, app) =~= clips_among(files, app));
    }
}

/// Law: the clips of a listing are those of its entries, one after the other. A file is in no
/// application's folder, and what a folder holds belongs to the application.
pub proof fn lemma_each_entry_adds_its_clips(
    listing: Seq<Listed>,
    f: FoundFile,
    app: String,
    files: Vec<FoundFile>,
)
    ensures
        all_clips(Seq::empty()).len() == 0,
        all_clips(listing.push(Listed::Plain(f))) == all_clips(listing) + clips_among(
            seq![f],
            ""@,
        ),
        all_clips(listing.push(Listed::Folder(app, files))) == all_clips(listing) + clips_among(
            files@,
            app@,
        ),
{
    let plain = listing.push(Listed::Plain(f));
    let folder = listing.push(Listed::Folder(app, files));
    assert(plain.drop_last() =~= listing);
    assert(folder.drop_last() =~= listing);
    let none: Seq<FoundFile> = Seq::empty();
    assert(seq![f] =~= none.push(f));
    reveal_with_fuel(clips_among, 2);
    assert(none.push(f).drop_last() =~= none);
    assert(clips_among(seq![f], ""@) =~= crate::ui::recent::as_clip(f, ""@));
}

/// Law: each heading is that of some clip and stands once, every clip's heading stands there, and the
/// headings come in the order of their first clips.
pub proof fn lemma_headings_stand_once(clips: Seq<ClipFile>, more: ClipFile)
    ensures
        headings(clips).no_duplicates(),
        forall|k: int| 0 <= k < clips.len() ==> headings(clips).contains(heading(#[trigger] clips[k])),
        forall|g: int|
            0 <= g < headings(clips).len() ==> exists|k: int|
                0 <= k < clips.len() && heading(#[trigger] clips[k]) == #[trigger] headings(
                    clips,
                )[g],
        headings(clips).is_prefix_of(headings(clips.push(more))),
        more.app@.len() > 0 ==> heading(more) == more.app@,
        more.app@.len() == 0 ==> heading(more) == "Other"@,
    decreases clips.len(),
{
    assert(clips.push(more).drop_last() =~= clips);
    assert(headings(clips).is_prefix_of(headings(clips.push(more))));
    if clips.len() > 0 {
        let init = clips.drop_last();
        let name = heading(clips.last());
        lemma_headings_stand_once(init, clips.last());
        assert(init.push(clips.last()) =~= clips);
        let before = headings(init);
        let now = headings(clips);
        if !before.contains(name) {
            assert(now[before.len() as int] == name);
        }
        assert forall|k: int| 0 <= k < clips.len() implies now.contains(
            heading(#[trigger] clips[k]),
        ) by {
            if k < init.len() {
                assert(init[k] == clips[k]);
                let i = choose|i: int| 0 <= i < before.len() && before[i] == heading(init[k]);
                assert(now[i] == before[i]);
            }
        }
        assert forall|g: int| 0 <= g < now.len() implies exists|k: int|
            0 <= k < clips.len() && heading(#[trigger] clips[k]) == #[trigger] now[g] by {
            if g < before.len() {
                assert(before[g] == now[g]);
                let k = choose|k: int|
                    0 <= k < init.len() && heading(#[trigger] init[k]) == before[g];
                assert(heading(clips[k]) == now[g]);
            } else {
                assert(heading(clips[clips.len() - 1]) == now[g]);
            }
        }
        assert forall|i: int, j: int| 0 <= i < now.len() && 0 <= j < now.len() && i
            != j implies now[i] != now[j] by {
            if i < before.len() && j < before.len() {
                assert(before[i] != before[j]);
            } else if i < before.len() {
                assert(now[i] == before[i]);
            } else {
                assert(now[j] == before[j]);
            }
        }
    }
}

/// Law: the length that is shown is the nearest second: it reads, in minutes and seconds, as a time
/// that is no more than half a second off. Where no length is known, none is shown.
pub proof fn lemma_length_is_the_nearest_second(ms: i64) -> (r: (Seq<char>, Seq<char>))
    ensures
        duration_text(None) == "—"@,
        ms < 0 ==> duration_text(Some(ms)) == "—"@,
        ms >= 0 ==> {
            &&& duration_text(Some(ms)) == r.0 + ":"@ + r.1
            &&& digits_only(r.0)
            &&& digits_only(r.1)
            &&& r.1.len() == 2
            &&& number(r.1) < 60
            &&& -500 <= (number(r.0) * 60 + number(r.1)) * 1_000 - ms <= 500
        },
{
    if ms >= 0 {
        let total = (ms + 500) / 1000;
        lemma_decimal_reads_back(total / 60);
        lemma_decimal2_reads_back(total % 60);
        (decimal(total / 60), crate::text::decimal2(total % 60))
    } else {
        (Seq::empty(), Seq::empty())
    }
}

/// Rounding gives a nearest number, and the even one of two.
pub proof fn lemma_rounding_is_nearest(n: int, d: int)
    requires
        0 <= n,
        0 < d,
    ensures
        0 <= rounded(n, d),
        -d <= 2 * (rounded(n, d) * d - n) <= d,
        2 * (rounded(n, d) * d - n) == d || 2 * (n - rounded(n, d) * d) == d ==> rounded(n, d) % 2
            == 0,
{
    let q = n / d;
    vstd::arithmetic::div_mod::lemma_fundamental_div_mod(n, d);
    vstd::arithmetic::div_mod::lemma_div_pos_is_pos(n, d);
    assert(d * q == q * d) by (nonlinear_arith);
    assert((q + 1) * d == q * d + d) by (nonlinear_arith);
}

/// Tenths read back.
proof fn lemma_tenths(tenths: int)
    requires
        0 <= tenths,
    ensures
        tenths_text(tenths) == decimal(tenths / 10) + "."@ + decimal(tenths % 10),
        digits_only(decimal(tenths / 10)),
        digits_only(decimal(tenths % 10)),
        decimal(tenths % 10).len() == 1,
        number(decimal(tenths / 10)) * 10 + number(decimal(tenths % 10)) == tenths,
{
    lemma_decimal_reads_back(tenths / 10);
    lemma_decimal_reads_back(tenths % 10);
}

/// The unit that a large size is shown in, and its name.
pub open spec fn unit_of(bytes: int) -> (int, Seq<char>) {
    if bytes >= 1_024 * 1_024 * 1_024 {
        (1_073_741_824, " GB"@)
    } else if bytes >= 1_024 * 1_024 {
        (1_048_576, " MB"@)
    } else {
        (1_024, " KB"@)
    }
}

/// Law: the size that is shown is the nearest one that can be: bytes as they are, kilobytes to the
/// whole, and megabytes and gigabytes to the tenth.
pub proof fn lemma_size_is_the_nearest(bytes: int) -> (r: (Seq<char>, Seq<char>))
    requires
        0 <= bytes,
    ensures
        digits_only(r.0),
        digits_only(r.1),
        bytes < 1_024 ==> size_text(bytes) == r.0 + " B"@ && number(r.0) == bytes,
        1_024 <= bytes < 1_024 * 1_024 ==> size_text(bytes) == r.0 + " KB"@ && -512 <= number(r.0)
            * 1_024 - bytes <= 512,
        1_024 * 1_024 <= bytes ==> {
            let (unit, word) = unit_of(bytes);
            &&& size_text(bytes) == r.0 + "."@ + r.1 + word
            &&& r.1.len() == 1
            &&& -unit <= 2 * ((number(r.0) * 10 + number(r.1)) * unit - bytes * 10) <= unit
        },
{
    let none: Seq<char> = Seq::empty();
    if bytes >= 1_024 * 1_024 {
        let unit = unit_of(bytes).0;
        lemma_rounding_is_nearest(bytes * 10, unit);
        let tenths = rounded(bytes * 10, unit);
        lemma_tenths(tenths);
        assert((number(decimal(tenths / 10)) * 10 + number(decimal(tenths % 10))) * unit == tenths
            * unit);
        (decimal(tenths / 10), decimal(tenths % 10))
    } else if bytes >= 1_024 {
        lemma_rounding_is_nearest(bytes, 1_024);
        lemma_decimal_reads_back(rounded(bytes, 1_024));
        (decimal(rounded(bytes, 1_024)), none)
    } else {
        lemma_decimal_reads_back(bytes);
        (decimal(bytes), none)
    }
}

/// Law: the age that is shown is the time that has passed, in whole seconds, minutes or hours, whatever
/// of the three is the largest that fits; the first five seconds are now, and so is a time to come.
pub proof fn lemma_age_is_what_has_passed(now: int, then: int) -> (r: Seq<char>)
    ensures
        now - then < 50_000_000 ==> elapsed_text(millis_since(now, then)) == "just now"@,
        50_000_000 <= now - then < 600_000_000 ==> elapsed_text(millis_since(now, then)) == r
            + " s ago"@ && number(r) * 10_000_000 <= now - then < (number(r) + 1) * 10_000_000,
        600_000_000 <= now - then < 36_000_000_000 ==> elapsed_text(millis_since(now, then)) == r
            + " m ago"@ && number(r) * 600_000_000 <= now - then < (number(r) + 1) * 600_000_000,
        36_000_000_000 <= now - then ==> elapsed_text(millis_since(now, then)) == r + " h ago"@
            && number(r) * 36_000_000_000 <= now - then < (number(r) + 1) * 36_000_000_000,
        now - then >= 50_000_000 ==> digits_only(r),
{
    let secs = millis_since(now, then) / 1000;
    if now - then >= 50_000_000 {
        let n = if secs < 60 {
            secs
        } else if secs < 3600 {
            secs / 60
        } else {
            secs / 3600
        };
        lemma_decimal_reads_back(n);
        decimal(n)
    } else {
        Seq::empty()
    }
}

} // verus!
