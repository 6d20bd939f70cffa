//! The list of recent clips: which files it shows, in which order and groups, and what it says of
//! each.

use vstd::prelude::*;

use crate::appfolder::FALLBACK_FOLDER;
use crate::constants::units::TICKS_PER_MILLISECOND;
use crate::constants::PRODUCT_NAME;
use crate::seqs::lemma_filter_take;
use crate::status::{elapsed_text, format_elapsed};
use crate::text::{
    begins_with, decimal, decimal2, ends_with_ignoring_case, finishes_with, lowered, push_decimal,
    push_decimal2, same_text, starts_with,
};

pub mod shown;

verus! {

/// How many clips are shown.
pub const RECENT_LIMIT: usize = 20;

/// One clip on disk.
#[derive(Debug)]
pub struct ClipFile {
    /// The full path.
    pub path: String,
    /// The file name.
    pub name: String,
    /// The application's folder that the clip lies in, empty for the base folder.
    pub app: String,
    /// The size in bytes.
    pub size: u64,
    /// How long the clip plays, in milliseconds, where its file says so.
    pub duration_ms: Option<i64>,
    /// When the file was last changed, in ticks from the epoch, either way.
    pub modified: i64,
}

/// Whether a name is that of a clip: the product's name and an underscore, then anything, then
/// `.mp4` in any case.
pub open spec fn clip_name(name: Seq<char>) -> bool {
    begins_with(name, PRODUCT_NAME@ + "_"@) && finishes_with(lowered(name), ".mp4"@)
}

/// Whether a name is that of a clip.
pub fn is_clip_name(name: &str) -> (b: bool)
    ensures
        b == clip_name(name@),
{
    let mut prefix: String = String::from_str(PRODUCT_NAME);
    prefix.append("_");
    starts_with(name, prefix.as_str()) && ends_with_ignoring_case(name, ".mp4")
}

/// Whether a directory entry is a clip: a file, not a directory, with a clip's name.
pub fn is_clip_entry(name: &str, is_file: bool) -> (b: bool)
    ensures
        b == (is_file && clip_name(name@)),
{
    is_file && is_clip_name(name)
}

/// Where a clip goes among clips that come newest first: before the first older one.
pub open spec fn newest_place(sorted: Seq<ClipFile>, modified: int, i: int) -> int
    decreases sorted.len() - i,
{
    if i >= sorted.len() {
        sorted.len() as int
    } else if sorted[i].modified < modified {
        i
    } else {
        newest_place(sorted, modified, i + 1)
    }
}

/// Clips that come newest first, with one more.
pub open spec fn with_clip(sorted: Seq<ClipFile>, clip: ClipFile) -> Seq<ClipFile> {
    sorted.insert(newest_place(sorted, clip.modified as int, 0), clip)
}

/// Clips newest first; those of the same time keep their order.
pub open spec fn newest_first(files: Seq<ClipFile>) -> Seq<ClipFile>
    decreases files.len(),
{
    if files.len() == 0 {
        files
    } else {
        with_clip(newest_first(files.drop_last()), files.last())
    }
}

/// The first `limit` of some clips, or all where there are fewer.
pub open spec fn at_most(files: Seq<ClipFile>, limit: int) -> Seq<ClipFile> {
    if files.len() <= limit {
        files
    } else {
        files.take(limit)
    }
}

/// The place found lies behind every clip that is as new, and before an older one.
proof fn lemma_newest_place(sorted: Seq<ClipFile>, modified: int, i: int)
    requires
        0 <= i <= sorted.len(),
    ensures
        i <= newest_place(sorted, modified, i) <= sorted.len(),
        forall|k: int| i <= k < newest_place(sorted, modified, i) ==> (#[trigger] sorted[k]).modified
            >= modified,
        newest_place(sorted, modified, i) < sorted.len() ==> sorted[newest_place(
            sorted,
            modified,
            i,
        )].modified < modified,
    decreases sorted.len() - i,
{
    if i < sorted.len() && sorted[i].modified >= modified {
        lemma_newest_place(sorted, modified, i + 1);
    }
}

/// A place among the first clips is the place among all, unless it lies behind them.
proof fn lemma_place_in_prefix(sorted: Seq<ClipFile>, modified: int, n: int, i: int)
    requires
        0 <= i <= n <= sorted.len(),
    ensures
        newest_place(sorted.take(n), modified, i) == if newest_place(sorted, modified, i) < n {
            newest_place(sorted, modified, i)
        } else {
            n
        },
    decreases n - i,
{
    lemma_newest_place(sorted, modified, i);
    if i < n {
        assert(sorted.take(n)[i] == sorted[i]);
        if sorted[i].modified >= modified {
            lemma_place_in_prefix(sorted, modified, n, i + 1);
        }
    }
}

/// The newest clips of some files: only so many as are wanted need be kept while going through
/// them.
proof fn lemma_with_clip_at_most(sorted: Seq<ClipFile>, clip: ClipFile, limit: int)
    requires
        0 <= limit,
    ensures
        at_most(with_clip(sorted, clip), limit) == at_most(
            with_clip(at_most(sorted, limit), clip),
            limit,
        ),
{
    let m = clip.modified as int;
    lemma_newest_place(sorted, m, 0);
    if sorted.len() > limit {
        lemma_place_in_prefix(sorted, m, limit, 0);
        lemma_newest_place(sorted.take(limit), m, 0);
        let p = newest_place(sorted, m, 0);
        let q = newest_place(sorted.take(limit), m, 0);
        let a = sorted.insert(p, clip);
        let b = sorted.take(limit).insert(q, clip);
        assert(a.len() == sorted.len() + 1);
        assert(b.len() == limit + 1);
        assert(a.take(limit) =~= b.take(limit));
    }
}

/// Pick the newest clips, at most `limit`.
pub fn pick_recent(files: Vec<ClipFile>, limit: usize) -> (r: Vec<ClipFile>)
    ensures
        r@ == at_most(newest_first(files@), limit as int),
{
    let mut r: Vec<ClipFile> = Vec::new();
    let ghost all = files@;
    assert(all.take(0) =~= Seq::empty());
    for clip in iter: files
        invariant
            all == iter.seq(),
            r@ == at_most(newest_first(all.take(iter.index())), limit as int),
    {
        let ghost i = iter.index();
        let ghost before = r@;
        let ghost c = clip;
        let mut p: usize = 0;
        while p < r.len() && r[p].modified >= clip.modified
            invariant
                p <= r@.len(),
                r@ == before,
                c == clip,
                newest_place(before, c.modified as int, 0) == newest_place(
                    before,
                    c.modified as int,
                    p as int,
                ),
            decreases r@.len() - p,
        {
            p = p + 1;
        }
        proof {
            assert(all.take(i + 1).drop_last() =~= all.take(i));
            assert(all.take(i + 1).last() == c);
            lemma_with_clip_at_most(newest_first(all.take(i)), c, limit as int);
            lemma_newest_place(before, c.modified as int, 0);
        }
        r.insert(p, clip);
        if r.len() > limit {
            let ghost longer = r@;
            r.truncate(limit);
            assert(r@ =~= longer.take(limit as int));
        }
    }
    assert(all.take(all.len() as int) =~= all);
    r
}

/// A file, or a folder below an application's, as a listing shows it.
#[derive(Debug)]
pub struct FoundFile {
    pub path: String,
    pub name: String,
    pub is_file: bool,
    pub size: u64,
    /// When it was last changed, in ticks from the epoch, either way.
    pub modified: i64,
}

/// What the folder of clips holds.
#[derive(Debug)]
pub enum Listed {
    /// A file.
    Plain(FoundFile),
    /// An application's folder, and what that holds.
    Folder(String, Vec<FoundFile>),
}

/// What is known of a clip before its file is read.
#[verifier::ext_equal]
pub struct ClipView {
    pub path: Seq<char>,
    pub name: Seq<char>,
    pub app: Seq<char>,
    pub size: u64,
    pub duration_ms: Option<i64>,
    pub modified: i64,
}

impl View for ClipFile {
    type V = ClipView;

    open spec fn view(&self) -> ClipView {
        ClipView {
            path: self.path@,
            name: self.name@,
            app: self.app@,
            size: self.size,
            duration_ms: self.duration_ms,
            modified: self.modified,
        }
    }
}

/// What is known of clips.
pub open spec fn clip_views(clips: Seq<ClipFile>) -> Seq<ClipView> {
    clips.map_values(|c: ClipFile| c@)
}

/// The clip that a found file is, if it is one.
pub open spec fn as_clip(f: FoundFile, app: Seq<char>) -> Seq<ClipView> {
    if f.is_file && clip_name(f.name@) {
        seq![
            ClipView {
                path: f.path@,
                name: f.name@,
                app,
                size: f.size,
                duration_ms: None,
                modified: f.modified,
            },
        ]
    } else {
        Seq::empty()
    }
}

/// The clips among found files.
pub open spec fn clips_among(files: Seq<FoundFile>, app: Seq<char>) -> Seq<ClipView>
    decreases files.len(),
{
    if files.len() == 0 {
        Seq::empty()
    } else {
        clips_among(files.drop_last(), app) + as_clip(files.last(), app)
    }
}

/// The clips that an entry of the folder holds: those of an application's folder are the
/// application's, and deeper ones are not looked at.
pub open spec fn clips_in(entry: Listed) -> Seq<ClipView> {
    match entry {
        Listed::Plain(f) => as_clip(f, ""@),
        Listed::Folder(app, files) => clips_among(files@, app@),
    }
}

/// The clips that a listing holds.
pub open spec fn all_clips(listing: Seq<Listed>) -> Seq<ClipView>
    decreases listing.len(),
{
    if listing.len() == 0 {
        Seq::empty()
    } else {
        all_clips(listing.drop_last()) + clips_in(listing.last())
    }
}

/// Add a found file where it is a clip.
fn push_if_clip(f: &FoundFile, app: &str, out: &mut Vec<ClipFile>)
    ensures
        clip_views(final(out)@) == clip_views(old(out)@) + as_clip(*f, app@),
{
    let ghost before = out@;
    if is_clip_entry(f.name.as_str(), f.is_file) {
        out.push(
            ClipFile {
                path: f.path.clone(),
                name: f.name.clone(),
                app: String::from_str(app),
                size: f.size,
                duration_ms: None,
                modified: f.modified,
            },
        );
    }
    assert(clip_views(out@) =~= clip_views(before) + as_clip(*f, app@));
}

/// The clips that a listing holds, in its order.
pub fn collect_clips(listing: &Vec<Listed>) -> (out: Vec<ClipFile>)
    ensures
        clip_views(out@) == all_clips(listing@),
{
    let mut out: Vec<ClipFile> = Vec::new();
    let n: usize = listing.len();
    let mut i: usize = 0;
    assert(listing@.take(0) =~= Seq::empty());
    assert(clip_views(out@) =~= Seq::empty());
    while i < n
        invariant
            i <= n,
            n == listing@.len(),
            clip_views(out@) == all_clips(listing@.take(i as int)),
        decreases n - i,
    {
        assert(listing@.take(i + 1).drop_last() =~= listing@.take(i as int));
        let ghost so_far = clip_views(out@);
        match &listing[i] {
            Listed::Plain(f) => {
                push_if_clip(f, "", &mut out);
            },
            Listed::Folder(app, files) => {
                let m: usize = files.len();
                let mut k: usize = 0;
                assert(files@.take(0) =~= Seq::empty());
                assert(so_far =~= so_far + clips_among(files@.take(0), app@));
                while k < m
                    invariant
                        k <= m,
                        m == files@.len(),
                        clip_views(out@) == so_far + clips_among(files@.take(k as int), app@),
                    decreases m - k,
                {
                    assert(files@.take(k + 1).drop_last() =~= files@.take(k as int));
                    push_if_clip(&files[k], app.as_str(), &mut out);
                    assert(clip_views(out@) =~= so_far + clips_among(files@.take(k + 1), app@));
                    k = k + 1;
                }
                assert(files@.take(m as int) =~= files@);
            },
        }
        i = i + 1;
    }
    assert(listing@.take(n as int) =~= listing@);
    out
}

/// The newest clips that a listing holds, at most `limit`.
pub fn scan_clips(listing: &Vec<Listed>, limit: usize) -> (r: Vec<ClipFile>)
    ensures
        exists|files: Seq<ClipFile>| #[trigger]
            clip_views(files) == all_clips(listing@) && r@ == at_most(
                newest_first(files),
                limit as int,
            ),
{
    let files: Vec<ClipFile> = collect_clips(listing);
    let ghost all = files@;
    let r: Vec<ClipFile> = pick_recent(files, limit);
    assert(clip_views(all) == all_clips(listing@));
    r
}

/// Law: the clips come newest first.
pub proof fn lemma_newest_come_first(files: Seq<ClipFile>, i: int, j: int)
    requires
        0 <= i <= j < newest_first(files).len(),
    ensures
        newest_first(files)[i].modified >= newest_first(files)[j].modified,
        newest_first(files).len() == files.len(),
    decreases files.len(),
{
    lemma_newest_first_len(files);
    if files.len() > 0 {
        let before = newest_first(files.drop_last());
        let clip = files.last();
        lemma_newest_first_len(files.drop_last());
        lemma_newest_place(before, clip.modified as int, 0);
        let p = newest_place(before, clip.modified as int, 0);
        let x = if i < p {
            i
        } else {
            i - 1
        };
        let y = if j < p {
            j
        } else {
            j - 1
        };
        if i != p && j != p {
            lemma_newest_come_first(files.drop_last(), x, y);
        } else if i == p && j > p {
            lemma_newest_come_first(files.drop_last(), p, y);
        } else if j == p && i < p {
            assert(before[i].modified >= clip.modified);
        }
    }
}

/// Sorting changes no number of clips.
proof fn lemma_newest_first_len(files: Seq<ClipFile>)
    ensures
        newest_first(files).len() == files.len(),
    decreases files.len(),
{
    if files.len() > 0 {
        lemma_newest_first_len(files.drop_last());
        lemma_newest_place(newest_first(files.drop_last()), files.last().modified as int, 0);
    }
}

/// The clips of a time.
pub open spec fn changed_at(modified: i64) -> spec_fn(ClipFile) -> bool {
    |clip: ClipFile| clip.modified == modified
}

/// Law: clips of the same time keep the order in which they were found.
pub proof fn lemma_ties_keep_their_order(files: Seq<ClipFile>, modified: i64)
    ensures
        newest_first(files).filter(changed_at(modified)) == files.filter(changed_at(modified)),
    decreases files.len(),
{
    let pred = changed_at(modified);
    if files.len() > 0 {
        let before = newest_first(files.drop_last());
        let clip = files.last();
        let p = newest_place(before, clip.modified as int, 0);
        lemma_newest_place(before, clip.modified as int, 0);
        lemma_newest_first_len(files.drop_last());
        lemma_ties_keep_their_order(files.drop_last(), modified);
        let front = before.take(p);
        let back = before.skip(p);
        let none: Seq<ClipFile> = Seq::empty();
        assert(before =~= front + back);
        assert(newest_first(files) =~= front.push(clip) + back);
        Seq::filter_distributes_over_add(front, back, pred);
        Seq::filter_distributes_over_add(front.push(clip), back, pred);
        reveal(Seq::filter);
        assert(front.push(clip).drop_last() =~= front);
        if pred(clip) {
            assert forall|k: int| 0 <= k < back.len() implies !pred(#[trigger] back[k]) by {
                lemma_newest_come_first(files.drop_last(), p, p + k);
            }
            lemma_none_kept(back, pred);
            assert(newest_first(files).filter(pred) =~= before.filter(pred).push(clip));
        } else {
            assert(newest_first(files).filter(pred) =~= before.filter(pred));
        }
    }
}

/// A filter that no clip satisfies keeps none.
proof fn lemma_none_kept(clips: Seq<ClipFile>, pred: spec_fn(ClipFile) -> bool)
    requires
        forall|k: int| 0 <= k < clips.len() ==> !pred(#[trigger] clips[k]),
    ensures
        clips.filter(pred) == Seq::<ClipFile>::empty(),
    decreases clips.len(),
{
    reveal(Seq::filter);
    if clips.len() > 0 {
        lemma_none_kept(clips.drop_last(), pred);
    }
}

/// Law: the list is made of the clips that were found, each as often.
pub proof fn lemma_no_clip_is_lost(files: Seq<ClipFile>)
    ensures
        newest_first(files).to_multiset() == files.to_multiset(),
    decreases files.len(),
{
    broadcast use vstd::seq_lib::group_to_multiset_ensures, vstd::multiset::group_multiset_axioms;

    if files.len() > 0 {
        let before = newest_first(files.drop_last());
        lemma_no_clip_is_lost(files.drop_last());
        lemma_newest_place(before, files.last().modified as int, 0);
        assert(files =~= files.drop_last().push(files.last()));
        let p = newest_place(before, files.last().modified as int, 0);
        let after = before.insert(p, files.last());
        assert(after.remove(p) =~= before);
        vstd::seq_lib::to_multiset_remove(after, p);
        assert(after[p] == files.last());
        assert(after.contains(after[p]));
        assert(after.to_multiset().count(files.last()) > 0);
        assert(after.to_multiset() =~= before.to_multiset().insert(files.last()));
    }
}

/// The heading that a clip stands under: its application's folder, or the fallback.
pub open spec fn heading(clip: ClipFile) -> Seq<char> {
    if clip.app@.len() == 0 {
        FALLBACK_FOLDER@
    } else {
        clip.app@
    }
}

/// The clips under a heading.
pub open spec fn under(name: Seq<char>) -> spec_fn(ClipFile) -> bool {
    |clip: ClipFile| heading(clip) == name
}

/// The headings of some clips, in the order in which they first occur.
pub open spec fn headings(clips: Seq<ClipFile>) -> Seq<Seq<char>>
    decreases clips.len(),
{
    if clips.len() == 0 {
        Seq::empty()
    } else {
        let before = headings(clips.drop_last());
        if before.contains(heading(clips.last())) {
            before
        } else {
            before.push(heading(clips.last()))
        }
    }
}

/// Some clips without the references to them.
pub open spec fn pointed_at(clips: Seq<&ClipFile>) -> Seq<ClipFile> {
    clips.map_values(|c: &ClipFile| *c)
}

/// Whether groups are what clips fall into: one group for each heading, in the order in which the
/// headings first occur, with the clips under it in their order.
pub open spec fn grouped(groups: Seq<(&str, Vec<&ClipFile>)>, clips: Seq<ClipFile>) -> bool {
    &&& groups.len() == headings(clips).len()
    &&& forall|g: int|
        0 <= g < groups.len() ==> (#[trigger] groups[g]).0@ == headings(clips)[g] && pointed_at(
            groups[g].1@,
        ) == clips.filter(under(headings(clips)[g]))
}

/// Headings occur once each, and every clip has one.
proof fn lemma_headings(clips: Seq<ClipFile>)
    ensures
        forall|i: int, j: int|
            0 <= i < headings(clips).len() && 0 <= j < headings(clips).len() && headings(clips)[i]
                == headings(clips)[j] ==> i == j,
        forall|k: int|
            0 <= k < clips.len() ==> headings(clips).contains(heading(#[trigger] clips[k])),
    decreases clips.len(),
{
    if clips.len() > 0 {
        let before = headings(clips.drop_last());
        let name = heading(clips.last());
        lemma_headings(clips.drop_last());
        if !before.contains(name) {
            assert(headings(clips)[before.len() as int] == name);
        }
        assert forall|k: int| 0 <= k < clips.len() implies headings(clips).contains(
            heading(#[trigger] clips[k]),
        ) by {
            if k < clips.len() - 1 {
                assert(clips.drop_last()[k] == clips[k]);
                let i = choose|i: int| 0 <= i < before.len() && before[i] == heading(clips[k]);
                assert(headings(clips)[i] == before[i]);
            }
        }
    }
}

/// Group clips by their application's folder.
pub fn group_by_app(clips: &[ClipFile]) -> (groups: Vec<(&str, Vec<&ClipFile>)>)
    ensures
        grouped(groups@, clips@),
{
    let mut groups: Vec<(&str, Vec<&ClipFile>)> = Vec::new();
    let mut i: usize = 0;
    assert(clips@.take(0) =~= Seq::empty());
    while i < clips.len()
        invariant
            i <= clips@.len(),
            grouped(groups@, clips@.take(i as int)),
        decreases clips@.len() - i,
    {
        let clip: &ClipFile = &clips[i];
        let app: &str = if clip.app.as_str().unicode_len() == 0 {
            FALLBACK_FOLDER
        } else {
            clip.app.as_str()
        };
        let ghost seen = clips@.take(i as int);
        let ghost next = clips@.take(i + 1);
        let ghost names = headings(seen);
        proof {
            assert(next.drop_last() =~= seen);
            assert(next.last() == *clip);
            assert(app@ == heading(*clip));
            lemma_headings(seen);
        }
        let mut g: usize = 0;
        while g < groups.len() && !same_text(groups[g].0, app)
            invariant
                g <= groups@.len(),
                groups@.len() == names.len(),
                grouped(groups@, seen),
                names == headings(seen),
                forall|k: int| 0 <= k < g ==> names[k] != app@,
            decreases groups@.len() - g,
        {
            g = g + 1;
        }
        let ghost before = groups@;
        if g < groups.len() {
            groups[g].1.push(clip);
            proof {
                assert(names[g as int] == app@);
                assert(headings(next) == names);
                assert forall|k: int| 0 <= k < groups@.len() implies (
                #[trigger] groups@[k]).0@ == names[k] && pointed_at(groups@[k].1@)
                    == next.filter(under(names[k])) by {
                    lemma_filter_take(clips@, under(names[k]), i as int);
                    assert(before[k].0@ == names[k]);
                    if k == g {
                        assert(pointed_at(groups@[k].1@) =~= pointed_at(before[k].1@).push(*clip));
                    } else {
                        assert(names[k] != names[g as int]);
                        assert(groups@[k] == before[k]);
                    }
                }
            }
        } else {
            let mut first: Vec<&ClipFile> = Vec::new();
            first.push(clip);
            groups.push((app, first));
            proof {
                assert(!names.contains(app@));
                assert(headings(next) == names.push(app@));
                assert forall|k: int| 0 <= k < groups@.len() implies (
                #[trigger] groups@[k]).0@ == headings(next)[k] && pointed_at(groups@[k].1@)
                    == next.filter(under(headings(next)[k])) by {
                    lemma_filter_take(clips@, under(headings(next)[k]), i as int);
                    if k < names.len() {
                        assert(groups@[k] == before[k]);
                        assert(names[k] != app@);
                    } else {
                        lemma_nothing_under(seen, app@);
                        assert(pointed_at(groups@[k].1@) =~= seq![*clip]);
                        assert(next.filter(under(app@)) =~= seq![*clip]);
                    }
                }
            }
        }
        i = i + 1;
    }
    assert(clips@.take(clips@.len() as int) =~= clips@);
    groups
}

/// No clip stands under a heading that does not occur.
proof fn lemma_nothing_under(clips: Seq<ClipFile>, name: Seq<char>)
    requires
        !headings(clips).contains(name),
    ensures
        clips.filter(under(name)) == Seq::<ClipFile>::empty(),
    decreases clips.len(),
{
    reveal(Seq::filter);
    if clips.len() > 0 {
        let before = headings(clips.drop_last());
        if before.contains(name) {
            let i = choose|i: int| 0 <= i < before.len() && before[i] == name;
            assert(headings(clips)[i] == name);
        }
        if heading(clips.last()) == name {
            assert(!before.contains(name));
            assert(headings(clips)[before.len() as int] == name);
        }
        lemma_nothing_under(clips.drop_last(), name);
    }
}

/// How long a clip plays: minutes and seconds, rounded half up, or a dash where it is not known.
pub open spec fn duration_text(ms: Option<i64>) -> Seq<char> {
    match ms {
        Some(ms) => if ms >= 0 {
            let total = (ms + 500) / 1000;
            decimal(total / 60) + ":"@ + decimal2(total % 60)
        } else {
            "—"@
        },
        None => "—"@,
    }
}

/// How long a clip plays.
pub fn format_duration(ms: Option<i64>) -> (s: String)
    ensures
        s@ == duration_text(ms),
{
    let mut s: String = String::new();
    match ms {
        Some(ms) if ms >= 0 => {
            let total: u64 = (ms as u64 + 500) / 1000;
            push_decimal(&mut s, total / 60);
            s.append(":");
            push_decimal2(&mut s, total % 60);
        },
        _ => {
            s.append("—");
        },
    }
    assert(s@ =~= duration_text(ms));
    s
}

/// `n / d` rounded to the nearest whole number, halves to the even one.
pub open spec fn rounded(n: int, d: int) -> int {
    let q = n / d;
    let r = n % d;
    if 2 * r > d || (2 * r == d && q % 2 == 1) {
        q + 1
    } else {
        q
    }
}

/// `n / d` rounded to the nearest whole number, halves to the even one.
pub fn round_ratio(n: u128, d: u128) -> (q: u128)
    requires
        0 < d,
        n + 2 * d <= u128::MAX,
    ensures
        q == rounded(n as int, d as int),
{
    let q: u128 = n / d;
    let r: u128 = n % d;
    assert(q <= n) by (nonlinear_arith)
        requires
            q == n / d,
            0 < d,
    ;
    if 2 * r > d || (2 * r == d && q % 2 == 1) {
        q + 1
    } else {
        q
    }
}

/// Tenths as a decimal number with one place.
pub open spec fn tenths_text(tenths: int) -> Seq<char> {
    decimal(tenths / 10) + "."@ + decimal(tenths % 10)
}

/// A size: in gigabytes or megabytes with one place, in whole kilobytes, or in bytes.
pub open spec fn size_text(bytes: int) -> Seq<char> {
    if bytes >= 0x4000_0000 {
        tenths_text(rounded(bytes * 10, 0x4000_0000)) + " GB"@
    } else if bytes >= 0x10_0000 {
        tenths_text(rounded(bytes * 10, 0x10_0000)) + " MB"@
    } else if bytes >= 0x400 {
        decimal(rounded(bytes, 0x400)) + " KB"@
    } else {
        decimal(bytes) + " B"@
    }
}

/// Append tenths as a decimal number with one place.
pub fn push_tenths(s: &mut String, tenths: u64)
    ensures
        final(s)@ == old(s)@ + tenths_text(tenths as int),
{
    let ghost before = s@;
    push_decimal(s, tenths / 10);
    s.append(".");
    push_decimal(s, tenths % 10);
    assert(s@ =~= before + tenths_text(tenths as int));
}

/// A size.
pub fn format_size(bytes: u64) -> (s: String)
    ensures
        s@ == size_text(bytes as int),
{
    let mut s: String = String::new();
    if bytes >= 0x4000_0000 {
        let tenths: u128 = round_ratio(bytes as u128 * 10, 0x4000_0000);
        push_tenths(&mut s, tenths as u64);
        s.append(" GB");
    } else if bytes >= 0x10_0000 {
        let tenths: u128 = round_ratio(bytes as u128 * 10, 0x10_0000);
        push_tenths(&mut s, tenths as u64);
        s.append(" MB");
    } else if bytes >= 0x400 {
        let kb: u128 = round_ratio(bytes as u128, 0x400);
        push_decimal(&mut s, kb as u64);
        s.append(" KB");
    } else {
        push_decimal(&mut s, bytes);
        s.append(" B");
    }
    assert(s@ =~= size_text(bytes as int));
    s
}

/// The milliseconds between two times in ticks, none where the second is not before the first.
pub open spec fn millis_since(now: int, then: int) -> int {
    if now > then {
        (now - then) / TICKS_PER_MILLISECOND as int
    } else {
        0
    }
}

/// How long ago a clip was changed, both times in ticks from the epoch. A time to come counts as
/// now.
pub fn relative_time(now: i64, modified: i64) -> (s: String)
    ensures
        s@ == elapsed_text(millis_since(now as int, modified as int)),
{
    let ticks: i128 = now as i128 - modified as i128;
    let ms: u64 = if ticks > 0 {
        (ticks / TICKS_PER_MILLISECOND as i128) as u64
    } else {
        0
    };
    format_elapsed(ms)
}

/// What a row says of its clip: how long ago, how long it plays, how large it is.
pub fn clip_identity(now: i64, clip: &ClipFile) -> (s: String)
    ensures
        s@ == elapsed_text(millis_since(now as int, clip.modified as int)) + "   ·   "@
            + duration_text(clip.duration_ms) + "   ·   "@ + size_text(clip.size as int),
{
    let mut s: String = relative_time(now, clip.modified);
    s.append("   ·   ");
    let duration: String = format_duration(clip.duration_ms);
    s.append(duration.as_str());
    s.append("   ·   ");
    let size: String = format_size(clip.size);
    s.append(size.as_str());
    s
}

/// The argument that makes the file manager show a file in its folder: only the path is quoted.
pub fn reveal_argument(path: &str) -> (s: String)
    ensures
        s@ == "/select,\""@ + path@ + "\""@,
{
    let mut s: String = String::from_str("/select,\"");
    s.append(path);
    s.append("\"");
    s
}

/// The list of recent clips of a folder.
pub struct RecentClips {
    dir: String,
    clips: Vec<ClipFile>,
}

impl RecentClips {
    /// The folder.
    pub closed spec fn spec_dir(&self) -> Seq<char> {
        self.dir@
    }

    /// The clips.
    pub closed spec fn spec_clips(&self) -> Seq<ClipFile> {
        self.clips@
    }

    /// The list of a folder in which `found` was found.
    pub fn new(dir: String, found: Vec<ClipFile>) -> (list: Self)
        ensures
            list.spec_dir() == dir@,
            list.spec_clips() == at_most(newest_first(found@), RECENT_LIMIT as int),
    {
        RecentClips { dir, clips: pick_recent(found, RECENT_LIMIT) }
    }

    /// Whether the list is of another folder, and has to be pointed at this one.
    pub fn is_stale(&self, effective_dir: &str) -> (b: bool)
        ensures
            b == (self.spec_dir() != effective_dir@),
    {
        !same_text(self.dir.as_str(), effective_dir)
    }

    /// Take in what is found in the folder now.
    pub fn rescan(&mut self, found: Vec<ClipFile>)
        ensures
            final(self).spec_dir() == old(self).spec_dir(),
            final(self).spec_clips() == at_most(newest_first(found@), RECENT_LIMIT as int),
    {
        self.clips = pick_recent(found, RECENT_LIMIT);
    }

    /// Point the list at another folder, in which `found` was found.
    pub fn rescan_in(&mut self, dir: String, found: Vec<ClipFile>)
        ensures
            final(self).spec_dir() == dir@,
            final(self).spec_clips() == at_most(newest_first(found@), RECENT_LIMIT as int),
    {
        self.dir = dir;
        self.rescan(found);
    }

    /// The clips, newest first.
    pub fn clips(&self) -> (clips: &Vec<ClipFile>)
        ensures
            clips@ == self.spec_clips(),
    {
        &self.clips
    }

    /// What the list says where it has no clips.
    pub fn empty_text(&self) -> (s: String)
        ensures
            s@ == "No clips yet in "@ + self.spec_dir(),
    {
        let mut s: String = String::from_str("No clips yet in ");
        s.append(self.dir.as_str());
        s
    }
}

} // verus!
