//! Facts about sequences.

use vstd::prelude::*;

verus! {

/// Filtering one item more.
pub proof fn lemma_filter_take<T>(s: Seq<T>, pred: spec_fn(T) -> bool, i: int)
    requires
        0 <= i < s.len(),
    ensures
        s.take(i + 1).filter(pred) == if pred(s[i]) {
            s.take(i).filter(pred).push(s[i])
        } else {
            s.take(i).filter(pred)
        },
{
    reveal(Seq::filter);
    assert(s.take(i + 1).drop_last() =~= s.take(i));
}

/// Filtering nothing.
pub proof fn lemma_filter_none<T>(s: Seq<T>, pred: spec_fn(T) -> bool)
    ensures
        s.take(0).filter(pred) == Seq::<T>::empty(),
{
    reveal(Seq::filter);
    assert(s.take(0) =~= Seq::empty());
}

/// What a filter keeps: items that were there and satisfy the predicate.
pub proof fn lemma_filter_item<T>(s: Seq<T>, pred: spec_fn(T) -> bool, i: int) -> (k: int)
    requires
        0 <= i < s.filter(pred).len(),
    ensures
        pred(s.filter(pred)[i]),
        0 <= k < s.len(),
        s[k] == s.filter(pred)[i],
{
    s.lemma_filter_pred(pred, i);
    assert(s.filter(pred).contains(s.filter(pred)[i]));
    s.lemma_filter_contains_rev(pred, s.filter(pred)[i]);
    choose|k: int| 0 <= k < s.len() && s[k] == s.filter(pred)[i]
}

/// A filter keeps an item that satisfies the predicate.
pub proof fn lemma_filter_keeps<T>(s: Seq<T>, pred: spec_fn(T) -> bool, k: int) -> (i: int)
    requires
        0 <= k < s.len(),
        pred(s[k]),
    ensures
        0 <= i < s.filter(pred).len(),
        s.filter(pred)[i] == s[k],
{
    s.lemma_filter_contains(pred, k);
    choose|i: int| 0 <= i < s.filter(pred).len() && s.filter(pred)[i] == s[k]
}

/// Filtering from the first item on.
pub proof fn lemma_filter_first<T>(s: Seq<T>, pred: spec_fn(T) -> bool)
    requires
        s.len() > 0,
    ensures
        s.filter(pred) == if pred(s[0]) {
            seq![s[0]] + s.skip(1).filter(pred)
        } else {
            s.skip(1).filter(pred)
        },
{
    let head = seq![s[0]];
    let none: Seq<T> = Seq::empty();
    assert(s =~= head + s.skip(1));
    Seq::filter_distributes_over_add(head, s.skip(1), pred);
    reveal(Seq::filter);
    assert(head.drop_last() =~= none);
    assert(none.filter(pred) =~= none);
    if pred(s[0]) {
        assert(head.filter(pred) =~= head);
    } else {
        assert(head.filter(pred) =~= none);
        assert(none + s.skip(1).filter(pred) =~= s.skip(1).filter(pred));
    }
}

/// The first item that satisfies the predicate is the first that a filter keeps.
pub proof fn lemma_filter_begins<T>(s: Seq<T>, pred: spec_fn(T) -> bool, k: int)
    requires
        0 <= k < s.len(),
        pred(s[k]),
        forall|j: int| 0 <= j < k ==> !pred(#[trigger] s[j]),
    ensures
        s.filter(pred).len() > 0,
        s.filter(pred)[0] == s[k],
    decreases k,
{
    lemma_filter_first(s, pred);
    if k > 0 {
        assert forall|j: int| 0 <= j < k - 1 implies !pred(#[trigger] s.skip(1)[j]) by {
            assert(s.skip(1)[j] == s[j + 1]);
        }
        lemma_filter_begins(s.skip(1), pred, k - 1);
    }
}

/// The last item that a filter keeps, with its place: no later one satisfies the predicate.
pub proof fn lemma_filter_last<T>(s: Seq<T>, pred: spec_fn(T) -> bool) -> (k: int)
    requires
        s.filter(pred).len() > 0,
    ensures
        0 <= k < s.len(),
        pred(s[k]),
        s.filter(pred).last() == s[k],
        forall|j: int| k < j < s.len() ==> !pred(#[trigger] s[j]),
    decreases s.len(),
{
    reveal(Seq::filter);
    if pred(s.last()) {
        s.len() - 1
    } else {
        let init = s.drop_last();
        let k = lemma_filter_last(init, pred);
        assert forall|j: int| k < j < s.len() implies !pred(#[trigger] s[j]) by {
            if j < init.len() {
                assert(init[j] == s[j]);
            }
        }
        k
    }
}

/// The first item that a filter keeps, with its place: no earlier one satisfies the predicate.
pub proof fn lemma_filter_head<T>(s: Seq<T>, pred: spec_fn(T) -> bool) -> (k: int)
    requires
        s.filter(pred).len() > 0,
    ensures
        0 <= k < s.len(),
        pred(s[k]),
        s.filter(pred)[0] == s[k],
        forall|j: int| 0 <= j < k ==> !pred(#[trigger] s[j]),
    decreases s.len(),
{
    reveal(Seq::filter);
    let init = s.drop_last();
    if init.filter(pred).len() > 0 {
        let k = lemma_filter_head(init, pred);
        assert forall|j: int| 0 <= j < k implies !pred(#[trigger] s[j]) by {
            assert(init[j] == s[j]);
        }
        k
    } else {
        assert forall|j: int| 0 <= j < s.len() - 1 implies !pred(#[trigger] s[j]) by {
            if pred(s[j]) {
                assert(init[j] == s[j]);
                let i = lemma_filter_keeps(init, pred, j);
            }
        }
        s.len() - 1
    }
}

} // verus!
