//! Facts about sequences.
use vstd::prelude::*;

verus! {

/// What a filter leaves of distinct items is distinct.
pub proof fn lemma_filter_keeps_distinct<A>(items: Seq<A>, kept: spec_fn(A) -> bool)
    requires
        items.no_duplicates(),
    ensures
        items.filter(kept).no_duplicates(),
    decreases items.len(),
{
    reveal(Seq::filter);
    if items.len() > 0 {
        let shorter = items.drop_last();
        lemma_filter_keeps_distinct(shorter, kept);
        if kept(items.last()) {
            assert forall|i: int| 0 <= i < shorter.filter(kept).len() implies shorter.filter(
                kept,
            )[i] != items.last() by {
                assert(shorter.filter(kept).contains(shorter.filter(kept)[i]));
                shorter.lemma_filter_contains_rev(kept, shorter.filter(kept)[i]);
            }
        }
    }
}

/// What a filter leaves is what was there and is kept.
pub proof fn lemma_filter_contains<A>(items: Seq<A>, kept: spec_fn(A) -> bool, item: A)
    ensures
        items.filter(kept).contains(item) == (items.contains(item) && kept(item)),
{
    if items.filter(kept).contains(item) {
        items.lemma_filter_contains_rev(kept, item);
        let i = choose|i: int| 0 <= i < items.filter(kept).len() && items.filter(kept)[i] == item;
        items.lemma_filter_pred(kept, i);
    }
    if items.contains(item) && kept(item) {
        let i = choose|i: int| 0 <= i < items.len() && items[i] == item;
        items.lemma_filter_contains(kept, i);
    }
}

/// A filter that drops none of the items leaves all of them.
pub proof fn lemma_filter_keeps_all<A>(items: Seq<A>, kept: spec_fn(A) -> bool)
    requires
        forall|i: int| 0 <= i < items.len() ==> kept(#[trigger] items[i]),
    ensures
        items.filter(kept) == items,
    decreases items.len(),
{
    reveal(Seq::filter);
    if items.len() > 0 {
        assert(kept(items[items.len() - 1]));
        lemma_filter_keeps_all(items.drop_last(), kept);
        assert(items.drop_last().push(items.last()) =~= items);
    }
}

/// How what a filter leaves grows with the part of the items looked at.
pub proof fn lemma_filter_grows<A>(items: Seq<A>, n: int, kept: spec_fn(A) -> bool)
    requires
        0 <= n < items.len(),
    ensures
        items.take(n + 1).filter(kept) == (if kept(items[n]) {
            items.take(n).filter(kept).push(items[n])
        } else {
            items.take(n).filter(kept)
        }),
{
    reveal(Seq::filter);
    assert(items.take(n + 1).drop_last() =~= items.take(n));
}

/// Where the elements that a filter keeps stand: in their order, each at a place of
/// its own, and every element that the filter is for is among them.
pub proof fn lemma_filter_places<A>(s: Seq<A>, p: spec_fn(A) -> bool) -> (places: Seq<int>)
    ensures
        places.len() == s.filter(p).len(),
        forall|j: int|
            0 <= j < places.len() ==> 0 <= #[trigger] places[j] < s.len() && s[places[j]]
                == s.filter(p)[j] && p(s[places[j]]),
        forall|j: int, k: int| 0 <= j < k < places.len() ==> places[j] < places[k],
        forall|i: int| 0 <= i < s.len() && p(s[i]) ==> #[trigger] places.contains(i),
    decreases s.len(),
{
    reveal(Seq::filter);
    if s.len() == 0 {
        Seq::empty()
    } else {
        let shorter = s.drop_last();
        let n = shorter.len() as int;
        let before = lemma_filter_places(shorter, p);
        let kept = shorter.filter(p);
        assert forall|j: int| 0 <= j < before.len() implies 0 <= #[trigger] before[j] < n
            && s[before[j]] == kept[j] && p(s[before[j]]) by {
            assert(shorter[before[j]] == s[before[j]]);
        }
        if p(s.last()) {
            let places = before.push(n);
            assert(s.filter(p) =~= kept.push(s.last()));
            assert forall|i: int| 0 <= i < s.len() && p(s[i]) implies #[trigger] places.contains(
                i,
            ) by {
                if i < n {
                    assert(shorter[i] == s[i]);
                    assert(before.contains(i));
                    let j = choose|j: int| 0 <= j < before.len() && before[j] == i;
                    assert(places[j] == i);
                } else {
                    assert(places[before.len() as int] == i);
                }
            }
            places
        } else {
            assert(s.filter(p) =~= kept);
            assert forall|i: int| 0 <= i < s.len() && p(s[i]) implies #[trigger] before.contains(
                i,
            ) by {
                assert(shorter[i] == s[i]);
            }
            before
        }
    }
}

} // verus!
