//! Putting lists in order.
//!
//! One stable sort serves the whole library. What it computes is stated by
//! insertion: each item in turn goes behind everything it does not come before.

use vstd::prelude::*;

use crate::strings;

verus! {

/// `items` with `item` placed behind the last one it does not come before.
pub open spec fn inserted<V>(items: Seq<V>, item: V, before: spec_fn(V, V) -> bool) -> Seq<V>
    decreases items.len(),
{
    if items.len() > 0 && before(item, items.last()) {
        inserted(items.drop_last(), item, before).push(items.last())
    } else {
        items.push(item)
    }
}

/// `items` in order, those that tie in the order in which they came.
pub open spec fn arranged<V>(items: Seq<V>, before: spec_fn(V, V) -> bool) -> Seq<V>
    decreases items.len(),
{
    if items.len() == 0 {
        Seq::empty()
    } else {
        inserted(arranged(items.drop_last(), before), items.last(), before)
    }
}

/// Nothing in `items` comes before something that stands in front of it.
pub open spec fn in_order<V>(items: Seq<V>, before: spec_fn(V, V) -> bool) -> bool {
    forall|i: int, j: int| 0 <= i < j < items.len() ==> !before(#[trigger] items[j], #[trigger] items[i])
}

/// What a comparison must satisfy for sorting by it to make sense: nothing
/// comes before itself, coming before chains, and so does not coming before.
pub open spec fn is_ordering<V>(before: spec_fn(V, V) -> bool) -> bool {
    &&& forall|a: V| !#[trigger] before(a, a)
    &&& forall|a: V, b: V, c: V| #[trigger]
        before(a, b) && #[trigger] before(b, c) ==> before(a, c)
    &&& forall|a: V, b: V, c: V| !#[trigger]
        before(a, b) && !#[trigger] before(b, c) ==> !before(a, c)
}

/// Sorts a list. The sort is stable.
pub fn arrange<T: View, F: Fn(&T, &T) -> bool>(
    items: Vec<T>,
    goes_before: F,
    Ghost(before): Ghost<spec_fn(T::V, T::V) -> bool>,
) -> (out: Vec<T>)
    requires
        forall|a: &T, b: &T| #[trigger] goes_before.requires((a, b)),
        forall|a: &T, b: &T, r: bool| #[trigger]
            goes_before.ensures((a, b), r) ==> r == before(a@, b@),
    ensures
        strings::views(out@) == arranged(strings::views(items@), before),
{
    broadcast use strings::group_lists;

    let ghost all = items@;
    let mut out: Vec<T> = Vec::new();
    for item in it: items
        invariant
            forall|a: &T, b: &T| #[trigger] goes_before.requires((a, b)),
            forall|a: &T, b: &T, r: bool| #[trigger]
                goes_before.ensures((a, b), r) ==> r == before(a@, b@),
            it.seq() == all,
            strings::views(out@) == arranged(strings::views(all.take(it.index() as int)), before),
    {
        broadcast use strings::group_lists;

        let ghost kept = strings::views(out@);
        let ghost new = item@;
        let mut at: usize = out.len();
        assert(kept.take(kept.len() as int) =~= kept);
        assert(kept.skip(kept.len() as int) =~= Seq::empty());
        assert(inserted(kept, new, before) =~= inserted(kept, new, before) + Seq::empty());
        while at > 0 && goes_before(&item, &out[at - 1])
            invariant
                at <= out@.len(),
                kept == strings::views(out@),
                new == item@,
                forall|a: &T, b: &T| #[trigger] goes_before.requires((a, b)),
                forall|a: &T, b: &T, r: bool| #[trigger]
                    goes_before.ensures((a, b), r) ==> r == before(a@, b@),
                inserted(kept, new, before) == inserted(kept.take(at as int), new, before)
                    + kept.skip(at as int),
            decreases at,
        {
            proof {
                let front = kept.take(at as int);
                assert(before(new, front.last()));
                assert(front.drop_last() =~= kept.take(at - 1));
                assert(inserted(front, new, before) + kept.skip(at as int) =~= inserted(
                    front.drop_last(),
                    new,
                    before,
                ) + kept.skip(at - 1));
            }
            at = at - 1;
        }
        proof {
            let front = kept.take(at as int);
            if at > 0 {
                assert(front.last() == out@[at - 1]@);
            }
            assert(inserted(front, new, before) == front.push(new));
            assert(strings::views(out@.insert(at as int, item)) =~= front.push(new) + kept.skip(
                at as int,
            ));
            let seen = strings::views(all.take(it.index() + 1));
            assert(seen.drop_last() =~= strings::views(all.take(it.index() as int)));
        }
        out.insert(at, item);
    }
    out
}

proof fn lemma_inserted<V>(items: Seq<V>, item: V, before: spec_fn(V, V) -> bool)
    ensures
        inserted(items, item, before).len() == items.len() + 1,
        inserted(items, item, before).to_multiset() == items.to_multiset().insert(item),
        is_ordering(before) && in_order(items, before) ==> in_order(
            inserted(items, item, before),
            before,
        ),
        exists|at: int|
            0 <= at <= items.len() && #[trigger] items.insert(at, item) == inserted(
                items,
                item,
                before,
            ) && (forall|i: int| at <= i < items.len() ==> before(item, #[trigger] items[i])),
    decreases items.len(),
{
    broadcast use vstd::seq_lib::group_to_multiset_ensures;

    if items.len() > 0 && before(item, items.last()) {
        let rest = items.drop_last();
        lemma_inserted(rest, item, before);
        let out = inserted(rest, item, before);
        let last = items.last();
        assert(rest.push(last) =~= items);
        assert(out.push(last).to_multiset() =~= rest.to_multiset().insert(item).insert(last));
        assert(items.to_multiset() == rest.to_multiset().insert(last));
        assert(rest.to_multiset().insert(item).insert(last) =~= rest.to_multiset().insert(
            last,
        ).insert(item));
        let at = choose|at: int|
            0 <= at <= rest.len() && #[trigger] rest.insert(at, item) == out && (forall|i: int|
                at <= i < rest.len() ==> before(item, #[trigger] rest[i]));
        assert(items.insert(at, item) =~= out.push(last));
        if is_ordering(before) && in_order(items, before) {
            assert(in_order(rest, before)) by {
                assert forall|i: int, j: int| 0 <= i < j < rest.len() implies !before(
                    #[trigger] rest[j],
                    #[trigger] rest[i],
                ) by {
                    assert(rest[j] == items[j] && rest[i] == items[i]);
                }
            }
            assert forall|i: int, j: int| 0 <= i < j < out.push(last).len() implies !before(
                #[trigger] out.push(last)[j],
                #[trigger] out.push(last)[i],
            ) by {
                if j == out.len() {
                    if i < at {
                        assert(out[i] == items[i]);
                        assert(last == items[items.len() - 1]);
                    } else if i == at {
                        if before(last, item) {
                            assert(before(item, item));
                        }
                    } else {
                        assert(out[i] == items[i - 1]);
                        assert(last == items[items.len() - 1]);
                    }
                }
            }
        }
        assert forall|i: int| at <= i < items.len() implies before(item, #[trigger] items[i]) by {
            if i < rest.len() {
                assert(items[i] == rest[i]);
            }
        }
    } else {
        assert(items.insert(items.len() as int, item) =~= items.push(item));
        if is_ordering(before) && in_order(items, before) {
            assert forall|i: int, j: int| 0 <= i < j < items.push(item).len() implies !before(
                #[trigger] items.push(item)[j],
                #[trigger] items.push(item)[i],
            ) by {
                if j == items.len() && i < items.len() - 1 {
                    assert(!before(items[items.len() - 1], items[i]));
                }
            }
        }
    }
}

/// Sorting keeps every item, as often as it occurs, and adds none.
pub proof fn law_arranged_keeps_items<V>(items: Seq<V>, before: spec_fn(V, V) -> bool)
    ensures
        arranged(items, before).len() == items.len(),
        arranged(items, before).to_multiset() == items.to_multiset(),
    decreases items.len(),
{
    broadcast use vstd::seq_lib::group_to_multiset_ensures;

    if items.len() > 0 {
        law_arranged_keeps_items(items.drop_last(), before);
        lemma_inserted(arranged(items.drop_last(), before), items.last(), before);
        assert(items.drop_last().push(items.last()) =~= items);
    } else {
        assert(items =~= Seq::empty());
    }
}

/// An item that was there is there after sorting.
pub proof fn lemma_arranged_contains<V>(items: Seq<V>, before: spec_fn(V, V) -> bool, item: V)
    requires
        items.contains(item),
    ensures
        arranged(items, before).contains(item),
{
    broadcast use vstd::seq_lib::group_to_multiset_ensures;

    law_arranged_keeps_items(items, before);
    assert(items.to_multiset().contains(item));
    assert(arranged(items, before).to_multiset().contains(item));
}

proof fn lemma_inserted_alike<V>(
    a: Seq<V>,
    b: Seq<V>,
    x: V,
    y: V,
    alike: spec_fn(V, V) -> bool,
    before: spec_fn(V, V) -> bool,
)
    requires
        pairwise(a, b, alike),
        alike(x, y),
        forall|p: V, q: V, r: V, s: V| #[trigger]
            alike(p, r) && #[trigger] alike(q, s) ==> before(p, q) == before(r, s),
    ensures
        pairwise(inserted(a, x, before), inserted(b, y, before), alike),
    decreases a.len(),
{
    if a.len() > 0 {
        assert(alike(a.last(), b.last()));
        if before(x, a.last()) {
            let (c, d) = (a.drop_last(), b.drop_last());
            assert(pairwise(c, d, alike)) by {
                assert forall|i: int| 0 <= i < c.len() implies alike(#[trigger] c[i], d[i]) by {
                    assert(alike(a[i], b[i]));
                }
            }
            lemma_inserted_alike(c, d, x, y, alike, before);
        }
    }
}

/// Whether two lists are as long as each other and alike item by item.
pub open spec fn pairwise<V>(a: Seq<V>, b: Seq<V>, alike: spec_fn(V, V) -> bool) -> bool {
    a.len() == b.len() && forall|i: int| 0 <= i < a.len() ==> alike(#[trigger] a[i], b[i])
}

/// Sorting two lists that are alike gives lists that are alike, where the
/// comparison does not tell alike items apart.
pub proof fn lemma_arranged_alike<V>(
    a: Seq<V>,
    b: Seq<V>,
    alike: spec_fn(V, V) -> bool,
    before: spec_fn(V, V) -> bool,
)
    requires
        pairwise(a, b, alike),
        forall|p: V, q: V, r: V, s: V| #[trigger]
            alike(p, r) && #[trigger] alike(q, s) ==> before(p, q) == before(r, s),
    ensures
        pairwise(arranged(a, before), arranged(b, before), alike),
    decreases a.len(),
{
    if a.len() > 0 {
        let (c, d) = (a.drop_last(), b.drop_last());
        assert(pairwise(c, d, alike)) by {
            assert forall|i: int| 0 <= i < c.len() implies alike(#[trigger] c[i], d[i]) by {
                assert(alike(a[i], b[i]));
            }
        }
        lemma_arranged_alike(c, d, alike, before);
        assert(alike(a.last(), b.last()));
        lemma_inserted_alike(
            arranged(c, before),
            arranged(d, before),
            a.last(),
            b.last(),
            alike,
            before,
        );
    }
}

/// What the sort returns is in order.
pub proof fn law_arranged_is_in_order<V>(items: Seq<V>, before: spec_fn(V, V) -> bool)
    requires
        is_ordering(before),
    ensures
        in_order(arranged(items, before), before),
    decreases items.len(),
{
    if items.len() > 0 {
        law_arranged_is_in_order(items.drop_last(), before);
        lemma_inserted(arranged(items.drop_last(), before), items.last(), before);
    }
}

/// Sorting a list that is in order changes nothing, so items that tie keep
/// their places.
pub proof fn law_arranged_is_stable<V>(items: Seq<V>, before: spec_fn(V, V) -> bool)
    requires
        in_order(items, before),
    ensures
        arranged(items, before) == items,
    decreases items.len(),
{
    if items.len() > 0 {
        let rest = items.drop_last();
        assert forall|i: int, j: int| 0 <= i < j < rest.len() implies !before(
            #[trigger] rest[j],
            #[trigger] rest[i],
        ) by {
            assert(rest[j] == items[j] && rest[i] == items[i]);
        }
        law_arranged_is_stable(rest, before);
        if rest.len() > 0 {
            assert(!before(items[items.len() - 1], items[items.len() - 2]));
            assert(rest.last() == items[items.len() - 2]);
        }
        assert(rest.push(items.last()) =~= items);
    } else {
        assert(items =~= Seq::empty());
    }
}

} // verus!
