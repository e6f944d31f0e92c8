//! Putting things in the order of their names.
use crate::text::comes_before;
use vstd::prelude::*;

verus! {

/// A list in order with one more item, behind those with the same name.
pub open spec fn placed<T>(sorted: Seq<T>, item: T, name: spec_fn(T) -> Seq<char>) -> Seq<T>
    decreases sorted.len(),
{
    if sorted.len() == 0 || !crate::text::before(name(item), name(sorted.last())) {
        sorted.push(item)
    } else {
        placed(sorted.drop_last(), item, name).push(sorted.last())
    }
}

/// The items in the order of their names, those with the same name in the order they had.
pub open spec fn in_order<T>(items: Seq<T>, name: spec_fn(T) -> Seq<char>) -> Seq<T>
    decreases items.len(),
{
    if items.len() == 0 {
        items
    } else {
        placed(in_order(items.drop_last(), name), items.last(), name)
    }
}

/// No name comes before an earlier one.
pub open spec fn is_ordered<T>(items: Seq<T>, name: spec_fn(T) -> Seq<char>) -> bool {
    forall|i: int, j: int|
        0 <= i < j < items.len() ==> !crate::text::before(
            name(#[trigger] items[j]),
            name(#[trigger] items[i]),
        )
}

/// A text stands for its own name.
pub open spec fn itself() -> spec_fn(Seq<char>) -> Seq<char> {
    |t: Seq<char>| t
}

/// An item belongs behind the last one whose name does not come after its own.
pub proof fn lemma_placed_at<T>(
    sorted: Seq<T>,
    item: T,
    name: spec_fn(T) -> Seq<char>,
    p: int,
)
    requires
        0 <= p <= sorted.len(),
        p > 0 ==> !crate::text::before(name(item), name(sorted[p - 1])),
        forall|j: int|
            p <= j < sorted.len() ==> crate::text::before(name(item), name(#[trigger] sorted[j])),
    ensures
        placed(sorted, item, name) == sorted.insert(p, item),
    decreases sorted.len(),
{
    if p == sorted.len() {
        assert(sorted.insert(p, item) =~= sorted.push(item));
    } else {
        let rest = sorted.drop_last();
        lemma_placed_at(rest, item, name, p);
        assert(sorted.insert(p, item) =~= rest.insert(p, item).push(sorted.last()));
    }
}

proof fn lemma_placed_ordered<T>(sorted: Seq<T>, item: T, name: spec_fn(T) -> Seq<char>)
    requires
        is_ordered(sorted, name),
    ensures
        is_ordered(placed(sorted, item, name), name),
        placed(sorted, item, name).to_multiset() == sorted.to_multiset().insert(item),
        placed(sorted, item, name).len() == sorted.len() + 1,
        forall|j: int|
            0 <= j <= sorted.len() ==> (#[trigger] placed(sorted, item, name)[j]) == item
                || sorted.contains(placed(sorted, item, name)[j]),
    decreases sorted.len(),
{
    broadcast use vstd::seq_lib::group_to_multiset_ensures;

    let all = placed(sorted, item, name);
    if sorted.len() == 0 || !crate::text::before(name(item), name(sorted.last())) {
        assert forall|i: int, j: int| 0 <= i < j < all.len() implies !crate::text::before(
            name(#[trigger] all[j]),
            name(#[trigger] all[i]),
        ) by {
            if j == sorted.len() && crate::text::before(name(item), name(sorted[i])) {
                let last = sorted.len() - 1;
                if i < last {
                    assert(!crate::text::before(name(sorted[last]), name(sorted[i])));
                    crate::text::lemma_before_total(name(sorted[last]), name(sorted[i]));
                    if name(sorted[last]) != name(sorted[i]) {
                        crate::text::lemma_before_transitive(
                            name(item),
                            name(sorted[i]),
                            name(sorted[last]),
                        );
                    }
                }
            }
        }
        assert forall|j: int| 0 <= j <= sorted.len() implies (#[trigger] all[j]) == item
            || sorted.contains(all[j]) by {
            if j < sorted.len() {
                assert(sorted[j] == all[j]);
            }
        }
    } else {
        let rest = sorted.drop_last();
        let last = sorted.last();
        let inner = placed(rest, item, name);
        lemma_placed_ordered(rest, item, name);
        assert(rest.push(last) =~= sorted);
        assert forall|i: int, j: int| 0 <= i < j < all.len() implies !crate::text::before(
            name(#[trigger] all[j]),
            name(#[trigger] all[i]),
        ) by {
            if j < inner.len() {
                assert(!crate::text::before(name(inner[j]), name(inner[i])));
            } else if inner[i] == item {
                crate::text::lemma_before_irreflexive(name(item));
                if crate::text::before(name(last), name(item)) {
                    crate::text::lemma_before_transitive(name(item), name(last), name(item));
                }
            } else {
                assert(rest.contains(inner[i]));
                let k = rest.index_of(inner[i]);
                assert(sorted[k] == inner[i] && sorted[sorted.len() - 1] == last);
            }
        }
        assert forall|j: int| 0 <= j <= sorted.len() implies (#[trigger] all[j]) == item
            || sorted.contains(all[j]) by {
            if j == sorted.len() {
                assert(sorted[sorted.len() - 1] == all[j]);
            } else if inner[j] != item {
                assert(rest.contains(inner[j]));
                let k = rest.index_of(inner[j]);
                assert(sorted[k] == inner[j]);
            }
        }
        assert(all.to_multiset() =~= sorted.to_multiset().insert(item));
    }
}

/// Ordering puts names in order, and neither adds an item nor loses one.
pub proof fn law_ordering_keeps_the_items<T>(items: Seq<T>, name: spec_fn(T) -> Seq<char>)
    ensures
        is_ordered(in_order(items, name), name),
        in_order(items, name).to_multiset() == items.to_multiset(),
        in_order(items, name).len() == items.len(),
    decreases items.len(),
{
    broadcast use vstd::seq_lib::group_to_multiset_ensures;

    if items.len() > 0 {
        law_ordering_keeps_the_items(items.drop_last(), name);
        lemma_placed_ordered(in_order(items.drop_last(), name), items.last(), name);
        assert(items.drop_last().push(items.last()) =~= items);
    }
}

/// No two items have the same name.
pub open spec fn names_differ<T>(items: Seq<T>, name: spec_fn(T) -> Seq<char>) -> bool {
    forall|i: int, j: int|
        0 <= i < j < items.len() ==> name(#[trigger] items[i]) != name(#[trigger] items[j])
}

/// Every item comes before those behind it.
pub open spec fn is_strictly_ordered<T>(items: Seq<T>, name: spec_fn(T) -> Seq<char>) -> bool {
    forall|i: int, j: int|
        0 <= i < j < items.len() ==> crate::text::before(
            name(#[trigger] items[i]),
            name(#[trigger] items[j]),
        )
}

/// Items whose names differ are put in strict order.
pub proof fn law_different_names_ascend<T>(items: Seq<T>, name: spec_fn(T) -> Seq<char>)
    requires
        names_differ(items, name),
    ensures
        is_strictly_ordered(in_order(items, name), name),
{
    broadcast use vstd::seq_lib::group_to_multiset_ensures;

    let sorted = in_order(items, name);
    law_ordering_keeps_the_items(items, name);
    assert(items.no_duplicates());
    items.lemma_multiset_has_no_duplicates();
    sorted.lemma_multiset_has_no_duplicates_conv();
    assert forall|i: int, j: int| 0 <= i < j < sorted.len() implies crate::text::before(
        name(#[trigger] sorted[i]),
        name(#[trigger] sorted[j]),
    ) by {
        let x = sorted[i];
        let y = sorted[j];
        assert(x != y);
        assert(sorted.contains(x) && sorted.contains(y));
        assert(items.to_multiset().count(x) > 0 && items.to_multiset().count(y) > 0);
        let a = items.index_of(x);
        let b = items.index_of(y);
        assert(items[a] == x && items[b] == y);
        assert(name(x) != name(y));
        crate::text::lemma_before_total(name(x), name(y));
    }
}

/// The place of `name` among texts in order.
fn place_among(sorted: &Vec<String>, name: &str) -> (p: usize)
    ensures
        p <= sorted@.len(),
        p > 0 ==> !crate::text::before(name@, sorted@[p - 1]@),
        forall|j: int|
            p <= j < sorted@.len() ==> crate::text::before(name@, (#[trigger] sorted@[j])@),
{
    let mut p: usize = sorted.len();
    while p > 0 && comes_before(name, sorted[p - 1].as_str())
        invariant
            p <= sorted@.len(),
            forall|j: int|
                p <= j < sorted@.len() ==> crate::text::before(name@, (#[trigger] sorted@[j])@),
        decreases p,
    {
        p -= 1;
    }
    p
}

/// The texts in order.
pub fn sort_texts(items: &Vec<String>) -> (sorted: Vec<String>)
    ensures
        crate::text::texts(sorted@) == in_order(crate::text::texts(items@), itself()),
{
    let ghost all = crate::text::texts(items@);
    let mut sorted: Vec<String> = Vec::new();
    let mut i: usize = 0;
    assert(all.take(0).len() == 0);
    assert(crate::text::texts(sorted@) =~= in_order(all.take(0), itself()));
    while i < items.len()
        invariant
            i <= items@.len(),
            all == crate::text::texts(items@),
            crate::text::texts(sorted@) == in_order(all.take(i as int), itself()),
        decreases items@.len() - i,
    {
        let ghost before = crate::text::texts(sorted@);
        let p = place_among(&sorted, items[i].as_str());
        proof {
            assert(all.take(i + 1).drop_last() =~= all.take(i as int));
            assert(all.take(i + 1).last() == items@[i as int]@);
            assert forall|j: int| p <= j < before.len() implies crate::text::before(
                itself()(items@[i as int]@),
                itself()(#[trigger] before[j]),
            ) by {
                assert(before[j] == sorted@[j]@);
            }
            if p > 0 {
                assert(before[p - 1] == sorted@[p - 1]@);
            }
            lemma_placed_at(before, items@[i as int]@, itself(), p as int);
        }
        sorted.insert(p, items[i].clone());
        assert(crate::text::texts(sorted@) =~= before.insert(p as int, items@[i as int]@));
        i += 1;
    }
    assert(all.take(i as int) =~= all);
    sorted
}

} // verus!
