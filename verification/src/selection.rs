//! What it means that a list is a selection from another one.
use vstd::prelude::*;

verus! {

/// The positions ascend, and are just those of the items that are wanted.
pub open spec fn are_wanted_positions<T>(
    positions: Seq<int>,
    items: Seq<T>,
    wanted: spec_fn(T) -> bool,
) -> bool {
    &&& forall|j: int, k: int|
        0 <= j < k < positions.len() ==> (#[trigger] positions[j]) < (#[trigger] positions[k])
    &&& forall|k: int|
        0 <= k < positions.len() ==> 0 <= (#[trigger] positions[k]) < items.len() && wanted(
            items[positions[k]],
        )
    &&& forall|i: int|
        0 <= i < items.len() && wanted(#[trigger] items[i]) ==> positions.contains(i)
}

/// `result` holds the wanted items of `items`, each as often as there and all in their order, and
/// nothing else.
pub open spec fn keeps_just<T>(
    result: Seq<T>,
    items: Seq<T>,
    wanted: spec_fn(T) -> bool,
) -> bool {
    exists|positions: Seq<int>|
        #![trigger are_wanted_positions(positions, items, wanted)]
        are_wanted_positions(positions, items, wanted) && result.len() == positions.len() && forall|
            k: int,
        |
            0 <= k < result.len() ==> #[trigger] result[k] == items[positions[k]]
}

/// One more item: it comes last where it is wanted, and changes nothing where it is not.
pub proof fn lemma_one_more<T>(
    result: Seq<T>,
    items: Seq<T>,
    wanted: spec_fn(T) -> bool,
    item: T,
)
    requires
        keeps_just(result, items, wanted),
    ensures
        keeps_just(
            if wanted(item) {
                result.push(item)
            } else {
                result
            },
            items.push(item),
            wanted,
        ),
{
    let at = choose|positions: Seq<int>|
        #![trigger are_wanted_positions(positions, items, wanted)]
        are_wanted_positions(positions, items, wanted) && result.len() == positions.len() && forall|
            k: int,
        |
            0 <= k < result.len() ==> #[trigger] result[k] == items[positions[k]];
    let all = items.push(item);
    let next = if wanted(item) {
        at.push(items.len() as int)
    } else {
        at
    };
    assert forall|k: int| 0 <= k < next.len() implies 0 <= (#[trigger] next[k]) < all.len()
        && wanted(all[next[k]]) by {
        if k < at.len() {
            assert(next[k] == at[k]);
            assert(all[at[k]] == items[at[k]]);
        }
    }
    assert forall|j: int, k: int| 0 <= j < k < next.len() implies (#[trigger] next[j]) < (
    #[trigger] next[k]) by {
        assert(next[j] == at[j]);
        if k < at.len() {
            assert(next[k] == at[k]);
        }
    }
    assert forall|i: int| 0 <= i < all.len() && wanted(#[trigger] all[i]) implies next.contains(
        i,
    ) by {
        if i < items.len() {
            assert(all[i] == items[i]);
            let k = at.index_of(i);
            assert(at[k] == i);
            assert(next[k] == i);
        } else {
            assert(next[next.len() - 1] == i);
        }
    }
    assert(are_wanted_positions(next, all, wanted));
    let more = if wanted(item) {
        result.push(item)
    } else {
        result
    };
    assert forall|k: int| 0 <= k < more.len() implies #[trigger] more[k] == all[next[k]] by {
        if k < result.len() {
            assert(more[k] == result[k]);
            assert(next[k] == at[k]);
        }
    }
}

/// Nothing is selected from nothing.
pub proof fn lemma_nothing<T>(items: Seq<T>, wanted: spec_fn(T) -> bool)
    requires
        items.len() == 0,
    ensures
        keeps_just(Seq::<T>::empty(), items, wanted),
{
    let positions = Seq::<int>::empty();
    assert(are_wanted_positions(positions, items, wanted));
}

/// It is what is wanted that counts, not how that is put.
pub proof fn lemma_same_wanted<T>(
    result: Seq<T>,
    items: Seq<T>,
    wanted: spec_fn(T) -> bool,
    other: spec_fn(T) -> bool,
)
    requires
        keeps_just(result, items, wanted),
        forall|item: T| #[trigger] wanted(item) == other(item),
    ensures
        keeps_just(result, items, other),
{
    let at = choose|positions: Seq<int>|
        #![trigger are_wanted_positions(positions, items, wanted)]
        are_wanted_positions(positions, items, wanted) && result.len() == positions.len() && forall|
            k: int,
        |
            0 <= k < result.len() ==> #[trigger] result[k] == items[positions[k]];
    assert(are_wanted_positions(at, items, other));
}

/// Where everything is wanted, everything is kept.
pub proof fn lemma_everything<T>(items: Seq<T>, wanted: spec_fn(T) -> bool)
    requires
        forall|item: T| #[trigger] wanted(item),
    ensures
        keeps_just(items, items, wanted),
{
    let positions = Seq::new(items.len(), |i: int| i);
    assert forall|i: int| 0 <= i < items.len() && wanted(
        #[trigger] items[i],
    ) implies positions.contains(i) by {
        assert(positions[i] == i);
    }
    assert(are_wanted_positions(positions, items, wanted));
}

/// A selection has each wanted item as often as the list, and no other.
pub proof fn law_selections_keep_counts<T>(
    result: Seq<T>,
    items: Seq<T>,
    wanted: spec_fn(T) -> bool,
    item: T,
)
    requires
        keeps_just(result, items, wanted),
    ensures
        result.to_multiset().count(item) == if wanted(item) {
            items.to_multiset().count(item)
        } else {
            0
        },
    decreases items.len(),
{
    broadcast use vstd::seq_lib::group_to_multiset_ensures;

    let at = choose|positions: Seq<int>|
        #![trigger are_wanted_positions(positions, items, wanted)]
        are_wanted_positions(positions, items, wanted) && result.len() == positions.len() && forall|
            k: int,
        |
            0 <= k < result.len() ==> #[trigger] result[k] == items[positions[k]];
    if items.len() == 0 {
        if result.len() > 0 {
            assert(0 <= at[0] < items.len());
        }
        assert(result =~= Seq::empty());
        assert(items =~= Seq::empty());
    } else {
        let last = items.last();
        let rest = items.drop_last();
        assert(items =~= rest.push(last));
        if wanted(last) {
            let n = items.len() - 1;
            assert(at.contains(n));
            let k = at.index_of(n);
            assert(k == at.len() - 1) by {
                if k < at.len() - 1 {
                    assert(at[k] < at[at.len() - 1]);
                }
            }
            let before = at.drop_last();
            assert(result =~= result.drop_last().push(last)) by {
                assert(result[k] == items[at[k]]);
            }
            lemma_shorter(before, at, items, wanted, true);
            assert forall|j: int| 0 <= j < result.drop_last().len() implies #[trigger] (
            result.drop_last()[j]) == rest[before[j]] by {
                assert(result[j] == items[at[j]]);
                assert(before[j] == at[j]);
                assert(at[j] < at[k]);
            }
            law_selections_keep_counts(result.drop_last(), rest, wanted, item);
        } else {
            lemma_shorter(at, at, items, wanted, false);
            assert forall|j: int| 0 <= j < result.len() implies #[trigger] result[j]
                == rest[at[j]] by {
                assert(0 <= at[j] < rest.len());
            }
            law_selections_keep_counts(result, rest, wanted, item);
        }
    }
}

proof fn lemma_shorter<T>(
    before: Seq<int>,
    at: Seq<int>,
    items: Seq<T>,
    wanted: spec_fn(T) -> bool,
    kept: bool,
)
    requires
        items.len() > 0,
        are_wanted_positions(at, items, wanted),
        kept == wanted(items.last()),
        kept ==> at.len() > 0 && at.last() == items.len() - 1 && before == at.drop_last(),
        !kept ==> before == at,
    ensures
        are_wanted_positions(before, items.drop_last(), wanted),
{
    let rest = items.drop_last();
    assert forall|k: int| 0 <= k < before.len() implies 0 <= (#[trigger] before[k]) < rest.len()
        && wanted(rest[before[k]]) by {
        assert(before[k] == at[k]);
        if kept {
            assert(at[k] < at[at.len() - 1]);
        } else if at[k] == items.len() - 1 {
            assert(wanted(items[at[k]]));
        }
    }
    assert forall|j: int, k: int| 0 <= j < k < before.len() implies (#[trigger] before[j]) < (
    #[trigger] before[k]) by {
        assert(before[j] == at[j] && before[k] == at[k]);
    }
    assert forall|i: int| 0 <= i < rest.len() && wanted(
        #[trigger] rest[i],
    ) implies before.contains(i) by {
        assert(rest[i] == items[i]);
        let k = at.index_of(i);
        assert(at[k] == i);
        if kept {
            assert(k < at.len() - 1);
        }
        assert(before[k] == i);
    }
}

} // verus!
