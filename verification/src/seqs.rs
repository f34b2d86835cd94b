//! Selecting and arranging the items of a vector.

use crate::models::Duplicate;
use crate::order::{arranged, is_stable_order, key_views, stable_order, the_stable_order};
use vstd::prelude::*;

verus! {

/// The items of `items` whose mark in `mask` is set, in order.
pub open spec fn masked<T>(items: Seq<T>, mask: Seq<bool>) -> Seq<T>
    recommends
        items.len() == mask.len(),
    decreases items.len(),
{
    if items.len() == 0 || mask.len() == 0 {
        Seq::empty()
    } else if mask.last() {
        masked(items.drop_last(), mask.drop_last()).push(items.last())
    } else {
        masked(items.drop_last(), mask.drop_last())
    }
}

/// Selecting by a mask that marks the items that meet `pred` is filtering
/// by `pred`.
pub proof fn lemma_masked_is_filter<T>(items: Seq<T>, mask: Seq<bool>, pred: spec_fn(T) -> bool)
    requires
        items.len() == mask.len(),
        forall|i: int| 0 <= i < items.len() ==> mask[i] == pred(#[trigger] items[i]),
    ensures
        masked(items, mask) == items.filter(pred),
    decreases items.len(),
{
    reveal(Seq::filter);
    if items.len() > 0 {
        let a = items.drop_last();
        let m = mask.drop_last();
        assert forall|i: int| 0 <= i < a.len() implies m[i] == pred(#[trigger] a[i]) by {
            assert(a[i] == items[i]);
        }
        lemma_masked_is_filter(a, m, pred);
    } else {
        assert(items.filter(pred) =~= Seq::<T>::empty());
    }
}

/// Copies of the items of `items` whose mark in `mask` is set, in order.
pub fn pick_by_mask<T: Duplicate>(items: &Vec<T>, mask: &Vec<bool>) -> (out: Vec<T>)
    requires
        items.len() == mask.len(),
    ensures
        out@ == masked(items@, mask@),
{
    let mut out: Vec<T> = Vec::new();
    let mut i: usize = 0;
    while i < items.len()
        invariant
            i <= items.len(),
            items.len() == mask.len(),
            out@ == masked(items@.take(i as int), mask@.take(i as int)),
        decreases items.len() - i,
    {
        proof {
            assert(items@.take(i + 1).drop_last() == items@.take(i as int));
            assert(mask@.take(i + 1).drop_last() == mask@.take(i as int));
            assert(items@.take(i + 1).last() == items@[i as int]);
            assert(mask@.take(i + 1).last() == mask@[i as int]);
        }
        if mask[i] {
            out.push(items[i].duplicate());
        }
        i = i + 1;
    }
    proof {
        assert(items@.take(items@.len() as int) == items@);
        assert(mask@.take(mask@.len() as int) == mask@);
    }
    out
}

/// Copies of the items of `items` by ascending key, items with the same
/// key in the order in which they are given; `keys[i]` is the key of
/// `items[i]`.
pub fn arrange<T: Duplicate>(items: &Vec<T>, keys: &Vec<Vec<i128>>) -> (out: Vec<T>)
    requires
        items.len() == keys.len(),
    ensures
        out@ == arranged(items@, key_views(keys@)),
        out@.len() == items@.len(),
        is_stable_order(key_views(keys@), the_stable_order(key_views(keys@))),
{
    let order = stable_order(keys);
    let mut out: Vec<T> = Vec::new();
    let mut k: usize = 0;
    while k < order.len()
        invariant
            k <= order.len(),
            order@.len() == items@.len(),
            forall|i: int| 0 <= i < order@.len() ==> (#[trigger] order@[i]) < items@.len(),
            out@.len() == k,
            forall|i: int| 0 <= i < k ==> out@[i] == items@[order@[i] as int],
        decreases order.len() - k,
    {
        out.push(items[order[k]].duplicate());
        k = k + 1;
    }
    assert(out@ =~= arranged(items@, key_views(keys@)));
    out
}

/// Every item of an arranged listing is an item of the listing it was made
/// from, and every item of that listing is in the arranged one.
pub proof fn lemma_arranged_same_items<T>(items: Seq<T>, keys: Seq<Seq<int>>)
    requires
        items.len() == keys.len(),
        is_stable_order(keys, the_stable_order(keys)),
    ensures
        arranged(items, keys).len() == items.len(),
        forall|k: int|
            0 <= k < items.len() ==> items.contains(#[trigger] arranged(items, keys)[k]),
        forall|j: int|
            0 <= j < items.len() ==> arranged(items, keys).contains(#[trigger] items[j]),
{
    let order = the_stable_order(keys);
    let out = arranged(items, keys);
    assert forall|k: int| 0 <= k < items.len() implies items.contains(#[trigger] out[k]) by {
        assert(order[k] < keys.len());
        assert(items[order[k] as int] == out[k]);
    }
    assert forall|j: int| 0 <= j < items.len() implies out.contains(#[trigger] items[j]) by {
        crate::order::lemma_index_is_listed(order, keys.len(), j);
        let k = choose|k: int| 0 <= k < order.len() && order[k] == j;
        assert(out[k] == items[j]);
    }
}

/// Arranging a listing in which no two items have the same mark gives a
/// listing in which no two items have the same mark.
pub proof fn lemma_arranged_keeps_distinct<T>(
    items: Seq<T>,
    keys: Seq<Seq<int>>,
    mark: spec_fn(T) -> int,
)
    requires
        items.len() == keys.len(),
        is_stable_order(keys, the_stable_order(keys)),
        forall|i: int, j: int|
            0 <= i < j < items.len() ==> mark(#[trigger] items[i]) != mark(#[trigger] items[j]),
    ensures
        forall|i: int, j: int|
            0 <= i < j < items.len() ==> mark(#[trigger] arranged(items, keys)[i]) != mark(
                #[trigger] arranged(items, keys)[j],
            ),
{
    let order = the_stable_order(keys);
    let out = arranged(items, keys);
    assert forall|i: int, j: int| 0 <= i < j < items.len() implies mark(#[trigger] out[i])
        != mark(#[trigger] out[j]) by {
        let x = order[i] as int;
        let y = order[j] as int;
        assert(order[i] != order[j]);
        assert(order[i] < keys.len() && order[j] < keys.len());
        assert(out[i] == items[x] && out[j] == items[y]);
        if x < y {
            assert(mark(items[x]) != mark(items[y]));
        } else {
            assert(mark(items[y]) != mark(items[x]));
        }
    }
}

/// The first `n` items of `items`, or all of them where there are fewer.
pub open spec fn first_n<T>(items: Seq<T>, n: nat) -> Seq<T> {
    if n < items.len() {
        items.take(n as int)
    } else {
        items
    }
}

} // verus!
