//! Stable ordering of items by a key.
//!
//! A key is a sequence of integers, compared position by position; a proper
//! prefix comes first. One number, a pair and a text are all such keys, so
//! every ordered listing of the crate goes through `stable_order`.

use vstd::prelude::*;

verus! {

/// `a` comes no later than `b`.
pub open spec fn lex_le(a: Seq<int>, b: Seq<int>) -> bool
    decreases a.len(),
{
    if a.len() == 0 {
        true
    } else if b.len() == 0 {
        false
    } else if a[0] < b[0] {
        true
    } else if a[0] > b[0] {
        false
    } else {
        lex_le(a.drop_first(), b.drop_first())
    }
}

pub proof fn lemma_lex_total(a: Seq<int>, b: Seq<int>)
    ensures
        lex_le(a, b) || lex_le(b, a),
    decreases a.len(),
{
    if a.len() > 0 && b.len() > 0 && a[0] == b[0] {
        lemma_lex_total(a.drop_first(), b.drop_first());
    }
}

pub proof fn lemma_lex_reflexive(a: Seq<int>)
    ensures
        lex_le(a, a),
    decreases a.len(),
{
    if a.len() > 0 {
        lemma_lex_reflexive(a.drop_first());
    }
}

pub proof fn lemma_lex_transitive(a: Seq<int>, b: Seq<int>, c: Seq<int>)
    requires
        lex_le(a, b),
        lex_le(b, c),
    ensures
        lex_le(a, c),
    decreases a.len(),
{
    if a.len() > 0 && b.len() > 0 && c.len() > 0 && a[0] == b[0] && b[0] == c[0] {
        lemma_lex_transitive(a.drop_first(), b.drop_first(), c.drop_first());
    }
}

pub proof fn lemma_lex_antisymmetric(a: Seq<int>, b: Seq<int>)
    requires
        lex_le(a, b),
        lex_le(b, a),
    ensures
        a == b,
    decreases a.len(),
{
    if a.len() > 0 && b.len() > 0 {
        lemma_lex_antisymmetric(a.drop_first(), b.drop_first());
        assert(a == seq![a[0]] + a.drop_first());
        assert(b == seq![b[0]] + b.drop_first());
    } else {
        assert(a.len() == 0 && b.len() == 0);
        assert(a =~= b);
    }
}

/// The numbers of a key as integers.
pub open spec fn ints(key: Seq<i128>) -> Seq<int> {
    Seq::new(key.len(), |i: int| key[i] as int)
}

/// Whether `a` comes no later than `b`.
pub fn key_le(a: &Vec<i128>, b: &Vec<i128>) -> (r: bool)
    ensures
        r == lex_le(ints(a@), ints(b@)),
{
    let ghost x = ints(a@);
    let ghost y = ints(b@);
    let mut i: usize = 0;
    proof {
        assert(x.skip(0) == x);
        assert(y.skip(0) == y);
    }
    while i < a.len() && i < b.len()
        invariant
            i <= a.len(),
            i <= b.len(),
            x == ints(a@),
            y == ints(b@),
            lex_le(x, y) == lex_le(x.skip(i as int), y.skip(i as int)),
        decreases a.len() - i,
    {
        proof {
            assert(x.skip(i as int)[0] == a@[i as int]);
            assert(y.skip(i as int)[0] == b@[i as int]);
            assert(x.skip(i as int).drop_first() == x.skip(i + 1));
            assert(y.skip(i as int).drop_first() == y.skip(i + 1));
        }
        if a[i] < b[i] {
            return true;
        }
        if a[i] > b[i] {
            return false;
        }
        i = i + 1;
    }
    proof {
        if i == a.len() {
            assert(x.skip(i as int).len() == 0);
        } else {
            assert(y.skip(i as int).len() == 0);
            assert(x.skip(i as int).len() > 0);
        }
    }
    i == a.len()
}

/// Index `x` is listed before index `y`: its key comes first, or the keys
/// are the same and `x` is the smaller index.
pub open spec fn comes_before(keys: Seq<Seq<int>>, x: int, y: int) -> bool {
    lex_le(keys[x], keys[y]) && (lex_le(keys[y], keys[x]) ==> x < y)
}

/// `order` lists each index below `n` exactly once.
pub open spec fn lists_each_index_once(order: Seq<usize>, n: nat) -> bool {
    &&& order.len() == n
    &&& forall|i: int| 0 <= i < order.len() ==> (#[trigger] order[i]) < n
    &&& forall|i: int, j: int| 0 <= i < j < order.len() ==> order[i] != order[j]
}

/// `order` lists the indices of `keys` by ascending key, items with the same
/// key in the order in which they are given. There is exactly one such
/// listing.
pub open spec fn is_stable_order(keys: Seq<Seq<int>>, order: Seq<usize>) -> bool {
    &&& lists_each_index_once(order, keys.len())
    &&& forall|i: int, j: int|
        0 <= i < j < order.len() ==> comes_before(keys, order[i] as int, order[j] as int)
}

/// The views of the keys.
pub open spec fn key_views(keys: Seq<Vec<i128>>) -> Seq<Seq<int>> {
    Seq::new(keys.len(), |i: int| ints(keys[i]@))
}

/// The one listing that meets `is_stable_order` for `keys`.
pub open spec fn the_stable_order(keys: Seq<Seq<int>>) -> Seq<usize> {
    choose|order: Seq<usize>| is_stable_order(keys, order)
}

/// Where index `k` goes into the listing `order` of smaller indices: after
/// the last of the first `p` entries whose key does not come after the key
/// of `k`.
pub open spec fn slot_for(keys: Seq<Seq<int>>, order: Seq<usize>, k: int, p: int) -> int
    decreases p,
{
    if 0 < p <= order.len() && !lex_le(keys[order[p - 1] as int], keys[k]) {
        slot_for(keys, order, k, p - 1)
    } else {
        p
    }
}

/// The listing of the first `n` indices of `keys` that is made by putting
/// each index in turn into its place among the smaller ones.
pub open spec fn built_order(keys: Seq<Seq<int>>, n: nat) -> Seq<usize>
    decreases n,
{
    if n == 0 {
        Seq::empty()
    } else {
        let before = built_order(keys, (n - 1) as nat);
        before.insert(slot_for(keys, before, n - 1, before.len() as int), (n - 1) as usize)
    }
}

proof fn lemma_slot_for(keys: Seq<Seq<int>>, order: Seq<usize>, k: int, p: int)
    requires
        0 <= p <= order.len(),
    ensures
        0 <= slot_for(keys, order, k, p) <= p,
        forall|j: int|
            slot_for(keys, order, k, p) <= j < p ==> !lex_le(
                keys[(#[trigger] order[j]) as int],
                keys[k],
            ),
        slot_for(keys, order, k, p) > 0 ==> lex_le(
            keys[order[slot_for(keys, order, k, p) - 1] as int],
            keys[k],
        ),
    decreases p,
{
    if 0 < p && !lex_le(keys[order[p - 1] as int], keys[k]) {
        lemma_slot_for(keys, order, k, p - 1);
    }
}

proof fn lemma_built_order(keys: Seq<Seq<int>>, n: nat)
    requires
        n <= keys.len(),
        n <= usize::MAX,
    ensures
        built_order(keys, n).len() == n,
        forall|i: int| 0 <= i < n ==> (#[trigger] built_order(keys, n)[i]) < n,
        forall|i: int, j: int|
            0 <= i < j < n ==> (#[trigger] built_order(keys, n)[i]) != (#[trigger] built_order(
                keys,
                n,
            )[j]) && comes_before(
                keys,
                built_order(keys, n)[i] as int,
                built_order(keys, n)[j] as int,
            ),
    decreases n,
{
    if n > 0 {
        let k = (n - 1) as int;
        lemma_built_order(keys, (n - 1) as nat);
        let before = built_order(keys, (n - 1) as nat);
        let p = slot_for(keys, before, k, before.len() as int);
        lemma_slot_for(keys, before, k, before.len() as int);
        let after = built_order(keys, n);
        assert(after == before.insert(p, k as usize));
        assert(after.len() == n);
        assert(after[p] == k as usize);
        assert(forall|i: int, j: int|
            0 <= i < j < before.len() ==> (#[trigger] before[i]) != (#[trigger] before[j])
                && comes_before(keys, before[i] as int, before[j] as int));
        assert forall|i: int| 0 <= i < n implies (#[trigger] after[i]) < n by {
            if i < p {
                assert(after[i] == before[i]);
            } else if i > p {
                assert(after[i] == before[i - 1]);
            }
        }
        assert forall|i: int, j: int| 0 <= i < j < n implies (#[trigger] after[i]) != (
        #[trigger] after[j]) && comes_before(keys, after[i] as int, after[j] as int) by {
            if j < p {
                assert(after[i] == before[i] && after[j] == before[j]);
            } else if i > p {
                assert(after[i] == before[i - 1] && after[j] == before[j - 1]);
            } else if i < p && j > p {
                assert(after[i] == before[i] && after[j] == before[j - 1]);
            } else if j == p {
                assert(after[i] == before[i]);
                assert(before[i] < k);
                assert(lex_le(keys[before[p - 1] as int], keys[k]));
                if i < p - 1 {
                    assert(comes_before(keys, before[i] as int, before[p - 1] as int));
                    lemma_lex_transitive(
                        keys[before[i] as int],
                        keys[before[p - 1] as int],
                        keys[k],
                    );
                }
            } else {
                assert(i == p);
                assert(after[j] == before[j - 1]);
                assert(before[j - 1] < k);
                assert(!lex_le(keys[before[j - 1] as int], keys[k]));
                lemma_lex_total(keys[before[j - 1] as int], keys[k]);
            }
        }
    }
}

/// Every list of keys that a machine can hold has a stable order: the
/// listing that `arranged` speaks of is there.
pub proof fn lemma_stable_order_exists(keys: Seq<Seq<int>>)
    requires
        keys.len() <= usize::MAX,
    ensures
        is_stable_order(keys, the_stable_order(keys)),
{
    lemma_built_order(keys, keys.len());
    let order = built_order(keys, keys.len());
    assert(lists_each_index_once(order, keys.len()));
    assert(is_stable_order(keys, order));
}

/// `items` listed by ascending key, items with the same key in the order
/// in which they are given; `keys[i]` is the key of `items[i]`.
pub open spec fn arranged<T>(items: Seq<T>, keys: Seq<Seq<int>>) -> Seq<T> {
    Seq::new(items.len(), |k: int| items[the_stable_order(keys)[k] as int])
}

/// The indices of `keys` by ascending key, items with the same key in the
/// order in which they are given.
pub fn stable_order(keys: &Vec<Vec<i128>>) -> (order: Vec<usize>)
    ensures
        is_stable_order(key_views(keys@), order@),
        order@ == the_stable_order(key_views(keys@)),
        key_views(keys@).len() == keys@.len(),
{
    let ghost kv = key_views(keys@);
    let mut order: Vec<usize> = Vec::new();
    let mut k: usize = 0;
    while k < keys.len()
        invariant
            k <= keys.len(),
            kv == key_views(keys@),
            order@.len() == k,
            forall|i: int| 0 <= i < order@.len() ==> (#[trigger] order@[i]) < k,
            forall|i: int, j: int| 0 <= i < j < order@.len() ==> order@[i] != order@[j],
            forall|i: int, j: int|
                0 <= i < j < order@.len() ==> comes_before(kv, order@[i] as int, order@[j] as int),
        decreases keys.len() - k,
    {
        let mut p: usize = order.len();
        while p > 0 && !key_le(&keys[order[p - 1]], &keys[k])
            invariant
                p <= order@.len(),
                k < keys.len(),
                kv == key_views(keys@),
                order@.len() == k,
                forall|i: int| 0 <= i < order@.len() ==> (#[trigger] order@[i]) < k,
                forall|j: int|
                    p <= j < order@.len() ==> !lex_le(
                        kv[(#[trigger] order@[j]) as int],
                        kv[k as int],
                    ),
            decreases p,
        {
            p = p - 1;
        }
        let ghost before = order@;
        order.insert(p, k);
        proof {
            let after = order@;
            assert forall|i: int| 0 <= i < after.len() implies (#[trigger] after[i]) < k + 1 by {
                if i < p {
                    assert(after[i] == before[i]);
                } else if i > p {
                    assert(after[i] == before[i - 1]);
                }
            }
            assert forall|i: int, j: int| 0 <= i < j < after.len() implies after[i] != after[j]
                && comes_before(kv, after[i] as int, after[j] as int) by {
                if j < p {
                    assert(after[i] == before[i] && after[j] == before[j]);
                } else if i > p {
                    assert(after[i] == before[i - 1] && after[j] == before[j - 1]);
                } else if i < p && j > p {
                    assert(after[i] == before[i] && after[j] == before[j - 1]);
                } else if j == p {
                    assert(after[i] == before[i]);
                    assert(before[i] < k);
                    assert(lex_le(kv[before[p - 1] as int], kv[k as int]));
                    if i < p - 1 {
                        assert(comes_before(kv, before[i] as int, before[p - 1] as int));
                        lemma_lex_transitive(
                            kv[before[i] as int],
                            kv[before[p - 1] as int],
                            kv[k as int],
                        );
                    }
                } else {
                    assert(i == p);
                    assert(after[j] == before[j - 1]);
                    assert(before[j - 1] < k);
                    assert(!lex_le(kv[before[j - 1] as int], kv[k as int]));
                    lemma_lex_total(kv[before[j - 1] as int], kv[k as int]);
                }
            }
        }
        k = k + 1;
    }
    proof {
        assert(is_stable_order(kv, order@));
        lemma_stable_order_unique(kv, order@, the_stable_order(kv));
    }
    order
}

/// A key of one number.
pub fn key1(a: i128) -> (key: Vec<i128>)
    ensures
        key@ == seq![a],
        ints(key@) == seq![a as int],
{
    let mut key: Vec<i128> = Vec::new();
    key.push(a);
    assert(ints(key@) =~= seq![a as int]);
    key
}

/// A key of two numbers.
pub fn key2(a: i128, b: i128) -> (key: Vec<i128>)
    ensures
        key@ == seq![a, b],
        ints(key@) == seq![a as int, b as int],
{
    let mut key: Vec<i128> = Vec::new();
    key.push(a);
    key.push(b);
    assert(ints(key@) =~= seq![a as int, b as int]);
    key
}

/// Two listings that both meet `is_stable_order` for the same keys are the
/// same listing.
pub proof fn lemma_stable_order_unique(keys: Seq<Seq<int>>, a: Seq<usize>, b: Seq<usize>)
    requires
        is_stable_order(keys, a),
        is_stable_order(keys, b),
    ensures
        a == b,
{
    // The position of an index in a listing is the number of indices that
    // come before it, which does not depend on the listing.
    assert forall|i: int| 0 <= i < a.len() implies a[i] == b[i] by {
        lemma_position_is_rank(keys, a, i);
        lemma_position_is_rank(keys, b, i);
        lemma_rank_decides(keys, a, b, i);
    }
    assert(a =~= b);
}

/// The indices that are listed before `x`.
pub open spec fn earlier_set(keys: Seq<Seq<int>>, x: int) -> Set<int> {
    Set::new(|y: int| 0 <= y < keys.len() && y != x && comes_before(keys, y, x))
}

proof fn lemma_position_is_rank(keys: Seq<Seq<int>>, order: Seq<usize>, i: int)
    requires
        is_stable_order(keys, order),
        0 <= i < order.len(),
    ensures
        earlier_set(keys, order[i] as int) == Set::new(
            |y: int| exists|j: int| 0 <= j < i && order[j] == y,
        ),
{
    let lhs = earlier_set(keys, order[i] as int);
    let rhs = Set::new(|y: int| exists|j: int| 0 <= j < i && order[j] == y);
    assert forall|y: int| lhs.contains(y) == rhs.contains(y) by {
        if rhs.contains(y) {
            let j = choose|j: int| 0 <= j < i && order[j] == y;
            assert(comes_before(keys, order[j] as int, order[i] as int));
        }
        if lhs.contains(y) {
            lemma_index_is_listed(order, keys.len(), y);
            let j = choose|j: int| 0 <= j < order.len() && order[j] == y;
            if j > i {
                assert(comes_before(keys, order[i] as int, order[j] as int));
                assert(false);
            }
            assert(j != i);
            assert(0 <= j < i && order[j] == y);
        }
    }
    assert(lhs =~= rhs);
}

/// A listing of each index below `n` exactly once holds every such index.
pub proof fn lemma_index_is_listed(order: Seq<usize>, n: nat, y: int)
    requires
        lists_each_index_once(order, n),
        0 <= y < n,
    ensures
        exists|j: int| 0 <= j < order.len() && order[j] == y,
{
    let listed = order.map_values(|v: usize| v as int).to_set();
    let all = Set::new(|v: int| 0 <= v < n);
    let ints = order.map_values(|v: usize| v as int);
    assert(ints.no_duplicates());
    ints.unique_seq_to_set();
    assert(listed.len() == n);
    vstd::set_lib::lemma_int_range(0, n as int);
    assert(all =~= vstd::set_lib::set_int_range(0, n as int));
    assert(listed.subset_of(all)) by {
        assert forall|v: int| listed.contains(v) implies all.contains(v) by {
            let j = choose|j: int| 0 <= j < ints.len() && ints[j] == v;
            assert(order[j] < n);
        }
    }
    vstd::set_lib::lemma_subset_equality(listed, all);
    assert(listed.contains(y));
    let j = choose|j: int| 0 <= j < ints.len() && ints[j] == y;
    assert(order[j] == y);
}

proof fn lemma_rank_decides(keys: Seq<Seq<int>>, a: Seq<usize>, b: Seq<usize>, i: int)
    requires
        is_stable_order(keys, a),
        is_stable_order(keys, b),
        0 <= i < a.len(),
        earlier_set(keys, a[i] as int) == Set::new(
            |y: int| exists|j: int| 0 <= j < i && a[j] == y,
        ),
        earlier_set(keys, b[i] as int) == Set::new(
            |y: int| exists|j: int| 0 <= j < i && b[j] == y,
        ),
    ensures
        a[i] == b[i],
{
    let x = a[i] as int;
    let y = b[i] as int;
    if x != y {
        lemma_lex_total(keys[x], keys[y]);
        // One of the two comes before the other, so its set of earlier
        // indices is strictly inside that of the other; both have i elements.
        lemma_prefix_set_len(a, i);
        lemma_prefix_set_len(b, i);
        if comes_before(keys, x, y) {
            lemma_earlier_grows(keys, x, y);
        } else {
            assert(comes_before(keys, y, x));
            lemma_earlier_grows(keys, y, x);
        }
    }
}

proof fn lemma_prefix_set_len(order: Seq<usize>, i: int)
    requires
        forall|p: int, q: int| 0 <= p < q < order.len() ==> order[p] != order[q],
        0 <= i <= order.len(),
    ensures
        Set::new(|y: int| exists|j: int| 0 <= j < i && order[j] == y).finite(),
        Set::new(|y: int| exists|j: int| 0 <= j < i && order[j] == y).len() == i,
{
    let ints = order.take(i).map_values(|v: usize| v as int);
    assert(ints.no_duplicates());
    ints.unique_seq_to_set();
    let s = Set::new(|y: int| exists|j: int| 0 <= j < i && order[j] == y);
    assert forall|y: int| s.contains(y) == ints.to_set().contains(y) by {
        if s.contains(y) {
            let j = choose|j: int| 0 <= j < i && order[j] == y;
            assert(ints[j] == y);
        }
        if ints.to_set().contains(y) {
            let j = choose|j: int| 0 <= j < ints.len() && ints[j] == y;
            assert(order[j] == y);
        }
    }
    assert(s =~= ints.to_set());
}

proof fn lemma_earlier_grows(keys: Seq<Seq<int>>, x: int, y: int)
    requires
        0 <= x < keys.len(),
        0 <= y < keys.len(),
        x != y,
        comes_before(keys, x, y),
        earlier_set(keys, x).finite(),
        earlier_set(keys, y).finite(),
    ensures
        earlier_set(keys, x).len() < earlier_set(keys, y).len(),
{
    let ex = earlier_set(keys, x);
    let ey = earlier_set(keys, y);
    assert forall|z: int| ex.contains(z) implies ey.contains(z) by {
        lemma_lex_transitive(keys[z], keys[x], keys[y]);
        if lex_le(keys[y], keys[z]) {
            lemma_lex_transitive(keys[y], keys[z], keys[x]);
            lemma_lex_transitive(keys[x], keys[y], keys[z]);
        }
    }
    assert(ey.contains(x));
    assert(!ex.contains(x));
    let ex2 = ex.insert(x);
    assert(ex2.subset_of(ey));
    vstd::set_lib::lemma_len_subset(ex2, ey);
}

} // verus!
