//! Stable ordering by up to three numeric keys.
use vstd::prelude::*;

verus! {

/// A sort key, compared from the left.
pub type Key = (u64, u64, u64);

/// Whether `k` is smaller than `l`, compared from the left.
pub open spec fn key_less(k: Key, l: Key) -> bool {
    ||| k.0 < l.0
    ||| (k.0 == l.0 && k.1 < l.1)
    ||| (k.0 == l.0 && k.1 == l.1 && k.2 < l.2)
}

/// Whether item `i` stands before item `j`: by key, items of equal key in
/// their given order.
pub open spec fn stands_before(keys: Seq<Key>, i: int, j: int) -> bool {
    key_less(keys[i], keys[j]) || (keys[i] == keys[j] && i < j)
}

/// Whether `order` lists each of the first `n` positions once.
pub open spec fn is_arrangement(order: Seq<usize>, n: nat) -> bool {
    &&& order.len() == n
    &&& order.no_duplicates()
    &&& forall|i: int| 0 <= i < order.len() ==> #[trigger] order[i] < n
}

/// Whether `order` lists the positions of `keys` in stable ascending order.
pub open spec fn is_stable_order(order: Seq<usize>, keys: Seq<Key>) -> bool {
    &&& is_arrangement(order, keys.len())
    &&& forall|i: int, j: int|
        0 <= i < j < order.len() ==> stands_before(
            keys,
            #[trigger] order[i] as int,
            #[trigger] order[j] as int,
        )
}

fn less(k: Key, l: Key) -> (r: bool)
    ensures
        r == key_less(k, l),
{
    k.0 < l.0 || (k.0 == l.0 && k.1 < l.1) || (k.0 == l.0 && k.1 == l.1 && k.2 < l.2)
}

/// The positions of `keys` in stable ascending order.
pub fn stable_order(keys: &Vec<Key>) -> (r: Vec<usize>)
    ensures
        is_stable_order(r@, keys@),
{
    let mut order: Vec<usize> = Vec::new();
    let mut m: usize = 0;
    while m < keys.len()
        invariant
            m <= keys.len(),
            is_arrangement(order@, m as nat),
            forall|i: int, j: int|
                0 <= i < j < order@.len() ==> stands_before(
                    keys@,
                    #[trigger] order@[i] as int,
                    #[trigger] order@[j] as int,
                ),
        decreases keys.len() - m,
    {
        let mut p: usize = order.len();
        while p > 0 && less(keys[m], keys[order[p - 1]])
            invariant
                m < keys.len(),
                p <= order@.len() == m,
                is_arrangement(order@, m as nat),
                forall|i: int|
                    p <= i < order@.len() ==> key_less(
                        keys@[m as int],
                        keys@[#[trigger] order@[i] as int],
                    ),
            decreases p,
        {
            p = p - 1;
        }
        let ghost before = order@;
        order.insert(p, m);
        proof {
            let after = order@;
            assert(after == before.insert(p as int, m));
            assert forall|i: int| 0 <= i < p implies stands_before(
                keys@,
                #[trigger] before[i] as int,
                m as int,
            ) by {
                assert(before[i] < m);
                if i < p - 1 {
                    assert(stands_before(keys@, before[i] as int, before[p - 1] as int));
                }
                assert(before[p - 1] < m);
            }
            assert forall|i: int, j: int| 0 <= i < j < after.len() implies stands_before(
                keys@,
                #[trigger] after[i] as int,
                #[trigger] after[j] as int,
            ) by {
                let i2 = if i < p { i } else { i - 1 };
                let j2 = if j < p { j } else { j - 1 };
                if i != p && j != p {
                    assert(after[i] == before[i2] && after[j] == before[j2]);
                } else if i == p {
                    assert(after[j] == before[j2]);
                } else {
                    assert(after[i] == before[i2]);
                }
            }
            assert forall|i: int, j: int|
                0 <= i < after.len() && 0 <= j < after.len() && i != j implies after[i]
                != after[j] by {
                let i2 = if i < p { i } else { i - 1 };
                let j2 = if j < p { j } else { j - 1 };
                if i != p && j != p {
                    assert(before[i2] != before[j2]);
                    assert(after[i] == before[i2] && after[j] == before[j2]);
                } else if i == p {
                    assert(before[j2] < m);
                    assert(after[j] == before[j2]);
                } else {
                    assert(before[i2] < m);
                    assert(after[i] == before[i2]);
                }
            }
            assert forall|i: int| 0 <= i < after.len() implies #[trigger] after[i] < m + 1 by {
                let i2 = if i < p { i } else { i - 1 };
                if i != p {
                    assert(before[i2] < m);
                    assert(after[i] == before[i2]);
                }
            }
        }
        m = m + 1;
    }
    order
}

/// An arrangement of the first `n` positions holds each of them.
pub proof fn lemma_arrangement_covers(order: Seq<usize>, n: nat, m: int)
    requires
        is_arrangement(order, n),
        0 <= m < n,
    ensures
        exists|j: int| 0 <= j < order.len() && #[trigger] order[j] == m,
{
    let ints = order.map_values(|x: usize| x as int);
    let s = ints.to_set();
    let full = Set::<int>::new(|x: int| 0 <= x < n);
    assert(ints.no_duplicates()) by {
        assert forall|a: int, b: int| 0 <= a < ints.len() && 0 <= b < ints.len() && a != b implies ints[a]
            != ints[b] by {
            assert(order[a] != order[b]);
        }
    }
    ints.unique_seq_to_set();
    vstd::set_lib::lemma_int_range(0, n as int);
    assert(full =~= vstd::set_lib::set_int_range(0, n as int));
    assert(s.subset_of(full)) by {
        assert forall|x: int| s.contains(x) implies full.contains(x) by {
            let j = choose|j: int| 0 <= j < ints.len() && ints[j] == x;
            assert(order[j] < n);
        }
    }
    vstd::set_lib::lemma_subset_equality(s, full);
    assert(s.contains(m));
    let j = choose|j: int| 0 <= j < ints.len() && ints[j] == m;
    assert(order[j] == m);
}

/// There is only one stable ascending order.
pub proof fn law_stable_order_is_unique(a: Seq<usize>, b: Seq<usize>, keys: Seq<Key>)
    requires
        is_stable_order(a, keys),
        is_stable_order(b, keys),
    ensures
        a == b,
{
    assert forall|i: int| 0 <= i < a.len() implies a[i] == b[i] by {
        lemma_same_start(a, b, keys, i);
    }
    assert(a =~= b);
}

proof fn lemma_same_start(a: Seq<usize>, b: Seq<usize>, keys: Seq<Key>, n: int)
    requires
        is_stable_order(a, keys),
        is_stable_order(b, keys),
        0 <= n < a.len(),
    ensures
        forall|i: int| 0 <= i <= n ==> a[i] == b[i],
    decreases n,
{
    if n > 0 {
        lemma_same_start(a, b, keys, n - 1);
    }
    if a[n] != b[n] {
        lemma_arrangement_covers(b, keys.len(), a[n] as int);
        let j = choose|j: int| 0 <= j < b.len() && #[trigger] b[j] == a[n] as int;
        if j < n {
            assert(a[j] == b[j]);
        }
        assert(stands_before(keys, b[n] as int, b[j] as int));
        lemma_arrangement_covers(a, keys.len(), b[n] as int);
        let k = choose|k: int| 0 <= k < a.len() && #[trigger] a[k] == b[n] as int;
        if k < n {
            assert(a[k] == b[k]);
        }
        assert(stands_before(keys, a[n] as int, a[k] as int));
    }
}

/// The indices that an order lists.
pub open spec fn indices(order: Seq<usize>) -> Seq<int> {
    order.map_values(|i: usize| i as int)
}

/// A stable order lists every index once, the smaller keys first: keys that stand
/// later are never smaller in their first part, nor in the second where the first
/// is equal, nor in the third where both are.
pub proof fn law_order_lists_each(order: Seq<usize>, keys: Seq<Key>)
    requires
        is_stable_order(order, keys),
    ensures
        order.len() == keys.len(),
        order.no_duplicates(),
        forall|x: int| 0 <= x < order.len() ==> #[trigger] order[x] < keys.len(),
        forall|x: int, y: int|
            0 <= x < y < order.len() ==> ({
                let (k, l) = (keys[#[trigger] order[x] as int], keys[#[trigger] order[y] as int]);
                k.0 <= l.0 && (k.0 == l.0 ==> k.1 <= l.1) && (k.0 == l.0 && k.1 == l.1 ==> k.2
                    <= l.2) && (k == l ==> order[x] < order[y])
            }),
        forall|u: int| 0 <= u < keys.len() ==> #[trigger] indices(order).contains(u),
{
    let n = keys.len();
    assert forall|x: int, y: int| 0 <= x < y < order.len() implies ({
        let (k, l) = (keys[#[trigger] order[x] as int], keys[#[trigger] order[y] as int]);
        k.0 <= l.0 && (k.0 == l.0 ==> k.1 <= l.1) && (k.0 == l.0 && k.1 == l.1 ==> k.2 <= l.2) && (
        k == l ==> order[x] < order[y])
    }) by {
        assert(stands_before(keys, order[x] as int, order[y] as int));
    }
    let ints = indices(order);
    assert(ints.no_duplicates()) by {
        assert forall|i: int, j: int| 0 <= i < ints.len() && 0 <= j < ints.len() && i != j implies ints[i]
            != ints[j] by {
            assert(order[i] != order[j]);
        }
    }
    let all = vstd::set_lib::set_int_range(0, n as int);
    vstd::set_lib::lemma_int_range(0, n as int);
    ints.unique_seq_to_set();
    assert(ints.to_set().subset_of(all)) by {
        assert forall|v: int| ints.to_set().contains(v) implies all.contains(v) by {
            let i = choose|i: int| 0 <= i < ints.len() && ints[i] == v;
            assert(order[i] < n);
        }
    }
    vstd::set_lib::lemma_subset_equality(ints.to_set(), all);
    assert forall|u: int| 0 <= u < n implies #[trigger] indices(order).contains(u) by {
        assert(all.contains(u));
    }
}

} // verus!
