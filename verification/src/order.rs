//! Sorting by a key, keeping equal keys in their order.

use vstd::prelude::*;
use vstd::seq_lib::{seq_to_set_is_finite, to_multiset_build, to_multiset_insert};
use vstd::set_lib::{lemma_int_range, lemma_subset_equality, set_int_range};

verus! {

/// Whether index `a` comes before index `b`: by key, and among equal keys by place.
pub open spec fn before(keys: Seq<u64>, a: int, b: int) -> bool {
    keys[a] < keys[b] || (keys[a] == keys[b] && a < b)
}

/// Whether `order` lists the indices of `keys` in ascending order of key, equal keys in place.
///
/// There is one such order: the indices are as many as the keys and, being in strict order,
/// all different.
pub open spec fn is_stable_order(keys: Seq<u64>, order: Seq<usize>) -> bool {
    &&& order.len() == keys.len()
    &&& forall|i: int| 0 <= i < order.len() ==> (#[trigger] order[i]) < keys.len()
    &&& forall|i: int, j: int|
        0 <= i < j < order.len() ==> before(keys, #[trigger] order[i] as int, #[trigger] order[j] as int)
}

/// The items of `list` in this order.
pub open spec fn arranged<T>(list: Seq<T>, order: Seq<usize>) -> Seq<T> {
    order.map_values(|i: usize| list[i as int])
}

/// The order of the keys, equal keys in place.
pub fn stable_order(keys: &Vec<u64>) -> (order: Vec<usize>)
    ensures
        is_stable_order(keys@, order@),
{
    let mut order: Vec<usize> = Vec::new();
    let mut at: usize = 0;
    while at < keys.len()
        invariant
            at <= keys@.len(),
            order@.len() == at,
            forall|i: int| 0 <= i < order@.len() ==> (#[trigger] order@[i]) < at,
            forall|i: int, j: int|
                0 <= i < j < order@.len() ==> before(
                    keys@,
                    #[trigger] order@[i] as int,
                    #[trigger] order@[j] as int,
                ),
        decreases keys@.len() - at,
    {
        let mut to: usize = order.len();
        while to > 0 && keys[at] < keys[order[to - 1]]
            invariant
                to <= order@.len(),
                order@.len() == at,
                at < keys@.len(),
                forall|i: int| 0 <= i < order@.len() ==> (#[trigger] order@[i]) < at,
                forall|j: int|
                    to <= j < order@.len() ==> keys@[at as int] < keys@[(#[trigger] order@[j]) as int],
            decreases to,
        {
            to = to - 1;
        }
        let ghost old_order = order@;
        proof {
            assert forall|i: int| 0 <= i < to implies before(
                keys@,
                #[trigger] old_order[i] as int,
                at as int,
            ) by {
                if i < to - 1 {
                    assert(before(keys@, old_order[i] as int, old_order[to - 1] as int));
                }
            }
        }
        order.insert(to, at);
        proof {
            assert forall|i: int, j: int| 0 <= i < j < order@.len() implies before(
                keys@,
                #[trigger] order@[i] as int,
                #[trigger] order@[j] as int,
            ) by {
                if i < to {
                    assert(order@[i] == old_order[i]);
                } else if i > to {
                    assert(order@[i] == old_order[i - 1]);
                }
                if j < to {
                    assert(order@[j] == old_order[j]);
                } else if j > to {
                    assert(order@[j] == old_order[j - 1]);
                }
            }
        }
        at = at + 1;
    }
    order
}

/// A stable order lists every index.
pub proof fn lists_every_index(keys: Seq<u64>, order: Seq<usize>, index: int)
    requires
        is_stable_order(keys, order),
        0 <= index < keys.len(),
    ensures
        exists|i: int| 0 <= i < order.len() && #[trigger] order[i] == index,
{
    let wide = order.map_values(|i: usize| i as int);
    assert(wide.no_duplicates()) by {
        assert forall|i: int, j: int|
            0 <= i < wide.len() && 0 <= j < wide.len() && i != j implies wide[i] != wide[j] by {
            if i < j {
                assert(before(keys, order[i] as int, order[j] as int));
            } else {
                assert(before(keys, order[j] as int, order[i] as int));
            }
        }
    }
    wide.unique_seq_to_set();
    seq_to_set_is_finite(wide);
    lemma_int_range(0, keys.len() as int);
    let all = set_int_range(0, keys.len() as int);
    assert(wide.to_set().subset_of(all));
    lemma_subset_equality(wide.to_set(), all);
    assert(all.contains(index));
    assert(wide.contains(index));
    let i = choose|i: int| 0 <= i < wide.len() && wide[i] == index;
    assert(order[i] == index);
}

/// There is only one stable order.
pub proof fn stable_orders_agree(keys: Seq<u64>, a: Seq<usize>, b: Seq<usize>)
    requires
        is_stable_order(keys, a),
        is_stable_order(keys, b),
    ensures
        a == b,
{
    prefixes_agree(keys, a, b, keys.len() as int);
    assert(a =~= b);
}

proof fn prefixes_agree(keys: Seq<u64>, a: Seq<usize>, b: Seq<usize>, n: int)
    requires
        is_stable_order(keys, a),
        is_stable_order(keys, b),
        0 <= n <= keys.len(),
    ensures
        forall|i: int| 0 <= i < n ==> a[i] == b[i],
    decreases n,
{
    if n > 0 {
        prefixes_agree(keys, a, b, n - 1);
        let at = n - 1;
        if a[at] != b[at] {
            lists_every_index(keys, b, a[at] as int);
            lists_every_index(keys, a, b[at] as int);
            let p = choose|i: int| 0 <= i < b.len() && #[trigger] b[i] == a[at];
            let q = choose|i: int| 0 <= i < a.len() && #[trigger] a[i] == b[at];
            if p < at {
                assert(a[p] == b[p]);
                assert(before(keys, a[p] as int, a[at] as int));
            }
            if q < at {
                assert(a[q] == b[q]);
                assert(before(keys, b[q] as int, b[at] as int));
            }
            assert(before(keys, b[at] as int, b[p] as int));
            assert(before(keys, a[at] as int, a[q] as int));
        }
    }
}

/// The stable order of the keys.
pub open spec fn stable(keys: Seq<u64>) -> Seq<usize> {
    choose|order: Seq<usize>| is_stable_order(keys, order)
}

/// The items of `list`, sorted by their keys, equal keys in place.
pub open spec fn sorted<T>(list: Seq<T>, keys: Seq<u64>) -> Seq<T> {
    arranged(list, stable(keys))
}

/// An order that is stable is the stable order.
pub proof fn stable_is(keys: Seq<u64>, order: Seq<usize>)
    requires
        is_stable_order(keys, order),
    ensures
        order == stable(keys),
{
    stable_orders_agree(keys, order, stable(keys));
}

/// Keys that can be indexed have a stable order.
pub proof fn stable_exists(keys: Seq<u64>)
    requires
        keys.len() <= usize::MAX,
    ensures
        is_stable_order(keys, stable(keys)),
    decreases keys.len(),
{
    if keys.len() == 0 {
        assert(is_stable_order(keys, seq![]));
    } else {
        stable_exists(keys.drop_last());
        grown_order(keys);
    }
}

/// The stable order of some keys comes from that of all but the last.
proof fn grown_order(keys: Seq<u64>) -> (to: int)
    requires
        0 < keys.len() <= usize::MAX,
        is_stable_order(keys.drop_last(), stable(keys.drop_last())),
    ensures
        0 <= to < keys.len(),
        is_stable_order(keys, stable(keys)),
        stable(keys) == stable(keys.drop_last()).insert(to, (keys.len() - 1) as usize),
{
    let last = keys.len() - 1;
    let rest = keys.drop_last();
    let order = stable(rest);
    let to = insertion_place(rest, order, keys[last], order.len() as int);
    let longer = order.insert(to, last as usize);
    assert forall|i: int, j: int| 0 <= i < j < longer.len() implies before(
        keys,
        #[trigger] longer[i] as int,
        #[trigger] longer[j] as int,
    ) by {
        let a = if i < to {
            i
        } else {
            i - 1
        };
        let b = if j < to {
            j
        } else {
            j - 1
        };
        if i != to {
            assert(longer[i] == order[a]);
        }
        if j != to {
            assert(longer[j] == order[b]);
        }
        if i != to && j != to {
            assert(before(rest, order[a] as int, order[b] as int));
        }
    }
    assert(is_stable_order(keys, longer));
    stable_is(keys, longer);
    to
}

/// Where a last key goes into an order: after all that are not greater.
proof fn insertion_place(keys: Seq<u64>, order: Seq<usize>, key: u64, n: int) -> (to: int)
    requires
        is_stable_order(keys, order),
        0 <= n <= order.len(),
        forall|j: int| n <= j < order.len() ==> key < keys[(#[trigger] order[j]) as int],
    ensures
        0 <= to <= order.len(),
        forall|i: int| 0 <= i < to ==> keys[(#[trigger] order[i]) as int] <= key,
        forall|j: int| to <= j < order.len() ==> key < keys[(#[trigger] order[j]) as int],
    decreases n,
{
    if n == 0 {
        0
    } else if keys[order[n - 1] as int] <= key {
        assert forall|i: int| 0 <= i < n implies keys[(#[trigger] order[i]) as int] <= key by {
            if i < n - 1 {
                assert(before(keys, order[i] as int, order[n - 1] as int));
            }
        }
        n
    } else {
        insertion_place(keys, order, key, n - 1)
    }
}

/// Sorting neither adds nor loses an item.
pub proof fn sorting_rearranges<T>(list: Seq<T>, keys: Seq<u64>)
    requires
        list.len() == keys.len(),
        keys.len() <= usize::MAX,
    ensures
        sorted(list, keys).len() == list.len(),
        sorted(list, keys).to_multiset() == list.to_multiset(),
    decreases keys.len(),
{
    stable_exists(keys);
    if keys.len() == 0 {
        assert(sorted(list, keys) =~= list);
    } else {
        let rest = keys.drop_last();
        stable_exists(rest);
        sorting_rearranges(list.drop_last(), rest);
        let to = grown_order(keys);
        let shorter = sorted(list.drop_last(), rest);
        assert(sorted(list, keys) =~= shorter.insert(to, list.last()));
        to_multiset_insert(shorter, to, list.last());
        to_multiset_build(list.drop_last(), list.last());
        assert(list =~= list.drop_last().push(list.last()));
    }
}

} // verus!
