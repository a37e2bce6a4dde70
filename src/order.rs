//! Stable ordering by integer keys.

use vstd::prelude::*;

verus! {

/// `order` lists indices by increasing key, equal keys by increasing index.
pub open spec fn stably_sorted(keys: Seq<u128>, order: Seq<usize>) -> bool {
    forall|i: int, j: int| 0 <= i < j < order.len() ==>
        keys[#[trigger] order[i] as int] < keys[#[trigger] order[j] as int]
        || (keys[order[i] as int] == keys[order[j] as int] && order[i] < order[j])
}

/// `order` is a rearrangement of `0..n`.
pub open spec fn is_permutation(order: Seq<usize>, n: nat) -> bool {
    &&& order.len() == n
    &&& order.no_duplicates()
    &&& forall|i: int| 0 <= i < order.len() ==> #[trigger] order[i] < n
}

/// The indices of `keys` in stable sorted order: by key, and among equal
/// keys in the order they were given.
pub fn stable_order(keys: &Vec<u128>) -> (r: Vec<usize>)
    ensures
        is_permutation(r@, keys.len() as nat),
        stably_sorted(keys@, r@),
{
    let mut r: Vec<usize> = Vec::new();
    let mut i: usize = 0;
    while i < keys.len()
        invariant
            i <= keys.len(),
            r.len() == i,
            r@.no_duplicates(),
            forall|t: int| 0 <= t < r.len() ==> #[trigger] r[t] < i,
            stably_sorted(keys@, r@),
        decreases keys.len() - i,
    {
        let k = keys[i];
        let mut p: usize = 0;
        while p < r.len() && keys[r[p]] <= k
            invariant
                p <= r.len(),
                r.len() == i,
                i < keys.len(),
                k == keys[i as int],
                forall|t: int| 0 <= t < r.len() ==> #[trigger] r[t] < i,
                forall|t: int| 0 <= t < p ==> keys[#[trigger] r[t] as int] <= k,
            decreases r.len() - p,
        {
            p = p + 1;
        }
        let ghost old_r = r@;
        proof {
            assert forall|t: int| p <= t < old_r.len() implies keys[#[trigger] old_r[t] as int] > k by {
                if t > p {
                    assert(keys[old_r[p as int] as int] <= keys[old_r[t] as int]);
                }
            }
        }
        r.insert(p, i);
        proof {
            assert(r@ =~= old_r.subrange(0, p as int).push(i).add(old_r.subrange(p as int, old_r.len() as int)));
            assert forall|a: int, b: int| 0 <= a < b < r.len() implies
                keys[#[trigger] r@[a] as int] < keys[#[trigger] r@[b] as int]
                || (keys[r@[a] as int] == keys[r@[b] as int] && r@[a] < r@[b]) by {
                if a < p && b > p {
                    assert(keys[old_r[b - 1] as int] > k);
                } else if a < p && b == p {
                } else if a == p {
                    assert(keys[old_r[b - 1] as int] > k);
                } else if a > p {
                    assert(r@[a] == old_r[a - 1] && r@[b] == old_r[b - 1]);
                }
            }
            assert forall|a: int, b: int| 0 <= a < b < r.len() implies r@[a] != r@[b] by {
                if a != p && b != p {
                    let a0 = if a < p { a } else { a - 1 };
                    let b0 = if b < p { b } else { b - 1 };
                    assert(r@[a] == old_r[a0] && r@[b] == old_r[b0]);
                } else if a == p {
                    assert(r@[b] == old_r[b - 1]);
                } else {
                    assert(r@[a] == old_r[a]);
                }
            }
        }
        i = i + 1;
    }
    r
}

/// The items of `items` taken in the order `order` lists their indices.
pub fn apply_order<T>(items: Vec<T>, order: &Vec<usize>) -> (r: Vec<T>)
    requires
        is_permutation(order@, items.len() as nat),
    ensures
        r.len() == order.len(),
        forall|k: int| 0 <= k < r.len() ==> #[trigger] r[k] == items@[order[k] as int],
{
    let ghost all = items@;
    let n = items.len();
    let mut items = items;
    let mut slots: Vec<Option<T>> = Vec::new();
    while items.len() > 0
        invariant
            n == all.len(),
            slots.len() + items.len() == n,
            items@ == all.subrange(slots.len() as int, n as int),
            forall|t: int| 0 <= t < slots.len() ==> #[trigger] slots[t] == Some(all[t]),
        decreases items.len(),
    {
        let x = items.remove(0);
        slots.push(Some(x));
        assert(items@ =~= all.subrange(slots.len() as int, n as int));
    }
    let mut r: Vec<T> = Vec::new();
    let mut k: usize = 0;
    while k < order.len()
        invariant
            n == all.len(),
            is_permutation(order@, n as nat),
            slots.len() == n,
            k <= order.len(),
            r.len() == k,
            forall|t: int| 0 <= t < k ==> #[trigger] r[t] == all[order[t] as int],
            forall|j: int| k <= j < order.len() ==> slots[#[trigger] order[j] as int] == Some(all[order[j] as int]),
        decreases order.len() - k,
    {
        let mut taken: Option<T> = None;
        let ghost before = slots@;
        slots.set_and_swap(order[k], &mut taken);
        proof {
            assert forall|j: int| k + 1 <= j < order.len() implies slots[#[trigger] order[j] as int] == Some(all[order[j] as int]) by {
                assert(order[j] != order[k as int]);
                assert(slots@[order[j] as int] == before[order[j] as int]);
            }
        }
        r.push(taken.unwrap());
        k = k + 1;
    }
    r
}

/// `after` is `before` sorted stably by `keys`.
pub open spec fn is_stable_rearrangement<T>(before: Seq<T>, after: Seq<T>, keys: Seq<u128>) -> bool {
    exists|order: Seq<usize>| #[trigger] is_permutation(order, before.len()) && stably_sorted(keys, order)
        && after.len() == before.len()
        && forall|k: int| 0 <= k < after.len() ==> #[trigger] after[k] == before[order[k] as int]
}

/// The items sorted stably by their keys.
pub fn sort_by_keys<T>(items: Vec<T>, keys: &Vec<u128>) -> (r: Vec<T>)
    requires
        keys.len() == items.len(),
    ensures
        is_stable_rearrangement(items@, r@, keys@),
{
    let order = stable_order(keys);
    let ghost before = items@;
    let r = apply_order(items, &order);
    assert(is_permutation(order@, before.len()));
    r
}

} // verus!
