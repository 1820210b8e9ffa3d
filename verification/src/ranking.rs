//! Ordering items by a numeric key, highest first, where items with equal keys
//! keep their order (what a stable descending sort gives).

use vstd::prelude::*;
use vstd::set_lib::{lemma_int_range, lemma_map_size, lemma_subset_equality, set_int_range};

verus! {

/// Whether item `a` comes before item `b` in the stable descending order of `keys`.
pub open spec fn ranks_before(keys: Seq<i64>, a: int, b: int) -> bool {
    keys[a] > keys[b] || (keys[a] == keys[b] && a < b)
}

/// The number of items among the first `m` that come before item `i`.
pub open spec fn count_before(keys: Seq<i64>, i: int, m: int) -> nat
    decreases m,
{
    if m <= 0 {
        0
    } else {
        count_before(keys, i, m - 1) + if ranks_before(keys, m - 1, i) {
            1nat
        } else {
            0nat
        }
    }
}

/// The position of item `i` in the stable descending order of `keys`: the number
/// of items that come before it.
pub open spec fn stable_rank(keys: Seq<i64>, i: int) -> nat {
    count_before(keys, i, keys.len() as int)
}

/// Whether `k` is the first item with the highest key.
pub open spec fn is_first_max(keys: Seq<i64>, k: int) -> bool {
    &&& 0 <= k < keys.len()
    &&& forall|j: int| 0 <= j < keys.len() ==> keys[j] <= keys[k]
    &&& forall|j: int| 0 <= j < k ==> keys[j] < keys[k]
}

proof fn lemma_count_before_bound(keys: Seq<i64>, i: int, m: int)
    requires
        0 <= m <= keys.len(),
        0 <= i < keys.len(),
    ensures
        count_before(keys, i, m) + (if i < m {
            1int
        } else {
            0int
        }) <= m,
    decreases m,
{
    if m > 0 {
        lemma_count_before_bound(keys, i, m - 1);
    }
}

proof fn lemma_count_before_monotone(keys: Seq<i64>, a: int, b: int, m: int)
    requires
        0 <= m <= keys.len(),
        0 <= a < keys.len(),
        0 <= b < keys.len(),
        ranks_before(keys, a, b),
    ensures
        count_before(keys, a, m) + (if a < m {
            1int
        } else {
            0int
        }) <= count_before(keys, b, m),
    decreases m,
{
    if m > 0 {
        lemma_count_before_monotone(keys, a, b, m - 1);
    }
}

/// Every item has a rank below the number of items.
pub proof fn lemma_rank_bound(keys: Seq<i64>, i: int)
    requires
        0 <= i < keys.len(),
    ensures
        stable_rank(keys, i) < keys.len(),
{
    lemma_count_before_bound(keys, i, keys.len() as int);
}

/// An item that comes before another has the lower rank; so distinct items have
/// distinct ranks.
pub proof fn lemma_rank_order(keys: Seq<i64>, a: int, b: int)
    requires
        0 <= a < keys.len(),
        0 <= b < keys.len(),
    ensures
        ranks_before(keys, a, b) ==> stable_rank(keys, a) < stable_rank(keys, b),
        a != b ==> stable_rank(keys, a) != stable_rank(keys, b),
{
    if ranks_before(keys, a, b) {
        lemma_count_before_monotone(keys, a, b, keys.len() as int);
    }
    if ranks_before(keys, b, a) {
        lemma_count_before_monotone(keys, b, a, keys.len() as int);
    }
}

/// The item of rank `t` (`0 <= t < keys.len()`).
pub open spec fn item_of_rank(keys: Seq<i64>, t: int) -> int {
    choose|i: int| 0 <= i < keys.len() && stable_rank(keys, i) == t
}

/// Every rank below the number of items belongs to exactly one item, which
/// `item_of_rank` names.
pub proof fn lemma_rank_onto(keys: Seq<i64>, t: int)
    requires
        0 <= t < keys.len(),
    ensures
        0 <= item_of_rank(keys, t) < keys.len(),
        stable_rank(keys, item_of_rank(keys, t)) == t,
        forall|i: int| 0 <= i < keys.len() && stable_rank(keys, i) == t ==> i == item_of_rank(keys, t),
{
    let n = keys.len() as int;
    let range = set_int_range(0, n);
    let f = |i: int| stable_rank(keys, i) as int;
    lemma_int_range(0, n);
    assert(vstd::relations::injective_on(f, range)) by {
        assert forall|a: int, b: int| range.contains(a) && range.contains(b) && #[trigger] f(a) == #[trigger] f(b) implies a == b by {
            lemma_rank_order(keys, a, b);
        }
    }
    lemma_map_size(range, range.map(f), f);
    assert(range.map(f).subset_of(range)) by {
        assert forall|r: int| range.map(f).contains(r) implies range.contains(r) by {
            let i = choose|i: int| range.contains(i) && f(i) == r;
            lemma_rank_bound(keys, i);
        }
    }
    lemma_subset_equality(range.map(f), range);
    assert(range.map(f).contains(t));
    let i = choose|i: int| range.contains(i) && f(i) == t;
    assert(0 <= i < n && stable_rank(keys, i) == t);
    assert forall|j: int| 0 <= j < keys.len() && stable_rank(keys, j) == t implies j == item_of_rank(keys, t) by {
        lemma_rank_order(keys, j, item_of_rank(keys, t));
    }
}

/// The item indices in the stable descending order of their keys: `order[r]` is
/// the index of the item of rank `r`.
pub fn stable_order_desc(keys: &Vec<i64>) -> (order: Vec<usize>)
    ensures
        order@.len() == keys@.len(),
        forall|t: int| 0 <= t < keys@.len() ==> #[trigger] order@[t] == item_of_rank(keys@, t),
{
    let n = keys.len();
    let mut order: Vec<usize> = Vec::new();
    let mut j: usize = 0;
    while j < n
        invariant
            j <= n,
            n == keys@.len(),
            order@.len() == j,
        decreases n - j,
    {
        order.push(0);
        j = j + 1;
    }
    let mut i: usize = 0;
    while i < n
        invariant
            i <= n,
            n == keys@.len(),
            order@.len() == n,
            forall|p: int| 0 <= p < i ==> #[trigger] order@[stable_rank(keys@, p) as int] == p,
        decreases n - i,
    {
        let mut r: usize = 0;
        let mut k: usize = 0;
        while k < n
            invariant
                k <= n,
                i < n,
                n == keys@.len(),
                r == count_before(keys@, i as int, k as int),
                r <= k,
            decreases n - k,
        {
            if keys[k] > keys[i] || (keys[k] == keys[i] && k < i) {
                r = r + 1;
            }
            k = k + 1;
        }
        proof {
            lemma_rank_bound(keys@, i as int);
            assert forall|p: int| 0 <= p < i implies stable_rank(keys@, p) != stable_rank(
                keys@,
                i as int,
            ) && stable_rank(keys@, p) < n by {
                lemma_rank_order(keys@, p, i as int);
                lemma_rank_bound(keys@, p);
            }
        }
        let ghost before = order@;
        order.set(r, i);
        assert forall|p: int| 0 <= p <= i implies #[trigger] order@[stable_rank(
            keys@,
            p,
        ) as int] == p by {
            if p < i {
                assert(order@[stable_rank(keys@, p) as int] == before[stable_rank(keys@, p) as int]);
            }
        }
        i = i + 1;
    }
    assert forall|t: int| 0 <= t < n implies #[trigger] order@[t] == item_of_rank(keys@, t) by {
        lemma_rank_onto(keys@, t);
        let i = item_of_rank(keys@, t);
        assert(order@[stable_rank(keys@, i) as int] == i);
    }
    order
}

/// The index of the first item with the highest key, if there is an item.
pub fn first_max_index(keys: &Vec<i64>) -> (best: Option<usize>)
    ensures
        best is None <==> keys@.len() == 0,
        best matches Some(k) ==> is_first_max(keys@, k as int),
{
    if keys.len() == 0 {
        return None;
    }
    let mut best: usize = 0;
    let mut k: usize = 1;
    while k < keys.len()
        invariant
            1 <= k <= keys@.len(),
            best < k,
            forall|j: int| 0 <= j < k ==> keys@[j] <= keys@[best as int],
            forall|j: int| 0 <= j < best ==> keys@[j] < keys@[best as int],
        decreases keys@.len() - k,
    {
        if keys[k] > keys[best] {
            best = k;
        }
        k = k + 1;
    }
    Some(best)
}

} // verus!
