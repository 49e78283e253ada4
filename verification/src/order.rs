//! Ordering by pairs of numbers: positions in a log, and stable sorting by them.

use vstd::prelude::*;

verus! {

/// Pairs are ordered by their first number, then by their second.
pub open spec fn pair_lt(a: (u64, u64), b: (u64, u64)) -> bool {
    a.0 < b.0 || (a.0 == b.0 && a.1 < b.1)
}

/// Whether `a` comes before `b`.
pub fn pair_less(a: (u64, u64), b: (u64, u64)) -> (r: bool)
    ensures
        r == pair_lt(a, b),
{
    a.0 < b.0 || (a.0 == b.0 && a.1 < b.1)
}

/// The item at `a` goes before the item at `b`: its key is less, or the keys are the same and it
/// stood before.
pub open spec fn goes_before(keys: Seq<(u64, u64)>, a: int, b: int) -> bool {
    pair_lt(keys[a], keys[b]) || (keys[a] == keys[b] && a < b)
}

/// `p` is one of the positions.
pub open spec fn has_position(at: Seq<usize>, p: int) -> bool {
    exists|i: int| 0 <= i < at.len() && #[trigger] at[i] == p
}

/// `order` holds every position once, so that the items it leads to rise by their keys, and items
/// with the same key keep their order.
pub open spec fn is_stable_order(keys: Seq<(u64, u64)>, order: Seq<usize>) -> bool {
    &&& order.len() == keys.len()
    &&& forall|i: int| 0 <= i < order.len() ==> (#[trigger] order[i]) < keys.len()
    &&& forall|p: int| 0 <= p < keys.len() ==> #[trigger] has_position(order, p)
    &&& forall|i: int, j: int|
        0 <= i < j < order.len() ==> goes_before(
            keys,
            #[trigger] order[i] as int,
            #[trigger] order[j] as int,
        )
}

/// The positions of `keys`, sorted by key; equal keys keep their order.
pub fn stable_order(keys: &Vec<(u64, u64)>) -> (order: Vec<usize>)
    ensures
        is_stable_order(keys@, order@),
{
    let mut order: Vec<usize> = Vec::new();
    let mut n: usize = 0;
    while n < keys.len()
        invariant
            n <= keys@.len(),
            is_stable_order(keys@.take(n as int), order@),
        decreases keys@.len() - n,
    {
        let key: (u64, u64) = keys[n];
        let mut at: usize = order.len();
        let ghost head = keys@.take(n as int);
        while at > 0 && pair_less(key, keys[order[at - 1]])
            invariant
                n < keys@.len(),
                key == keys@[n as int],
                head == keys@.take(n as int),
                is_stable_order(head, order@),
                at <= order@.len(),
                forall|j: int| at <= j < order@.len() ==> pair_lt(key, keys@[#[trigger] order@[j] as int]),
            decreases at,
        {
            at = at - 1;
        }
        let ghost before = order@;
        order.insert(at, n);
        proof {
            let next = keys@.take(n + 1);
            lemma_insert(keys@, before, n, at as int, order@);
        }
        n = n + 1;
    }
    assert(keys@.take(n as int) =~= keys@);
    order
}

proof fn lemma_insert(keys: Seq<(u64, u64)>, before: Seq<usize>, n: usize, at: int, after: Seq<usize>)
    requires
        n < keys.len(),
        is_stable_order(keys.take(n as int), before),
        0 <= at <= before.len(),
        after == before.insert(at, n),
        forall|j: int|
            at <= j < before.len() ==> pair_lt(keys[n as int], keys[#[trigger] before[j] as int]),
        at > 0 ==> !pair_lt(keys[n as int], keys[before[at - 1] as int]),
    ensures
        is_stable_order(keys.take(n + 1), after),
{
    let head = keys.take(n as int);
    let next = keys.take(n + 1);
    assert forall|i: int| 0 <= i < after.len() implies (#[trigger] after[i]) < next.len() by {
        if i < at {
            assert(after[i] == before[i]);
        } else if i > at {
            assert(after[i] == before[i - 1]);
        }
    }
    assert forall|p: int| 0 <= p < next.len() implies #[trigger] has_position(after, p) by {
        if p == n {
            assert(after[at] == p);
        } else {
            assert(has_position(before, p));
            let i = choose|i: int| 0 <= i < before.len() && #[trigger] before[i] == p;
            if i < at {
                assert(after[i] == p);
            } else {
                assert(after[i + 1] == p);
            }
        }
    }
    assert forall|i: int, j: int| 0 <= i < j < after.len() implies goes_before(
        next,
        #[trigger] after[i] as int,
        #[trigger] after[j] as int,
    ) by {
        let bi = if i < at { i } else { i - 1 };
        let bj = if j < at { j } else { j - 1 };
        if i != at && j != at {
            assert(after[i] == before[bi] && after[j] == before[bj]);
            assert(goes_before(head, before[bi] as int, before[bj] as int));
        } else if i == at {
            assert(after[j] == before[bj]);
            assert(bj >= at);
        } else {
            assert(after[i] == before[bi]);
            assert(before[bi] < n);
            if bi < at - 1 {
                assert(goes_before(head, before[bi] as int, before[at - 1] as int));
            }
        }
    }
}

} // verus!
