//! The order of a queue: positions sorted by a key, positions with the same
//! key in ascending order.

use std::collections::VecDeque;
use vstd::prelude::*;

verus! {

/// Whether position `a` stands before position `b` in the queue: its key is
/// lower, or the keys are level and `a` is the lower position.
pub open spec fn goes_before(keys: Seq<i32>, a: usize, b: usize) -> bool {
    keys[a as int] < keys[b as int] || (keys[a as int] == keys[b as int] && a < b)
}

/// Where a new position with the key `key` enters `order`: behind every
/// position whose key is not above `key`.
pub open spec fn insertion_point(order: Seq<usize>, keys: Seq<i32>, key: i32) -> int
    decreases order.len(),
{
    if order.len() == 0 {
        0
    } else if keys[order.last() as int] <= key {
        order.len() as int
    } else {
        insertion_point(order.drop_last(), keys, key)
    }
}

/// The positions of `keys` in the order of the queue.
pub open spec fn stable_order(keys: Seq<i32>) -> Seq<usize>
    decreases keys.len(),
{
    if keys.len() == 0 {
        Seq::empty()
    } else {
        let before = stable_order(keys.drop_last());
        before.insert(
            insertion_point(before, keys.drop_last(), keys.last()),
            (keys.len() - 1) as usize,
        )
    }
}

/// Whether `order` holds every position of `keys` once, each before the
/// positions that it goes before.
pub open spec fn is_stable_order(order: Seq<usize>, keys: Seq<i32>) -> bool {
    &&& order.len() == keys.len()
    &&& forall|k: int| 0 <= k < order.len() ==> #[trigger] order[k] < keys.len()
    &&& forall|p: usize| p < keys.len() ==> order.contains(p)
    &&& forall|j: int, k: int| 0 <= j < k < order.len() ==> goes_before(keys, order[j], order[k])
}

proof fn lemma_insertion_point(order: Seq<usize>, keys: Seq<i32>, key: i32)
    requires
        forall|k: int| 0 <= k < order.len() ==> #[trigger] order[k] < keys.len(),
        forall|j: int, k: int|
            0 <= j < k < order.len() ==> keys[order[j] as int] <= keys[order[k] as int],
    ensures
        0 <= insertion_point(order, keys, key) <= order.len(),
        forall|k: int|
            0 <= k < insertion_point(order, keys, key) ==> keys[#[trigger] order[k] as int] <= key,
        forall|k: int|
            insertion_point(order, keys, key) <= k < order.len() ==> keys[#[trigger] order[k] as int]
                > key,
    decreases order.len(),
{
    if order.len() > 0 {
        if keys[order.last() as int] <= key {
            assert forall|k: int| 0 <= k < order.len() implies keys[#[trigger] order[k] as int]
                <= key by {
                if k < order.len() - 1 {
                    assert(keys[order[k] as int] <= keys[order[order.len() - 1] as int]);
                }
            }
        } else {
            let shorter = order.drop_last();
            assert forall|j: int, k: int| 0 <= j < k < shorter.len() implies keys[shorter[j] as int]
                <= keys[shorter[k] as int] by {
                assert(shorter[j] == order[j] && shorter[k] == order[k]);
            }
            assert forall|k: int| 0 <= k < shorter.len() implies #[trigger] shorter[k]
                < keys.len() by {
                assert(shorter[k] == order[k]);
            }
            lemma_insertion_point(shorter, keys, key);
            let at = insertion_point(order, keys, key);
            assert forall|k: int| 0 <= k < at implies keys[#[trigger] order[k] as int] <= key by {
                assert(shorter[k] == order[k]);
            }
            assert forall|k: int| at <= k < order.len() implies keys[#[trigger] order[k] as int]
                > key by {
                if k < shorter.len() {
                    assert(shorter[k] == order[k]);
                }
            }
        }
    }
}

/// `stable_order` sorts: it holds every position once, by ascending key,
/// and positions with the same key by ascending position.
pub proof fn lemma_stable_order(keys: Seq<i32>)
    requires
        keys.len() <= usize::MAX,
    ensures
        is_stable_order(stable_order(keys), keys),
    decreases keys.len(),
{
    if keys.len() > 0 {
        let shorter = keys.drop_last();
        let before = stable_order(shorter);
        let last = (keys.len() - 1) as usize;
        let at = insertion_point(before, shorter, keys.last());
        let order = stable_order(keys);
        lemma_stable_order(shorter);
        assert forall|j: int, k: int| 0 <= j < k < before.len() implies shorter[before[j] as int]
            <= shorter[before[k] as int] by {
            assert(goes_before(shorter, before[j], before[k]));
        }
        lemma_insertion_point(before, shorter, keys.last());
        assert(order == before.insert(at, last));
        assert forall|k: int| 0 <= k < order.len() implies #[trigger] order[k] < keys.len() by {
            if k < at {
                assert(order[k] == before[k]);
            } else if k > at {
                assert(order[k] == before[k - 1]);
            }
        }
        assert forall|p: usize| p < keys.len() implies order.contains(p) by {
            if p == last {
                assert(order[at] == p);
            } else {
                assert(before.contains(p));
                let k = choose|k: int| 0 <= k < before.len() && before[k] == p;
                if k < at {
                    assert(order[k] == p);
                } else {
                    assert(order[k + 1] == p);
                }
            }
        }
        assert forall|j: int, k: int| 0 <= j < k < order.len() implies goes_before(
            keys,
            order[j],
            order[k],
        ) by {
            let a = if j < at {
                j
            } else {
                j - 1
            };
            let b = if k < at {
                k
            } else {
                k - 1
            };
            if j != at {
                assert(order[j] == before[a]);
                assert(before[a] < shorter.len());
                assert(keys[before[a] as int] == shorter[before[a] as int]);
            }
            if k != at {
                assert(order[k] == before[b]);
                assert(before[b] < shorter.len());
                assert(keys[before[b] as int] == shorter[before[b] as int]);
            }
            if j != at && k != at {
                assert(goes_before(shorter, before[a], before[b]));
            }
        }
    }
}

/// The positions `0..keys.len()`, sorted by key; positions with the same key
/// stay in ascending order.
pub fn sorted_indices(keys: &Vec<i32>) -> (order: VecDeque<usize>)
    ensures
        order@ == stable_order(keys@),
        is_stable_order(order@, keys@),
{
    let mut order: VecDeque<usize> = VecDeque::new();
    let mut idx: usize = 0;
    while idx < keys.len()
        invariant
            idx <= keys.len(),
            order@ == stable_order(keys@.take(idx as int)),
        decreases keys.len() - idx,
    {
        let key: i32 = keys[idx];
        let ghost known = keys@.take(idx as int);
        proof {
            lemma_stable_order(known);
            assert(keys@.take(idx + 1).drop_last() =~= known);
            assert(keys@.take(idx + 1).last() == key);
            assert(order@.take(order.len() as int) =~= order@);
        }
        let mut at: usize = order.len();
        while at > 0 && keys[order[at - 1]] > key
            invariant
                at <= order.len(),
                order.len() == idx,
                idx < keys.len(),
                known == keys@.take(idx as int),
                forall|k: int| 0 <= k < order.len() ==> #[trigger] order@[k] < idx,
                insertion_point(order@, known, key) == insertion_point(
                    order@.take(at as int),
                    known,
                    key,
                ),
            decreases at,
        {
            proof {
                let here = order@.take(at as int);
                assert(here.last() == order@[at - 1]);
                assert(known[order@[at - 1] as int] == keys@[order@[at - 1] as int]);
                assert(here.drop_last() =~= order@.take(at - 1));
            }
            at -= 1;
        }
        proof {
            let here = order@.take(at as int);
            if at > 0 {
                assert(here.last() == order@[at - 1]);
                assert(known[order@[at - 1] as int] == keys@[order@[at - 1] as int]);
            }
            assert(insertion_point(here, known, key) == at);
        }
        order.insert(at, idx);
        idx += 1;
    }
    proof {
        assert(keys@.take(keys.len() as int) =~= keys@);
        lemma_stable_order(keys@);
    }
    order
}

} // verus!
