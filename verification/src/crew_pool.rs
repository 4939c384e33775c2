//! The pool of crews: a binary heap that always hands out the crew that is
//! free first.

use crate::cleaning_crew::{CleaningCrew, CrewView};
use vstd::multiset::Multiset;
use vstd::prelude::*;

verus! {

/// Whether `c` is in `pool` and no crew of `pool` goes before it.
pub open spec fn is_next_crew(c: CrewView, pool: Multiset<CrewView>) -> bool {
    pool.contains(c) && forall|d: CrewView| pool.contains(d) ==> c.precedes(d)
}

/// The crew of `pool` that is handed work next.
pub open spec fn next_crew(pool: Multiset<CrewView>) -> CrewView {
    choose|c: CrewView| is_next_crew(c, pool)
}

/// A pool has at most one next crew.
pub proof fn lemma_next_crew_unique(c: CrewView, pool: Multiset<CrewView>)
    requires
        is_next_crew(c, pool),
    ensures
        next_crew(pool) == c,
{
    let d = next_crew(pool);
    assert(is_next_crew(d, pool));
    assert(c.precedes(d) && d.precedes(c));
}

pub open spec fn crew_views(crews: Seq<CleaningCrew>) -> Seq<CrewView> {
    crews.map_values(|c: CleaningCrew| c@)
}

/// The crews of a sequence, whatever their order.
pub open spec fn crew_set(crews: Seq<CleaningCrew>) -> Multiset<CrewView> {
    crew_views(crews).to_multiset()
}

/// Where the parent of the heap's item at `i` stands.
pub open spec fn parent(i: int) -> int {
    (i - 1) / 2
}

/// Whether `heap[i]` goes before `heap[j]`, or is level with it.
pub open spec fn in_order(heap: Seq<CleaningCrew>, i: int, j: int) -> bool {
    heap[i]@.precedes(heap[j]@)
}

/// Whether every item but the one at `hole` stands behind its parent, and
/// the children of the item at `hole` behind its parent too. With `hole`
/// at the length of the heap this is the order of a heap.
pub open spec fn ordered_but_above(heap: Seq<CleaningCrew>, hole: int) -> bool {
    &&& forall|j: int| 1 <= j < heap.len() && j != hole ==> #[trigger] in_order(heap, parent(j), j)
    &&& forall|j: int|
        1 <= j < heap.len() && parent(j) == hole && hole > 0 ==> #[trigger] in_order(
            heap,
            parent(hole),
            j,
        )
}

/// Whether every item stands behind its parent, but for the children of
/// the item at `hole`, which stand behind the parent of that item.
pub open spec fn ordered_but_below(heap: Seq<CleaningCrew>, hole: int) -> bool {
    &&& forall|j: int|
        1 <= j < heap.len() && parent(j) != hole ==> #[trigger] in_order(heap, parent(j), j)
    &&& forall|j: int|
        1 <= j < heap.len() && parent(j) == hole && hole > 0 ==> #[trigger] in_order(
            heap,
            parent(hole),
            j,
        )
}

/// The order of a heap: every item stands behind its parent.
pub open spec fn heap_ordered(heap: Seq<CleaningCrew>) -> bool {
    forall|j: int| 1 <= j < heap.len() ==> #[trigger] in_order(heap, parent(j), j)
}

/// The two items at `i` and `j` in each other's place.
pub open spec fn swapped(heap: Seq<CleaningCrew>, i: int, j: int) -> Seq<CleaningCrew> {
    heap.update(i, heap[j]).update(j, heap[i])
}

/// Swapping two items changes nothing in what the sequence holds.
proof fn lemma_swap_keeps_crews(heap: Seq<CleaningCrew>, i: int, j: int)
    requires
        0 <= i < heap.len(),
        0 <= j < heap.len(),
    ensures
        crew_set(swapped(heap, i, j)) == crew_set(heap),
{
    broadcast use vstd::multiset::group_multiset_axioms;
    broadcast use vstd::seq_lib::to_multiset_update;
    broadcast use vstd::seq_lib::group_to_multiset_ensures;

    let views = crew_views(heap);
    let one = views.update(i, views[j]);
    let two = one.update(j, views[i]);
    assert(crew_views(swapped(heap, i, j)) =~= two);
    if i == j {
        assert(two =~= views);
    } else {
        assert(views.contains(views[i]));
        assert(views.contains(views[j]));
        assert(one[j] == views[j]);
        assert(one.to_multiset() == views.to_multiset().insert(views[j]).remove(views[i]));
        assert(two.to_multiset() == one.to_multiset().insert(views[i]).remove(views[j]));
        assert(two.to_multiset() =~= views.to_multiset());
    }
}

/// In a heap the first item goes before every other.
proof fn lemma_root_is_next(heap: Seq<CleaningCrew>, j: int)
    requires
        heap_ordered(heap),
        0 <= j < heap.len(),
    ensures
        in_order(heap, 0, j),
    decreases j,
{
    if j > 0 {
        lemma_root_is_next(heap, parent(j));
        assert(in_order(heap, parent(j), j));
    }
}

/// The first item of a heap is the next crew of what the heap holds.
proof fn lemma_root_is_next_crew(heap: Seq<CleaningCrew>)
    requires
        heap_ordered(heap),
        heap.len() > 0,
    ensures
        is_next_crew(heap[0]@, crew_set(heap)),
        next_crew(crew_set(heap)) == heap[0]@,
{
    broadcast use vstd::seq_lib::group_to_multiset_ensures;

    let views = crew_views(heap);
    assert(views[0] == heap[0]@);
    assert(views.contains(views[0]));
    assert forall|d: CrewView| crew_set(heap).contains(d) implies heap[0]@.precedes(d) by {
        assert(views.contains(d));
        let k = choose|k: int| 0 <= k < views.len() && views[k] == d;
        lemma_root_is_next(heap, k);
    }
    lemma_next_crew_unique(heap[0]@, crew_set(heap));
}

/// Moves the item at `at` up until it stands behind its parent.
fn sift_up(heap: &mut Vec<CleaningCrew>, at: usize)
    requires
        at < old(heap).len(),
        ordered_but_above(old(heap)@, at as int),
    ensures
        heap_ordered(final(heap)@),
        crew_set(final(heap)@) == crew_set(old(heap)@),
        final(heap).len() == old(heap).len(),
{
    let mut i: usize = at;
    while i > 0 && !heap[(i - 1) / 2].precedes(&heap[i])
        invariant
            i < heap.len(),
            heap.len() == old(heap).len(),
            ordered_but_above(heap@, i as int),
            crew_set(heap@) == crew_set(old(heap)@),
        ensures
            i == 0 || in_order(heap@, parent(i as int), i as int),
        decreases i,
    {
        let up: usize = (i - 1) / 2;
        let ghost before = heap@;
        let low = heap[i];
        let high = heap[up];
        heap.set(i, high);
        heap.set(up, low);
        proof {
            assert(heap@ == swapped(before, i as int, up as int));
            lemma_swap_keeps_crews(before, i as int, up as int);
            assert(low@.precedes(high@));
            assert forall|j: int| 1 <= j < heap.len() && j != up implies #[trigger] in_order(
                heap@,
                parent(j),
                j,
            ) by {
                if j == i {
                } else if parent(j) == i {
                    assert(in_order(before, parent(i as int), j));
                } else if parent(j) == up {
                    assert(in_order(before, parent(j), j));
                } else {
                    assert(in_order(before, parent(j), j));
                }
            }
            assert forall|j: int|
                1 <= j < heap.len() && parent(j) == up && up > 0 implies #[trigger] in_order(
                heap@,
                parent(up as int),
                j,
            ) by {
                assert(in_order(before, parent(up as int), up as int));
                if j != i {
                    assert(in_order(before, parent(j), j));
                }
            }
        }
        i = up;
    }
    proof {
        assert forall|j: int| 1 <= j < heap.len() implies #[trigger] in_order(
            heap@,
            parent(j),
            j,
        ) by {
            if j != i {
                assert(in_order(heap@, parent(j), j));
            }
        }
    }
}

/// Moves the item at the front down until its children stand behind it.
fn sift_down(heap: &mut Vec<CleaningCrew>)
    requires
        ordered_but_below(old(heap)@, 0),
    ensures
        heap_ordered(final(heap)@),
        crew_set(final(heap)@) == crew_set(old(heap)@),
        final(heap).len() == old(heap).len(),
{
    let mut i: usize = 0;
    let len: usize = heap.len();
    while i < len / 2
        invariant
            len == heap.len(),
            heap.len() == old(heap).len(),
            ordered_but_below(heap@, i as int),
            crew_set(heap@) == crew_set(old(heap)@),
        ensures
            len == heap.len(),
            heap.len() == old(heap).len(),
            crew_set(heap@) == crew_set(old(heap)@),
            heap_ordered(heap@),
        decreases len - i,
    {
        let left: usize = 2 * i + 1;
        let right: usize = left + 1;
        let child: usize = if right < len && !heap[left].precedes(&heap[right]) {
            right
        } else {
            left
        };
        if heap[i].precedes(&heap[child]) {
            proof {
                assert forall|j: int| 1 <= j < heap.len() implies #[trigger] in_order(
                    heap@,
                    parent(j),
                    j,
                ) by {
                    if parent(j) == i {
                        assert(j == left || j == right);
                    } else {
                        assert(in_order(heap@, parent(j), j));
                    }
                }
            }
            break ;
        }
        let ghost before = heap@;
        let high = heap[i];
        let low = heap[child];
        heap.set(i, low);
        heap.set(child, high);
        proof {
            assert(heap@ == swapped(before, i as int, child as int));
            lemma_swap_keeps_crews(before, i as int, child as int);
            assert(low@.precedes(high@));
            assert forall|j: int|
                1 <= j < heap.len() && parent(j) != child implies #[trigger] in_order(
                heap@,
                parent(j),
                j,
            ) by {
                if j == child {
                } else if parent(j) == i {
                    assert(j == left || j == right);
                } else if j == i {
                    assert(in_order(before, parent(i as int), child as int));
                } else {
                    assert(in_order(before, parent(j), j));
                }
            }
            assert forall|j: int|
                1 <= j < heap.len() && parent(j) == child && child > 0 implies #[trigger] in_order(
                heap@,
                parent(child as int),
                j,
            ) by {
                assert(in_order(before, parent(j), j));
            }
        }
        i = child;
    }
    proof {
        if i >= len / 2 {
            assert forall|j: int| 1 <= j < heap.len() implies #[trigger] in_order(
                heap@,
                parent(j),
                j,
            ) by {
                assert(parent(j) != i);
            }
        }
    }
}

/// The crews that wait for work. The crew that is free first is handed out
/// first, and of two that are free at the same time the one with the lower
/// id.
pub struct CrewPool {
    crews: Vec<CleaningCrew>,
}

impl View for CrewPool {
    type V = Multiset<CrewView>;

    closed spec fn view(&self) -> Multiset<CrewView> {
        crew_set(self.crews@)
    }
}

impl CrewPool {
    #[verifier::type_invariant]
    closed spec fn is_heap(&self) -> bool {
        heap_ordered(self.crews@)
    }

    pub fn new() -> (pool: Self)
        ensures
            pool@ == Multiset::<CrewView>::empty(),
    {
        let pool = CrewPool { crews: Vec::new() };
        proof {
            broadcast use vstd::seq_lib::group_to_multiset_ensures;

            assert(crew_views(pool.crews@) =~= Seq::<CrewView>::empty());
            assert(pool@.len() == 0);
            assert(pool@ =~= Multiset::<CrewView>::empty());
        }
        pool
    }

    pub fn len(&self) -> (n: usize)
        ensures
            n == self@.len(),
    {
        proof {
            broadcast use vstd::seq_lib::group_to_multiset_ensures;

        }
        self.crews.len()
    }

    /// Puts a crew into the pool.
    pub fn push(&mut self, crew: CleaningCrew)
        ensures
            final(self)@ == old(self)@.insert(crew@),
    {
        proof {
            use_type_invariant(&*self);
            broadcast use vstd::seq_lib::group_to_multiset_ensures;

            assert(crew_views(self.crews@.push(crew)) =~= crew_views(self.crews@).push(crew@));
        }
        let ghost before = self.crews@;
        let mut heap: Vec<CleaningCrew> = Vec::new();
        core::mem::swap(&mut heap, &mut self.crews);
        let at: usize = heap.len();
        heap.push(crew);
        proof {
            assert(heap@ == before.push(crew));
            assert forall|j: int|
                1 <= j < heap.len() && j != at implies #[trigger] in_order(heap@, parent(j), j) by {
                assert(in_order(before, parent(j), j));
            }
        }
        sift_up(&mut heap, at);
        self.crews = heap;
    }

    /// The crew that is handed work next; `None` where the pool is empty.
    pub fn peek(&self) -> (crew: Option<CleaningCrew>)
        ensures
            crew is None <==> self@.len() == 0,
            crew matches Some(c) ==> c@ == next_crew(self@) && is_next_crew(c@, self@),
    {
        proof {
            use_type_invariant(self);
            broadcast use vstd::seq_lib::group_to_multiset_ensures;

        }
        if self.crews.len() == 0 {
            return None;
        }
        proof {
            lemma_root_is_next_crew(self.crews@);
        }
        Some(self.crews[0])
    }

    /// Takes the next crew out of the pool; `None` where the pool is empty.
    pub fn pop(&mut self) -> (crew: Option<CleaningCrew>)
        ensures
            crew is None <==> old(self)@.len() == 0,
            crew is None ==> final(self)@ == old(self)@,
            crew matches Some(c) ==> c@ == next_crew(old(self)@) && is_next_crew(c@, old(self)@)
                && final(self)@ == old(self)@.remove(c@),
    {
        proof {
            use_type_invariant(&*self);
            broadcast use vstd::seq_lib::group_to_multiset_ensures;

        }
        if self.crews.len() == 0 {
            return None;
        }
        let mut heap: Vec<CleaningCrew> = Vec::new();
        core::mem::swap(&mut heap, &mut self.crews);
        let ghost before = heap@;
        proof {
            lemma_root_is_next_crew(before);
        }
        let first = heap[0];
        let last_at: usize = heap.len() - 1;
        let last = heap[last_at];
        heap.set(0, last);
        let _ = heap.pop();
        proof {
            broadcast use vstd::multiset::group_multiset_axioms;

            lemma_swap_keeps_crews(before, 0, last_at as int);
            let turned = swapped(before, 0, last_at as int);
            assert(heap@ =~= turned.drop_last());
            assert(turned.last() == first);
            assert(crew_views(turned).drop_last() =~= crew_views(heap@));
            assert(crew_views(turned).remove(last_at as int) =~= crew_views(heap@));
            assert(crew_set(heap@) == crew_set(before).remove(first@));
            assert forall|j: int|
                1 <= j < heap.len() && parent(j) != 0 implies #[trigger] in_order(
                heap@,
                parent(j),
                j,
            ) by {
                assert(in_order(before, parent(j), j));
            }
        }
        sift_down(&mut heap);
        self.crews = heap;
        Some(first)
    }
}

} // verus!
