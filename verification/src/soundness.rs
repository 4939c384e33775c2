//! What holds of every state of the simulation.

use crate::cleaning_crew::CrewView;
use crate::room_data::RoomView;
use crate::crew_pool::{is_next_crew, next_crew};
use crate::queue_order::{lemma_stable_order, stable_order};
use crate::schedule::{
    arrival_key, cleaned_by, cleaning_end_key, current_time, event_of, fresh_crews, front_of,
    initial_progress, queue_by, source_of, starting_crews, step, without_front, CrewPolicy,
    Progress,
};
use crate::triage::{lemma_positions_of, positions_of};
use crate::selector::RoomToCleanSource;
use crate::triage::{class_of, RoomClass};
use vstd::multiset::Multiset;
use vstd::prelude::*;

verus! {

/// The sum of `weight` over `rooms`.
pub open spec fn total(rooms: Seq<RoomView>, weight: spec_fn(RoomView) -> int) -> int
    decreases rooms.len(),
{
    if rooms.len() == 0 {
        0
    } else {
        total(rooms.drop_last(), weight) + weight(rooms.last())
    }
}

/// Replacing one room changes the sum by the difference of the two weights.
pub proof fn lemma_total_update(
    rooms: Seq<RoomView>,
    weight: spec_fn(RoomView) -> int,
    k: int,
    room: RoomView,
)
    requires
        0 <= k < rooms.len(),
    ensures
        total(rooms.update(k, room), weight) == total(rooms, weight) - weight(rooms[k]) + weight(
            room,
        ),
    decreases rooms.len(),
{
    let changed = rooms.update(k, room);
    if k == rooms.len() - 1 {
        assert(changed.drop_last() =~= rooms.drop_last());
    } else {
        assert(changed.drop_last() =~= rooms.drop_last().update(k, room));
        lemma_total_update(rooms.drop_last(), weight, k, room);
    }
}

/// A sum of weights that are not negative is at least each of them, and at
/// most `bound` for each room where no weight is above `bound`.
pub proof fn lemma_total_bounds(rooms: Seq<RoomView>, weight: spec_fn(RoomView) -> int, bound: int)
    requires
        forall|i: int| 0 <= i < rooms.len() ==> 0 <= weight(#[trigger] rooms[i]) <= bound,
    ensures
        0 <= total(rooms, weight) <= rooms.len() * bound,
        forall|i: int| 0 <= i < rooms.len() ==> weight(#[trigger] rooms[i]) <= total(rooms, weight),
    decreases rooms.len(),
{
    if rooms.len() > 0 {
        let shorter = rooms.drop_last();
        assert forall|i: int| 0 <= i < shorter.len() implies 0 <= weight(#[trigger] shorter[i])
            <= bound by {
            assert(shorter[i] == rooms[i]);
        }
        lemma_total_bounds(shorter, weight, bound);
        assert(rooms.last() == rooms[rooms.len() - 1]);
        assert(rooms.len() * bound == shorter.len() * bound + bound) by (nonlinear_arith)
            requires
                rooms.len() == shorter.len() + 1,
        ;
        assert forall|i: int| 0 <= i < rooms.len() implies weight(#[trigger] rooms[i]) <= total(
            rooms,
            weight,
        ) by {
            if i < shorter.len() {
                assert(shorter[i] == rooms[i]);
            }
        }
    }
}

/// Whether the room is still to be cleaned: it was not cleaned yet, and it
/// is vacated at some time.
pub open spec fn is_pending(room: RoomView) -> bool {
    !room.cleaning_completed && !room.is_indefinitely_occupied()
}

/// The weight that counts the rooms that are still to be cleaned.
pub open spec fn by_count() -> spec_fn(RoomView) -> int {
    |r: RoomView|
        if is_pending(r) {
            1int
        } else {
            0int
        }
}

/// How many rooms are still to be cleaned.
pub open spec fn pending_count(rooms: Seq<RoomView>) -> int {
    total(rooms, by_count())
}

/// Whether every entry of `queue` is the position of a room of `class`.
pub open spec fn queue_holds(queue: Seq<usize>, rooms: Seq<RoomView>, class: RoomClass) -> bool {
    forall|k: int|
        0 <= k < queue.len() ==> (#[trigger] queue[k]) < rooms.len() && class_of(
            rooms[queue[k] as int],
        ) == class
}

/// Whether the room at `i`, if it is still to be cleaned, is in the queues
/// of its class.
pub open spec fn is_queued(s: Progress, i: int) -> bool {
    is_pending(s.rooms[i]) ==> match class_of(s.rooms[i]) {
        RoomClass::Reserved => s.by_arrival.contains(i as usize) && s.by_cleaning_end.contains(
            i as usize,
        ),
        RoomClass::Unreserved => s.unreserved.contains(i as usize),
        RoomClass::IndefinitelyOccupied => true,
    }
}

/// What holds of every state that the simulation of `origin` reaches.
pub open spec fn sound(s: Progress, policy: CrewPolicy, origin: Seq<RoomView>) -> bool {
    &&& s.rooms.len() == origin.len()
    &&& origin.len() <= usize::MAX
    &&& forall|i: int|
        0 <= i < origin.len() ==> (#[trigger] s.rooms[i]) == origin[i] || (is_pending(origin[i])
            && s.rooms[i] == origin[i].cleaned())
    &&& queue_holds(s.by_arrival, s.rooms, RoomClass::Reserved)
    &&& queue_holds(s.by_cleaning_end, s.rooms, RoomClass::Reserved)
    &&& queue_holds(s.unreserved, s.rooms, RoomClass::Unreserved)
    &&& forall|i: int| 0 <= i < s.rooms.len() ==> #[trigger] is_queued(s, i)
    &&& s.crews.len() > 0
    &&& s.events.len() + pending_count(s.rooms) == pending_count(origin)
    &&& s.hired <= s.events.len()
    &&& s.late <= s.events.len()
}

/// An entry that is not the front of a queue is in what is left of it.
pub proof fn lemma_stays_queued(queue: Seq<usize>, i: usize)
    requires
        queue.contains(i),
        queue[0] != i,
    ensures
        queue.drop_first().contains(i),
{
    let k = choose|k: int| 0 <= k < queue.len() && queue[k] == i;
    assert(queue.drop_first()[k - 1] == i);
}

/// What is left of a queue holds rooms of the same class.
pub proof fn lemma_rest_holds(queue: Seq<usize>, rooms: Seq<RoomView>, class: RoomClass)
    requires
        queue_holds(queue, rooms, class),
        queue.len() > 0,
    ensures
        queue_holds(queue.drop_first(), rooms, class),
{
    assert forall|k: int| 0 <= k < queue.drop_first().len() implies (
    #[trigger] queue.drop_first()[k]) < rooms.len() && class_of(
        rooms[queue.drop_first()[k] as int],
    ) == class by {
        assert(queue.drop_first()[k] == queue[k + 1]);
    }
}

/// A queue holds rooms of the same class after one of the rooms was cleaned.
pub proof fn lemma_holds_cleaned(
    queue: Seq<usize>,
    rooms: Seq<RoomView>,
    class: RoomClass,
    at: int,
)
    requires
        queue_holds(queue, rooms, class),
        0 <= at < rooms.len(),
    ensures
        queue_holds(queue, rooms.update(at, rooms[at].cleaned()), class),
{
    let after = rooms.update(at, rooms[at].cleaned());
    assert forall|k: int| 0 <= k < queue.len() implies (#[trigger] queue[k]) < after.len()
        && class_of(after[queue[k] as int]) == class by {
        assert(class_of(rooms[queue[k] as int]) == class);
    }
}

/// The queue that is selected has a front, and the front is a room.
pub proof fn lemma_source_has_front(s: Progress)
    requires
        source_of(s) != RoomToCleanSource::Exhausted,
    ensures
        front_of(s, source_of(s)) < s.rooms.len(),
        source_of(s) == RoomToCleanSource::ByArrival ==> s.by_arrival.len() > 0,
        source_of(s) == RoomToCleanSource::ByCleaningEnd ==> s.by_cleaning_end.len() > 0,
        source_of(s) == RoomToCleanSource::Unreserved ==> s.unreserved.len() > 0,
{
}

/// A pool that is not empty has a next crew.
pub proof fn lemma_has_next_crew(pool: Multiset<CrewView>)
    requires
        pool.len() > 0,
    ensures
        is_next_crew(next_crew(pool), pool),
    decreases pool.len(),
{
    broadcast use vstd::multiset::group_multiset_axioms;

    let c = pool.choose();
    assert(pool.contains(c));
    let others = pool.remove(c);
    if others.len() == 0 {
        assert forall|d: CrewView| pool.contains(d) implies c.precedes(d) by {
            if d != c {
                assert(others.contains(d));
            }
        }
        assert(is_next_crew(c, pool));
    } else {
        lemma_has_next_crew(others);
        let m = next_crew(others);
        let best = if c.precedes(m) {
            c
        } else {
            m
        };
        assert forall|d: CrewView| pool.contains(d) implies best.precedes(d) by {
            if d != c {
                assert(others.contains(d));
                assert(m.precedes(d));
            }
        }
        assert(is_next_crew(best, pool));
    }
}

/// A room that is still to be cleaned, and is not the front of the queue
/// that is selected, is in the queues of its class after that front left.
pub proof fn lemma_queued_after_pop(s: Progress, i: int)
    requires
        source_of(s) != RoomToCleanSource::Exhausted,
        0 <= i < s.rooms.len() <= usize::MAX,
        is_queued(s, i),
        is_pending(s.rooms[i]),
        i != front_of(s, source_of(s)),
    ensures
        is_queued(without_front(s, source_of(s)), i),
{
    lemma_source_has_front(s);
    match source_of(s) {
        RoomToCleanSource::ByArrival => {
            if s.by_arrival.contains(i as usize) {
                lemma_stays_queued(s.by_arrival, i as usize);
            }
        },
        RoomToCleanSource::ByCleaningEnd => {
            if s.by_cleaning_end.contains(i as usize) {
                lemma_stays_queued(s.by_cleaning_end, i as usize);
            }
        },
        _ => {
            if s.unreserved.contains(i as usize) {
                lemma_stays_queued(s.unreserved, i as usize);
            }
        },
    }
}

/// Discarding a front that was cleaned before leads to a state of the
/// simulation.
pub proof fn lemma_discard_sound(s: Progress, policy: CrewPolicy, origin: Seq<RoomView>)
    requires
        sound(s, policy, origin),
        source_of(s) != RoomToCleanSource::Exhausted,
        s.rooms[front_of(s, source_of(s)) as int].cleaning_completed,
    ensures
        sound(step(s, policy), policy, origin),
        step(s, policy) == without_front(s, source_of(s)),
{
    let source = source_of(s);
    let at = front_of(s, source);
    let after = without_front(s, source);
    lemma_source_has_front(s);
    match source {
        RoomToCleanSource::ByArrival => {
            lemma_rest_holds(s.by_arrival, s.rooms, RoomClass::Reserved);
        },
        RoomToCleanSource::ByCleaningEnd => {
            lemma_rest_holds(s.by_cleaning_end, s.rooms, RoomClass::Reserved);
        },
        _ => {
            lemma_rest_holds(s.unreserved, s.rooms, RoomClass::Unreserved);
        },
    }
    assert forall|i: int| 0 <= i < after.rooms.len() implies #[trigger] is_queued(after, i) by {
        assert(is_queued(s, i));
        if is_pending(s.rooms[i]) {
            lemma_queued_after_pop(s, i);
        }
    }
}

/// Cleaning the front of the selected queue leads to a state of the
/// simulation, with one event more; the room was still to be cleaned.
pub proof fn lemma_clean_sound(s: Progress, policy: CrewPolicy, origin: Seq<RoomView>)
    requires
        sound(s, policy, origin),
        source_of(s) != RoomToCleanSource::Exhausted,
        !s.rooms[front_of(s, source_of(s)) as int].cleaning_completed,
    ensures
        sound(step(s, policy), policy, origin),
        step(s, policy) == cleaned_by(
            without_front(s, source_of(s)),
            policy,
            front_of(s, source_of(s)),
        ),
        step(s, policy).events == s.events.push(event_of(s, policy, front_of(s, source_of(s)))),
        is_pending(s.rooms[front_of(s, source_of(s)) as int]),
        s.rooms[front_of(s, source_of(s)) as int] == origin[front_of(s, source_of(s)) as int],
        s.events.len() < origin.len(),
{
    broadcast use vstd::multiset::group_multiset_axioms;

    let source = source_of(s);
    let at = front_of(s, source);
    let popped = without_front(s, source);
    let after = cleaned_by(popped, policy, at);
    let room = s.rooms[at as int];
    let event = event_of(popped, policy, at);
    lemma_source_has_front(s);
    assert(popped.rooms == s.rooms && popped.crews == s.crews);
    assert(current_time(popped) == current_time(s));
    assert(event == event_of(s, policy, at));
    match source {
        RoomToCleanSource::ByArrival => {
            assert(class_of(s.rooms[s.by_arrival[0] as int]) == RoomClass::Reserved);
            lemma_rest_holds(s.by_arrival, s.rooms, RoomClass::Reserved);
        },
        RoomToCleanSource::ByCleaningEnd => {
            assert(class_of(s.rooms[s.by_cleaning_end[0] as int]) == RoomClass::Reserved);
            lemma_rest_holds(s.by_cleaning_end, s.rooms, RoomClass::Reserved);
        },
        _ => {
            assert(class_of(s.rooms[s.unreserved[0] as int]) == RoomClass::Unreserved);
            lemma_rest_holds(s.unreserved, s.rooms, RoomClass::Unreserved);
        },
    }
    assert(is_pending(room));
    lemma_holds_cleaned(popped.by_arrival, s.rooms, RoomClass::Reserved, at as int);
    lemma_holds_cleaned(popped.by_cleaning_end, s.rooms, RoomClass::Reserved, at as int);
    lemma_holds_cleaned(popped.unreserved, s.rooms, RoomClass::Unreserved, at as int);

    // One room fewer is still to be cleaned.
    lemma_total_update(s.rooms, by_count(), at as int, room.cleaned());
    assert(pending_count(after.rooms) == pending_count(s.rooms) - 1);
    assert forall|i: int| 0 <= i < origin.len() implies 0 <= by_count()(#[trigger] origin[i])
        <= 1 by {}
    lemma_total_bounds(origin, by_count(), 1);
    assert forall|i: int| 0 <= i < s.rooms.len() implies 0 <= by_count()(#[trigger] s.rooms[i])
        <= 1 by {}
    lemma_total_bounds(s.rooms, by_count(), 1);
    assert(by_count()(s.rooms[at as int]) == 1);
    assert(pending_count(s.rooms) >= 1);
    assert(pending_count(origin) <= origin.len());
    assert(s.events.len() < origin.len());
    assert(after.crews.len() > 0);

    assert forall|i: int| 0 <= i < origin.len() implies (#[trigger] after.rooms[i]) == origin[i]
        || (is_pending(origin[i]) && after.rooms[i] == origin[i].cleaned()) by {
        assert(s.rooms[i] == origin[i] || (is_pending(origin[i]) && s.rooms[i]
            == origin[i].cleaned()));
    }
    assert forall|i: int| 0 <= i < after.rooms.len() implies #[trigger] is_queued(after, i) by {
        assert(is_queued(s, i));
        if is_pending(after.rooms[i]) {
            assert(i != at);
            assert(after.rooms[i] == s.rooms[i]);
            lemma_queued_after_pop(s, i);
        }
    }
}

/// The crews at the start: as many as were asked for, each free at time 0,
/// with the ids from 0 on.
pub proof fn lemma_fresh_crews(n: nat)
    ensures
        fresh_crews(n).len() == n,
        forall|c: CrewView| #[trigger]
            fresh_crews(n).contains(c) <==> c.occupied_until == 0 && 0 <= c.id < n,
        forall|c: CrewView| fresh_crews(n).count(c) <= 1,
    decreases n,
{
    broadcast use vstd::multiset::group_multiset_axioms;

    if n > 0 {
        lemma_fresh_crews((n - 1) as nat);
        let fewer = fresh_crews((n - 1) as nat);
        let last = CrewView { id: n - 1, occupied_until: 0 };
        assert(!fewer.contains(last));
        assert forall|c: CrewView| #[trigger]
            fresh_crews(n).contains(c) <==> c.occupied_until == 0 && 0 <= c.id < n by {
            if c != last {
                assert(fresh_crews(n).contains(c) <==> fewer.contains(c));
            }
        }
        assert forall|c: CrewView| fresh_crews(n).count(c) <= 1 by {
            assert(fewer.count(c) <= 1);
        }
    } else {
        assert(fresh_crews(n).len() == 0);
    }
}

/// A queue of the reserved rooms holds each of them, in whatever order.
pub proof fn lemma_queue_by(rooms: Seq<RoomView>, keys: Seq<i32>)
    requires
        rooms.len() <= usize::MAX,
        keys.len() == positions_of(rooms, RoomClass::Reserved).len(),
    ensures
        queue_holds(
            queue_by(positions_of(rooms, RoomClass::Reserved), keys),
            rooms,
            RoomClass::Reserved,
        ),
        queue_by(positions_of(rooms, RoomClass::Reserved), keys).len() == keys.len(),
        forall|i: usize|
            i < rooms.len() && class_of(rooms[i as int]) == RoomClass::Reserved ==> queue_by(
                positions_of(rooms, RoomClass::Reserved),
                keys,
            ).contains(i),
{
    let reserved = positions_of(rooms, RoomClass::Reserved);
    let order = stable_order(keys);
    let queue = queue_by(reserved, keys);
    lemma_positions_of(rooms, RoomClass::Reserved);
    lemma_stable_order(keys);
    assert forall|k: int| 0 <= k < queue.len() implies (#[trigger] queue[k]) < rooms.len()
        && class_of(rooms[queue[k] as int]) == RoomClass::Reserved by {
        assert(order[k] < keys.len());
        assert(queue[k] == reserved[order[k] as int]);
    }
    assert forall|i: usize|
        i < rooms.len() && class_of(rooms[i as int]) == RoomClass::Reserved implies queue.contains(
        i,
    ) by {
        assert(reserved.contains(i));
        let p = choose|p: int| 0 <= p < reserved.len() && reserved[p] == i;
        assert(order.contains(p as usize));
        let k = choose|k: int| 0 <= k < order.len() && order[k] == p as usize;
        assert(queue[k] == i);
    }
}

/// The simulation starts in one of its states.
pub proof fn lemma_initial_sound(rooms: Seq<RoomView>, policy: CrewPolicy)
    requires
        rooms.len() <= usize::MAX,
    ensures
        sound(initial_progress(rooms, policy), policy, rooms),
{
    let s = initial_progress(rooms, policy);
    let reserved = positions_of(rooms, RoomClass::Reserved);
    lemma_queue_by(rooms, reserved.map_values(|p: usize| arrival_key(rooms[p as int])));
    lemma_queue_by(
        rooms,
        reserved.map_values(|p: usize| cleaning_end_key(rooms[p as int])),
    );
    lemma_positions_of(rooms, RoomClass::Unreserved);
    lemma_fresh_crews(starting_crews(policy));
    assert forall|i: int| 0 <= i < s.rooms.len() implies #[trigger] is_queued(s, i) by {
        assert(i as usize == i);
    }
}

} // verus!
