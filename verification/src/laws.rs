//! What holds of every schedule.

use crate::cleaning_crew::CrewView;
use crate::crew_pool::next_crew;
use crate::room_data::RoomView;
use crate::schedule::{
    cleaned_by, current_time, entries_left, event_of, front_of, initial_progress,
    lemma_step_uses_an_entry, run, schedule_of, source_of, starting_crews, step, without_front,
    CrewPolicy, EventView, Progress,
};
use crate::scheduler::{event_views, is_checked_outcome, Schedule, ScheduleError};
use crate::selector::RoomToCleanSource;
use crate::soundness::{
    by_count, is_pending, is_queued, lemma_clean_sound, lemma_discard_sound, lemma_fresh_crews,
    lemma_has_next_crew, lemma_initial_sound, lemma_source_has_front, lemma_total_bounds,
    lemma_total_update, pending_count, sound, total,
};
use crate::triage::{positions_of, RoomClass};
use vstd::multiset::Multiset;
use vstd::prelude::*;

verus! {

/// Whether one of `events` is the cleaning of the room at `i`.
pub open spec fn cleaned_in(events: Seq<EventView>, i: int) -> bool {
    exists|k: int| 0 <= k < events.len() && (#[trigger] events[k]).room_index == i
}

/// Whether no crew is in the pool twice, and no id either.
pub open spec fn crews_distinct(crews: Multiset<CrewView>) -> bool {
    &&& forall|c: CrewView| crews.count(c) <= 1
    &&& forall|c: CrewView, d: CrewView|
        #![trigger crews.contains(c), crews.contains(d)]
        crews.contains(c) && crews.contains(d) && c.id == d.id ==> c == d
}

/// Whether `id` is that of a crew of the start or of one of the `hired`
/// crews that were hired since.
pub open spec fn known_id(id: int, hired: nat, policy: CrewPolicy) -> bool {
    0 <= id < starting_crews(policy) || policy.initial_crews < id <= policy.initial_crews + hired
}

/// The policies that make sense: the count of crews is not negative, or
/// at least nobody is hired.
pub open spec fn is_policy(policy: CrewPolicy) -> bool {
    policy.initial_crews >= 0 || !policy.hiring
}

/// How many of `events` are late.
pub open spec fn late_events(events: Seq<EventView>) -> nat
    decreases events.len(),
{
    if events.len() == 0 {
        0
    } else {
        late_events(events.drop_last()) + if events.last().late {
            1nat
        } else {
            0nat
        }
    }
}

/// How many of `events` are the work of a crew that was hired for them.
pub open spec fn hired_events(events: Seq<EventView>) -> nat
    decreases events.len(),
{
    if events.len() == 0 {
        0
    } else {
        hired_events(events.drop_last()) + if events.last().hired {
            1nat
        } else {
            0nat
        }
    }
}

/// The weight that counts the reserved rooms that are still to be cleaned.
pub open spec fn by_deadline() -> spec_fn(RoomView) -> int {
    |r: RoomView|
        if is_pending(r) && r.is_reserved() {
            1int
        } else {
            0int
        }
}

/// How many reserved rooms are still to be cleaned.
pub open spec fn reserved_pending(rooms: Seq<RoomView>) -> int {
    total(rooms, by_deadline())
}

/// The numbers of the rooms that are still to be cleaned, a number as
/// often as there are such rooms with it.
pub open spec fn pending_numbers(rooms: Seq<RoomView>) -> Multiset<int>
    decreases rooms.len(),
{
    if rooms.len() == 0 {
        Multiset::empty()
    } else if is_pending(rooms.last()) {
        pending_numbers(rooms.drop_last()).insert(rooms.last().room_number as int)
    } else {
        pending_numbers(rooms.drop_last())
    }
}

/// The room numbers of the events, a number as often as there are events
/// with it.
pub open spec fn event_numbers(events: Seq<EventView>) -> Multiset<int>
    decreases events.len(),
{
    if events.len() == 0 {
        Multiset::empty()
    } else {
        event_numbers(events.drop_last()).insert(events.last().room_number)
    }
}

/// Cleaning a room that was still to be cleaned takes its number out of the
/// numbers of such rooms, once.
pub proof fn lemma_pending_numbers_cleaned(rooms: Seq<RoomView>, k: int)
    requires
        0 <= k < rooms.len(),
        is_pending(rooms[k]),
    ensures
        pending_numbers(rooms).count(rooms[k].room_number as int) >= 1,
        pending_numbers(rooms.update(k, rooms[k].cleaned())) == pending_numbers(rooms).remove(
            rooms[k].room_number as int,
        ),
    decreases rooms.len(),
{
    broadcast use vstd::multiset::group_multiset_axioms;

    let changed = rooms.update(k, rooms[k].cleaned());
    let number = rooms[k].room_number as int;
    if k == rooms.len() - 1 {
        assert(changed.drop_last() =~= rooms.drop_last());
        assert(pending_numbers(changed) =~= pending_numbers(rooms).remove(number));
    } else {
        lemma_pending_numbers_cleaned(rooms.drop_last(), k);
        assert(changed.drop_last() =~= rooms.drop_last().update(k, rooms[k].cleaned()));
        assert(changed.last() == rooms.last());
        assert(pending_numbers(changed) =~= pending_numbers(rooms).remove(number));
    }
}

/// Where no room is still to be cleaned, there are no numbers of such rooms.
pub proof fn lemma_no_pending_numbers(rooms: Seq<RoomView>)
    requires
        forall|i: int| 0 <= i < rooms.len() ==> !is_pending(#[trigger] rooms[i]),
    ensures
        pending_numbers(rooms) == Multiset::<int>::empty(),
    decreases rooms.len(),
{
    if rooms.len() > 0 {
        let shorter = rooms.drop_last();
        assert forall|i: int| 0 <= i < shorter.len() implies !is_pending(#[trigger] shorter[i]) by {
            assert(shorter[i] == rooms[i]);
        }
        lemma_no_pending_numbers(shorter);
        assert(!is_pending(rooms[rooms.len() - 1]));
    }
}

/// Whether no room that is still to be cleaned has a negative cleaning time.
pub open spec fn no_negative_duration(rooms: Seq<RoomView>) -> bool {
    forall|i: int| 0 <= i < rooms.len() && is_pending(#[trigger] rooms[i]) ==> rooms[i].duration() >= 0
}

/// What holds of one event of a schedule of `origin`: it is the cleaning of
/// a room that was to be cleaned, under its number; it is late if and only
/// if the cleaning was over after the guest arrived; its crew is a known
/// one; a crew was hired only where hiring is allowed, under an id above
/// those of the start, for a reserved room with a deadline, and started
/// when the room was vacated.
pub open spec fn event_holds(
    e: EventView,
    hired: nat,
    policy: CrewPolicy,
    origin: Seq<RoomView>,
) -> bool {
    &&& 0 <= e.room_index < origin.len()
    &&& is_pending(origin[e.room_index])
    &&& e.room_number == origin[e.room_index].room_number
    &&& e.late == origin[e.room_index].late_at(e.completion_time)
    &&& known_id(e.crew_id, hired, policy)
    &&& e.hired ==> policy.hiring && policy.initial_crews < e.crew_id
    &&& e.hired ==> origin[e.room_index].is_reserved() && origin[e.room_index].latest_cleaning_start() is Some
        && e.completion_time == origin[e.room_index].completion(
        origin[e.room_index].vacant_from(),
    )
}

/// What holds of an event `a` and a later event `b`: they clean different
/// rooms, and of two hired crews the later has the higher id.
pub open spec fn events_in_order(a: EventView, b: EventView) -> bool {
    &&& a.room_index != b.room_index
    &&& a.hired && b.hired ==> a.crew_id < b.crew_id
}

/// What holds of the events and the crews of every state that the
/// simulation of `origin` reaches.
pub open spec fn lawful(s: Progress, policy: CrewPolicy, origin: Seq<RoomView>) -> bool {
    &&& crews_distinct(s.crews)
    &&& forall|c: CrewView| #[trigger] s.crews.contains(c) ==> known_id(c.id, s.hired, policy)
    &&& forall|k: int|
        0 <= k < s.events.len() ==> event_holds(#[trigger] s.events[k], s.hired, policy, origin)
    &&& forall|j: int, k: int|
        #![trigger s.events[j], s.events[k]]
        0 <= j < k < s.events.len() ==> events_in_order(s.events[j], s.events[k])
    &&& forall|i: int|
        0 <= i < origin.len() && is_pending(origin[i]) ==> ((#[trigger] s.rooms[i]).cleaning_completed
            <==> cleaned_in(s.events, i))
    &&& s.late == late_events(s.events)
    &&& s.hired == hired_events(s.events)
    &&& forall|k: int|
        0 <= k < s.events.len() && (#[trigger] s.events[k]).hired ==> s.events[k].crew_id
            == policy.initial_crews + hired_events(s.events.take(k + 1))
    &&& s.hired + reserved_pending(s.rooms) <= reserved_pending(origin)
    &&& event_numbers(s.events).add(pending_numbers(s.rooms)) == pending_numbers(origin)
}

/// What holds besides where no cleaning time is negative: no event of a
/// crew is over after the time at which that crew is free, and of two events
/// of the same crew the later one is over no earlier.
pub open spec fn timely(s: Progress) -> bool {
    &&& forall|k: int, c: CrewView|
        #![trigger s.events[k], s.crews.contains(c)]
        0 <= k < s.events.len() && s.crews.contains(c) && c.id == s.events[k].crew_id
            ==> s.events[k].completion_time <= c.occupied_until
    &&& forall|j: int, k: int|
        #![trigger s.events[j], s.events[k]]
        0 <= j < k < s.events.len() && s.events[j].crew_id == s.events[k].crew_id
            ==> s.events[j].completion_time <= s.events[k].completion_time
}

/// The simulation starts in a state of which the laws hold.
pub proof fn lemma_initial_lawful(rooms: Seq<RoomView>, policy: CrewPolicy)
    requires
        rooms.len() <= usize::MAX,
    ensures
        lawful(initial_progress(rooms, policy), policy, rooms),
        timely(initial_progress(rooms, policy)),
{
    broadcast use vstd::multiset::group_multiset_axioms;

    lemma_fresh_crews(starting_crews(policy));
    let s = initial_progress(rooms, policy);
    assert(event_numbers(s.events).add(pending_numbers(s.rooms)) =~= pending_numbers(rooms));
}

/// One more event is one more in the counts, where it is late or hired.
pub proof fn lemma_counts_push(events: Seq<EventView>, e: EventView)
    ensures
        late_events(events.push(e)) == late_events(events) + if e.late {
            1nat
        } else {
            0nat
        },
        hired_events(events.push(e)) == hired_events(events) + if e.hired {
            1nat
        } else {
            0nat
        },
{
    assert(events.push(e).drop_last() =~= events);
}

/// The crews after a cleaning: the crew that cleaned, as it is then, and
/// the crews of before, but for the next crew where that one cleaned.
pub proof fn lemma_crews_after_cleaning(s: Progress, policy: CrewPolicy, at: usize)
    requires
        s.crews.count(next_crew(s.crews)) <= 1,
    ensures
        forall|c: CrewView| #[trigger]
            cleaned_by(s, policy, at).crews.contains(c) ==> c == (CrewView {
                id: event_of(s, policy, at).crew_id,
                occupied_until: event_of(s, policy, at).completion_time,
            }) || (s.crews.contains(c) && (event_of(s, policy, at).hired || c != next_crew(
                s.crews,
            ))),
{
    broadcast use vstd::multiset::group_multiset_axioms;

}

/// A step keeps the laws.
pub proof fn lemma_step_lawful(s: Progress, policy: CrewPolicy, origin: Seq<RoomView>)
    requires
        sound(s, policy, origin),
        lawful(s, policy, origin),
        is_policy(policy),
        source_of(s) != RoomToCleanSource::Exhausted,
    ensures
        sound(step(s, policy), policy, origin),
        lawful(step(s, policy), policy, origin),
{
    broadcast use vstd::multiset::group_multiset_axioms;

    let source = source_of(s);
    let at = front_of(s, source);
    let after = step(s, policy);
    lemma_source_has_front(s);
    if s.rooms[at as int].cleaning_completed {
        lemma_discard_sound(s, policy, origin);
        assert(after.events == s.events && after.crews == s.crews && after.rooms == s.rooms
            && after.hired == s.hired);
    } else {
        lemma_clean_sound(s, policy, origin);
        lemma_has_next_crew(s.crews);
        let room = s.rooms[at as int];
        let next = next_crew(s.crews);
        let event = event_of(s, policy, at);
        let busy = CrewView { id: event.crew_id, occupied_until: event.completion_time };
        let n = s.events.len() as int;
        assert(after.events == s.events.push(event));
        assert(after.events[n] == event);
        assert(room == origin[at as int]);
        assert(s.crews.contains(next));
        assert(known_id(next.id, s.hired, policy));
        lemma_counts_push(s.events, event);

        // The crews.
        lemma_crews_after_cleaning(without_front(s, source), policy, at);
        assert forall|c: CrewView| after.crews.count(c) <= 1 by {
            assert(s.crews.count(c) <= 1);
            if c == busy && s.crews.contains(busy) {
                assert(known_id(busy.id, s.hired, policy));
                if !event.hired {
                    assert(busy.id == next.id);
                    assert(busy == next);
                }
            }
        }
        assert forall|c: CrewView, d: CrewView|
            #![trigger after.crews.contains(c), after.crews.contains(d)]
            after.crews.contains(c) && after.crews.contains(d) && c.id == d.id implies c == d by {
            if c != busy {
                assert(s.crews.contains(c));
                assert(known_id(c.id, s.hired, policy));
            }
            if d != busy {
                assert(s.crews.contains(d));
                assert(known_id(d.id, s.hired, policy));
            }
        }
        assert forall|c: CrewView| #[trigger] after.crews.contains(c) implies known_id(
            c.id,
            after.hired,
            policy,
        ) by {
            if c != busy {
                assert(s.crews.contains(c));
                assert(known_id(c.id, s.hired, policy));
            }
        }

        // The events.
        assert forall|k: int| 0 <= k < after.events.len() implies event_holds(
            #[trigger] after.events[k],
            after.hired,
            policy,
            origin,
        ) by {
            if k < n {
                assert(after.events[k] == s.events[k]);
                assert(event_holds(s.events[k], s.hired, policy, origin));
            }
        }
        assert forall|j: int, k: int|
            #![trigger after.events[j], after.events[k]]
            0 <= j < k < after.events.len() implies events_in_order(
            after.events[j],
            after.events[k],
        ) by {
            assert(after.events[j] == s.events[j]);
            if k < n {
                assert(after.events[k] == s.events[k]);
            } else {
                assert(event_holds(s.events[j], s.hired, policy, origin));
                assert(is_pending(origin[at as int]));
                if s.events[j].room_index == at {
                    assert(cleaned_in(s.events, at as int));
                }
            }
        }
        assert forall|k: int|
            0 <= k < after.events.len() && (
            #[trigger] after.events[k]).hired implies after.events[k].crew_id
            == policy.initial_crews + hired_events(after.events.take(k + 1)) by {
            if k < n {
                assert(after.events[k] == s.events[k]);
                assert(after.events.take(k + 1) =~= s.events.take(k + 1));
            } else {
                assert(after.events.take(k + 1) =~= after.events);
            }
        }

        // The rooms.
        lemma_total_update(s.rooms, by_deadline(), at as int, room.cleaned());
        lemma_pending_numbers_cleaned(s.rooms, at as int);
        assert(after.events.drop_last() =~= s.events);
        assert(event_numbers(after.events).add(pending_numbers(after.rooms))
            =~= event_numbers(s.events).add(pending_numbers(s.rooms)));
        assert forall|i: int| 0 <= i < origin.len() && is_pending(origin[i]) implies ((
        #[trigger] after.rooms[i]).cleaning_completed <==> cleaned_in(after.events, i)) by {
            if i == at {
                assert(after.events[n].room_index == i);
            } else {
                assert(after.rooms[i] == s.rooms[i]);
                if cleaned_in(s.events, i) {
                    let k = choose|k: int| 0 <= k < s.events.len() && (
                    #[trigger] s.events[k]).room_index == i;
                    assert(after.events[k] == s.events[k]);
                }
                if cleaned_in(after.events, i) {
                    let k = choose|k: int| 0 <= k < after.events.len() && (
                    #[trigger] after.events[k]).room_index == i;
                    assert(k < n);
                    assert(after.events[k] == s.events[k]);
                }
            }
        }
    }
}

/// Where no cleaning time is negative, a step keeps the crews from going
/// back in time.
pub proof fn lemma_step_timely(s: Progress, policy: CrewPolicy, origin: Seq<RoomView>)
    requires
        sound(s, policy, origin),
        lawful(s, policy, origin),
        timely(s),
        is_policy(policy),
        no_negative_duration(origin),
        source_of(s) != RoomToCleanSource::Exhausted,
    ensures
        timely(step(s, policy)),
{
    broadcast use vstd::multiset::group_multiset_axioms;

    let source = source_of(s);
    let at = front_of(s, source);
    let after = step(s, policy);
    lemma_source_has_front(s);
    if s.rooms[at as int].cleaning_completed {
        lemma_discard_sound(s, policy, origin);
        assert(after.events == s.events && after.crews == s.crews);
    } else {
        lemma_clean_sound(s, policy, origin);
        lemma_has_next_crew(s.crews);
        let next = next_crew(s.crews);
        let event = event_of(s, policy, at);
        let busy = CrewView { id: event.crew_id, occupied_until: event.completion_time };
        let n = s.events.len() as int;
        assert(after.events == s.events.push(event));
        assert(after.events[n] == event);
        assert(s.rooms[at as int].duration() >= 0);
        assert(s.crews.contains(next));
        assert(!event.hired ==> event.completion_time >= next.occupied_until);
        lemma_crews_after_cleaning(without_front(s, source), policy, at);
        assert forall|k: int, c: CrewView|
            #![trigger after.events[k], after.crews.contains(c)]
            0 <= k < after.events.len() && after.crews.contains(c) && c.id
                == after.events[k].crew_id implies after.events[k].completion_time
            <= c.occupied_until by {
            if k < n {
                assert(after.events[k] == s.events[k]);
                assert(event_holds(s.events[k], s.hired, policy, origin));
                if c == busy {
                    if !event.hired {
                        assert(s.crews.contains(next) && next.id == s.events[k].crew_id);
                    }
                } else {
                    assert(s.crews.contains(c));
                }
            } else {
                if c != busy {
                    assert(s.crews.contains(c));
                    assert(known_id(c.id, s.hired, policy));
                }
            }
        }
        assert forall|j: int, k: int|
            #![trigger after.events[j], after.events[k]]
            0 <= j < k < after.events.len() && after.events[j].crew_id
                == after.events[k].crew_id implies after.events[j].completion_time
            <= after.events[k].completion_time by {
            assert(after.events[j] == s.events[j]);
            if k < n {
                assert(after.events[k] == s.events[k]);
            } else {
                assert(event_holds(s.events[j], s.hired, policy, origin));
                if !event.hired {
                    assert(s.crews.contains(next) && next.id == s.events[j].crew_id);
                }
            }
        }
    }
}

/// The simulation ends, with every queue used up, in a state of which the
/// laws hold.
pub proof fn lemma_run_lawful(s: Progress, policy: CrewPolicy, origin: Seq<RoomView>)
    requires
        sound(s, policy, origin),
        lawful(s, policy, origin),
        is_policy(policy),
    ensures
        sound(run(s, policy), policy, origin),
        lawful(run(s, policy), policy, origin),
        source_of(run(s, policy)) == RoomToCleanSource::Exhausted,
        timely(s) && no_negative_duration(origin) ==> timely(run(s, policy)),
    decreases entries_left(s),
{
    if source_of(s) != RoomToCleanSource::Exhausted {
        lemma_step_lawful(s, policy, origin);
        if timely(s) && no_negative_duration(origin) {
            lemma_step_timely(s, policy, origin);
        }
        lemma_step_uses_an_entry(s, policy);
        lemma_run_lawful(step(s, policy), policy, origin);
    }
}

/// The schedule of `rooms` is a state of the simulation in which every
/// queue is used up, and the laws hold of it.
pub proof fn lemma_schedule_lawful(rooms: Seq<RoomView>, policy: CrewPolicy)
    requires
        rooms.len() <= usize::MAX,
        is_policy(policy),
    ensures
        sound(schedule_of(rooms, policy), policy, rooms),
        lawful(schedule_of(rooms, policy), policy, rooms),
        source_of(schedule_of(rooms, policy)) == RoomToCleanSource::Exhausted,
        no_negative_duration(rooms) ==> timely(schedule_of(rooms, policy)),
{
    lemma_initial_sound(rooms, policy);
    lemma_initial_lawful(rooms, policy);
    lemma_run_lawful(initial_progress(rooms, policy), policy, rooms);
}

/// Every room that is to be cleaned is cleaned exactly once, under its
/// number, and no other room is cleaned: the schedule has one event for
/// each room that was not cleaned before and is vacated at some time, and
/// none besides. So the room numbers of the events are the numbers of
/// those rooms, each as often.
pub proof fn law_each_room_is_cleaned_once(rooms: Seq<RoomView>, policy: CrewPolicy)
    requires
        rooms.len() <= usize::MAX,
        is_policy(policy),
    ensures
        schedule_of(rooms, policy).events.len() == pending_count(rooms),
        forall|i: int|
            0 <= i < rooms.len() && is_pending(#[trigger] rooms[i]) ==> cleaned_in(
                schedule_of(rooms, policy).events,
                i,
            ),
        forall|k: int|
            0 <= k < schedule_of(rooms, policy).events.len() ==> {
                let e = #[trigger] schedule_of(rooms, policy).events[k];
                &&& 0 <= e.room_index < rooms.len()
                &&& is_pending(rooms[e.room_index])
                &&& e.room_number == rooms[e.room_index].room_number
            },
        forall|j: int, k: int|
            #![trigger schedule_of(rooms, policy).events[j], schedule_of(rooms, policy).events[k]]
            0 <= j < k < schedule_of(rooms, policy).events.len() ==> schedule_of(
                rooms,
                policy,
            ).events[j].room_index != schedule_of(rooms, policy).events[k].room_index,
        event_numbers(schedule_of(rooms, policy).events) == pending_numbers(rooms),
{
    broadcast use vstd::multiset::group_multiset_axioms;

    let end = schedule_of(rooms, policy);
    lemma_schedule_lawful(rooms, policy);
    assert(end.by_arrival.len() == 0 && end.by_cleaning_end.len() == 0 && end.unreserved.len()
        == 0) by {
        if end.by_arrival.len() > 0 {
            assert(end.by_arrival[0] < end.rooms.len());
        }
        if end.by_cleaning_end.len() > 0 {
            assert(end.by_cleaning_end[0] < end.rooms.len());
        }
        if end.unreserved.len() > 0 {
            assert(end.unreserved[0] < end.rooms.len());
        }
    }
    assert forall|i: int| 0 <= i < end.rooms.len() implies !is_pending(#[trigger] end.rooms[i]) by {
        assert(is_queued(end, i));
    }
    assert forall|i: int| 0 <= i < end.rooms.len() implies 0 <= by_count()(
        #[trigger] end.rooms[i],
    ) <= 0 by {
        assert(!is_pending(end.rooms[i]));
    }
    lemma_total_bounds(end.rooms, by_count(), 0);
    assert(pending_count(end.rooms) == 0);
    lemma_no_pending_numbers(end.rooms);
    assert(event_numbers(end.events) =~= pending_numbers(rooms));
    assert forall|i: int| 0 <= i < rooms.len() && is_pending(#[trigger] rooms[i]) implies cleaned_in(
        end.events,
        i,
    ) by {
        assert(!is_pending(end.rooms[i]));
        assert(end.rooms[i] == rooms[i] || end.rooms[i] == rooms[i].cleaned());
    }
    assert forall|k: int| 0 <= k < end.events.len() implies {
        let e = #[trigger] end.events[k];
        &&& 0 <= e.room_index < rooms.len()
        &&& is_pending(rooms[e.room_index])
        &&& e.room_number == rooms[e.room_index].room_number
    } by {
        assert(event_holds(end.events[k], end.hired, policy, rooms));
    }
    assert forall|j: int, k: int|
        #![trigger end.events[j], end.events[k]]
        0 <= j < k < end.events.len() implies end.events[j].room_index
        != end.events[k].room_index by {
        assert(events_in_order(end.events[j], end.events[k]));
    }
}

/// Where no room was cleaned before, the rooms that are still to be
/// cleaned are those that are vacated at some time.
pub proof fn lemma_pending_are_vacated(rooms: Seq<RoomView>)
    requires
        rooms.len() <= usize::MAX,
        forall|i: int| 0 <= i < rooms.len() ==> !(#[trigger] rooms[i]).cleaning_completed,
    ensures
        pending_count(rooms) + positions_of(rooms, RoomClass::IndefinitelyOccupied).len()
            == rooms.len(),
    decreases rooms.len(),
{
    if rooms.len() > 0 {
        let shorter = rooms.drop_last();
        assert forall|i: int| 0 <= i < shorter.len() implies !(
        #[trigger] shorter[i]).cleaning_completed by {
            assert(shorter[i] == rooms[i]);
        }
        lemma_pending_are_vacated(shorter);
        assert(rooms.last() == rooms[rooms.len() - 1]);
    }
}

/// On rooms of which none was cleaned before, the number of events is the
/// number of rooms that are vacated at some time: each of them is cleaned
/// once, and no room that is never vacated is cleaned.
pub proof fn law_one_event_for_each_vacated_room(rooms: Seq<RoomView>, policy: CrewPolicy)
    requires
        rooms.len() <= usize::MAX,
        is_policy(policy),
        forall|i: int| 0 <= i < rooms.len() ==> !(#[trigger] rooms[i]).cleaning_completed,
    ensures
        schedule_of(rooms, policy).events.len() + positions_of(
            rooms,
            RoomClass::IndefinitelyOccupied,
        ).len() == rooms.len(),
        forall|i: int|
            0 <= i < rooms.len() ==> (cleaned_in(schedule_of(rooms, policy).events, i) <==> !(
            #[trigger] rooms[i]).is_indefinitely_occupied()),
{
    let end = schedule_of(rooms, policy);
    law_each_room_is_cleaned_once(rooms, policy);
    lemma_pending_are_vacated(rooms);
    assert forall|i: int| 0 <= i < rooms.len() implies (cleaned_in(end.events, i) <==> !(
    #[trigger] rooms[i]).is_indefinitely_occupied()) by {
        if cleaned_in(end.events, i) {
            let k = choose|k: int| 0 <= k < end.events.len() && (
            #[trigger] end.events[k]).room_index == i;
            assert(is_pending(rooms[end.events[k].room_index]));
        }
    }
}

/// Where no cleaning time is negative, a crew is never done with a later
/// room before an earlier one: of two events of the same crew the later one
/// is not over before the earlier.
pub proof fn law_crews_move_forward_in_time(rooms: Seq<RoomView>, policy: CrewPolicy)
    requires
        rooms.len() <= usize::MAX,
        is_policy(policy),
        no_negative_duration(rooms),
    ensures
        forall|j: int, k: int|
            #![trigger schedule_of(rooms, policy).events[j], schedule_of(rooms, policy).events[k]]
            0 <= j < k < schedule_of(rooms, policy).events.len() && schedule_of(
                rooms,
                policy,
            ).events[j].crew_id == schedule_of(rooms, policy).events[k].crew_id ==> schedule_of(
                rooms,
                policy,
            ).events[j].completion_time <= schedule_of(rooms, policy).events[k].completion_time,
{
    lemma_schedule_lawful(rooms, policy);
}

/// A room is flagged late if and only if it is reserved and its cleaning is
/// over after the guest arrives; a room that is not reserved is never late.
/// The count of late rooms is the number of events that are flagged late.
pub proof fn law_late_means_after_arrival(rooms: Seq<RoomView>, policy: CrewPolicy)
    requires
        rooms.len() <= usize::MAX,
        is_policy(policy),
    ensures
        forall|k: int|
            0 <= k < schedule_of(rooms, policy).events.len() ==> {
                let e = #[trigger] schedule_of(rooms, policy).events[k];
                &&& 0 <= e.room_index < rooms.len()
                &&& e.late <==> (rooms[e.room_index].reserved_from matches Some(arrival)
                    && e.completion_time > arrival)
                &&& rooms[e.room_index].reserved_from is None ==> !e.late
            },
        schedule_of(rooms, policy).late == late_events(schedule_of(rooms, policy).events),
{
    let end = schedule_of(rooms, policy);
    lemma_schedule_lawful(rooms, policy);
    assert forall|k: int| 0 <= k < end.events.len() implies {
        let e = #[trigger] end.events[k];
        &&& 0 <= e.room_index < rooms.len()
        &&& e.late <==> (rooms[e.room_index].reserved_from matches Some(arrival)
            && e.completion_time > arrival)
        &&& rooms[e.room_index].reserved_from is None ==> !e.late
    } by {
        assert(event_holds(end.events[k], end.hired, policy, rooms));
    }
}

/// The schedule is a function of the rooms and the crew policy: the same
/// rooms under the same policy have the same schedule, event by event.
pub proof fn law_schedule_is_determined(
    rooms: Seq<RoomView>,
    policy: CrewPolicy,
    other_rooms: Seq<RoomView>,
    other_policy: CrewPolicy,
)
    requires
        rooms =~= other_rooms,
        policy == other_policy,
    ensures
        schedule_of(rooms, policy) == schedule_of(other_rooms, other_policy),
{
}

/// Two runs on the same rooms under the same policy give the same events,
/// in the same order, and the same totals.
pub proof fn law_runs_agree(
    first: Schedule,
    second: Schedule,
    rooms: Seq<RoomView>,
    policy: CrewPolicy,
    never_vacated: nat,
)
    requires
        first.records(schedule_of(rooms, policy), never_vacated),
        second.records(schedule_of(rooms, policy), never_vacated),
    ensures
        first.events@ == second.events@,
        first.report == second.report,
{
    assert(first.events@.len() == event_views(first.events@).len());
    assert(second.events@.len() == event_views(second.events@).len());
    assert forall|k: int| 0 <= k < first.events@.len() implies first.events@[k]
        == second.events@[k] by {
        assert(event_views(first.events@)[k] == first.events@[k]@);
        assert(event_views(second.events@)[k] == second.events@[k]@);
    }
    assert(first.events@ =~= second.events@);
}

/// Two runs on the same rooms under the same policy come out the same,
/// whatever the rooms: both give no schedule because a time or a crew id
/// is no `i32` value, or both fail because nobody can clean, or both give
/// the same events, in the same order, and the same totals.
pub proof fn law_checked_runs_agree(
    first: Option<Result<Schedule, ScheduleError>>,
    second: Option<Result<Schedule, ScheduleError>>,
    rooms: Seq<RoomView>,
    policy: CrewPolicy,
)
    requires
        is_checked_outcome(first, rooms, policy),
        is_checked_outcome(second, rooms, policy),
    ensures
        match (first, second) {
            (None, None) => true,
            (Some(Err(a)), Some(Err(b))) => a == b,
            (Some(Ok(a)), Some(Ok(b))) => a.events@ == b.events@ && a.report == b.report,
            _ => false,
        },
{
    if let (Some(Ok(a)), Some(Ok(b))) = (first, second) {
        law_runs_agree(
            a,
            b,
            rooms,
            policy,
            positions_of(rooms, RoomClass::IndefinitelyOccupied).len(),
        );
    }
}

/// What the laws say of `schedule`, a schedule of `rooms`: there is one
/// event for each room that was to be cleaned, under its number and flagged
/// late as it is due; no room has two events; the totals count the events
/// that are late and those of hired crews; the crew that is hired as the
/// k-th has the id of the count of crews plus k; no more crews are hired
/// than there were reserved rooms to clean, and none where hiring is not
/// allowed; and where no cleaning time is negative, no crew is done with a
/// later room before an earlier one.
pub open spec fn keeps_laws(schedule: Schedule, rooms: Seq<RoomView>, policy: CrewPolicy) -> bool {
    let events = event_views(schedule.events@);
    &&& events.len() == pending_count(rooms)
    &&& event_numbers(events) == pending_numbers(rooms)
    &&& forall|i: int| 0 <= i < rooms.len() && is_pending(#[trigger] rooms[i]) ==> cleaned_in(events, i)
    &&& forall|k: int|
        0 <= k < events.len() ==> event_holds(
            #[trigger] events[k],
            schedule.report.crews_hired as nat,
            policy,
            rooms,
        )
    &&& forall|j: int, k: int|
        #![trigger events[j], events[k]]
        0 <= j < k < events.len() ==> events_in_order(events[j], events[k])
    &&& schedule.report.late_room_count == late_events(events)
    &&& schedule.report.crews_hired == hired_events(events)
    &&& forall|k: int|
        0 <= k < events.len() && (#[trigger] events[k]).hired ==> events[k].crew_id
            == policy.initial_crews + hired_events(events.take(k + 1))
    &&& schedule.report.crews_hired <= reserved_pending(rooms)
    &&& !policy.hiring ==> schedule.report.crews_hired == 0
    &&& no_negative_duration(rooms) ==> forall|j: int, k: int|
        #![trigger events[j], events[k]]
        0 <= j < k < events.len() && events[j].crew_id == events[k].crew_id
            ==> events[j].completion_time <= events[k].completion_time
}

/// Every schedule keeps the laws.
pub proof fn law_schedules_keep_the_laws(
    schedule: Schedule,
    rooms: Seq<RoomView>,
    policy: CrewPolicy,
    never_vacated: nat,
)
    requires
        rooms.len() <= usize::MAX,
        is_policy(policy),
        schedule.records(schedule_of(rooms, policy), never_vacated),
    ensures
        keeps_laws(schedule, rooms, policy),
{
    let end = schedule_of(rooms, policy);
    lemma_schedule_lawful(rooms, policy);
    law_each_room_is_cleaned_once(rooms, policy);
    assert forall|i: int| 0 <= i < end.rooms.len() implies 0 <= by_deadline()(
        #[trigger] end.rooms[i],
    ) <= 1 by {}
    lemma_total_bounds(end.rooms, by_deadline(), 1);
    if !policy.hiring {
        lemma_no_hired_events(end.events, end.hired, policy, rooms);
    }
}

/// A crew is hired in a step if and only if hiring is allowed and the next
/// crew is free only after the latest time at which the cleaning of the
/// room may start.
pub proof fn law_hiring_rule(s: Progress, policy: CrewPolicy, at: usize)
    ensures
        event_of(s, policy, at).hired <==> policy.hiring && (s.rooms[at as int].latest_cleaning_start() matches Some(
            l,
        ) && current_time(s) > l),
        cleaned_by(s, policy, at).hired == s.hired + if event_of(s, policy, at).hired {
            1nat
        } else {
            0nat
        },
{
}

/// Crews are hired only where hiring is allowed, and only for reserved
/// rooms with a deadline; a hired crew starts when its room is vacated. The
/// crew that is hired as the k-th has the id of the count of crews plus k:
/// above the id of every crew of the start, and above the id of every crew
/// that was hired before it. The count of hired crews is the number of
/// events of hired crews, and at most the number of reserved rooms that
/// were to be cleaned.
pub proof fn law_hired_crews_get_new_ids(rooms: Seq<RoomView>, policy: CrewPolicy)
    requires
        rooms.len() <= usize::MAX,
        is_policy(policy),
    ensures
        schedule_of(rooms, policy).hired == hired_events(schedule_of(rooms, policy).events),
        schedule_of(rooms, policy).hired <= reserved_pending(rooms),
        forall|k: int|
            0 <= k < schedule_of(rooms, policy).events.len() ==> {
                let e = #[trigger] schedule_of(rooms, policy).events[k];
                e.hired ==> {
                    &&& policy.hiring
                    &&& e.crew_id == policy.initial_crews + hired_events(
                        schedule_of(rooms, policy).events.take(k + 1),
                    )
                    &&& e.crew_id >= starting_crews(policy)
                    &&& e.crew_id > policy.initial_crews
                    &&& 0 <= e.room_index < rooms.len()
                    &&& rooms[e.room_index].is_reserved()
                    &&& rooms[e.room_index].latest_cleaning_start() is Some
                    &&& e.completion_time == rooms[e.room_index].completion(
                        rooms[e.room_index].vacant_from(),
                    )
                }
            },
        forall|j: int, k: int|
            #![trigger schedule_of(rooms, policy).events[j], schedule_of(rooms, policy).events[k]]
            0 <= j < k < schedule_of(rooms, policy).events.len() && schedule_of(
                rooms,
                policy,
            ).events[j].hired && schedule_of(rooms, policy).events[k].hired ==> schedule_of(
                rooms,
                policy,
            ).events[j].crew_id < schedule_of(rooms, policy).events[k].crew_id,
{
    let end = schedule_of(rooms, policy);
    lemma_schedule_lawful(rooms, policy);
    assert forall|i: int| 0 <= i < end.rooms.len() implies 0 <= by_deadline()(
        #[trigger] end.rooms[i],
    ) <= 1 by {}
    lemma_total_bounds(end.rooms, by_deadline(), 1);
    assert forall|k: int| 0 <= k < end.events.len() implies {
        let e = #[trigger] end.events[k];
        e.hired ==> {
            &&& policy.hiring
            &&& e.crew_id == policy.initial_crews + hired_events(end.events.take(k + 1))
            &&& e.crew_id >= starting_crews(policy)
            &&& e.crew_id > policy.initial_crews
            &&& 0 <= e.room_index < rooms.len()
            &&& rooms[e.room_index].is_reserved()
            &&& rooms[e.room_index].latest_cleaning_start() is Some
            &&& e.completion_time == rooms[e.room_index].completion(
                rooms[e.room_index].vacant_from(),
            )
        }
    } by {
        assert(event_holds(end.events[k], end.hired, policy, rooms));
    }
    assert forall|j: int, k: int|
        #![trigger end.events[j], end.events[k]]
        0 <= j < k < end.events.len() && end.events[j].hired
            && end.events[k].hired implies end.events[j].crew_id < end.events[k].crew_id by {
        assert(events_in_order(end.events[j], end.events[k]));
    }
}

/// Where hiring is not allowed, or no reserved room is to be cleaned,
/// nobody is hired, and every event is the work of a crew of the start.
pub proof fn law_no_hiring_without_need(rooms: Seq<RoomView>, policy: CrewPolicy)
    requires
        rooms.len() <= usize::MAX,
        is_policy(policy),
        !policy.hiring || forall|i: int|
            0 <= i < rooms.len() && is_pending(#[trigger] rooms[i]) ==> !rooms[i].is_reserved(),
    ensures
        schedule_of(rooms, policy).hired == 0,
        forall|k: int|
            0 <= k < schedule_of(rooms, policy).events.len() ==> {
                let e = #[trigger] schedule_of(rooms, policy).events[k];
                !e.hired && 0 <= e.crew_id < starting_crews(policy)
            },
{
    let end = schedule_of(rooms, policy);
    lemma_schedule_lawful(rooms, policy);
    law_hired_crews_get_new_ids(rooms, policy);
    if policy.hiring {
        assert forall|i: int| 0 <= i < rooms.len() implies 0 <= by_deadline()(#[trigger] rooms[i])
            <= 0 by {}
        lemma_total_bounds(rooms, by_deadline(), 0);
    } else {
        lemma_no_hired_events(end.events, end.hired, policy, rooms);
    }
    assert(end.hired == 0);
    assert forall|k: int| 0 <= k < end.events.len() implies {
        let e = #[trigger] end.events[k];
        !e.hired && 0 <= e.crew_id < starting_crews(policy)
    } by {
        assert(event_holds(end.events[k], end.hired, policy, rooms));
    }
}

/// Events of which none is of a hired crew count no hired crew.
proof fn lemma_no_hired_events(
    events: Seq<EventView>,
    hired: nat,
    policy: CrewPolicy,
    origin: Seq<RoomView>,
)
    requires
        !policy.hiring,
        forall|k: int| 0 <= k < events.len() ==> event_holds(#[trigger] events[k], hired, policy, origin),
    ensures
        hired_events(events) == 0,
    decreases events.len(),
{
    if events.len() > 0 {
        let shorter = events.drop_last();
        assert forall|k: int| 0 <= k < shorter.len() implies event_holds(
            #[trigger] shorter[k],
            hired,
            policy,
            origin,
        ) by {
            assert(shorter[k] == events[k]);
        }
        lemma_no_hired_events(shorter, hired, policy, origin);
        assert(event_holds(events[events.len() - 1], hired, policy, origin));
    }
}

} // verus!
