//! What the schedule of a list of rooms is: the greedy simulation, step by
//! step, as a mathematical function of the rooms and the crew policy.

use crate::cleaning_crew::CrewView;
use crate::crew_pool::next_crew;
use crate::queue_order::stable_order;
use crate::room_data::RoomView;
use crate::selector::{head_room, select_source, RoomToCleanSource};
use crate::triage::{positions_of, RoomClass};
use vstd::multiset::Multiset;
use vstd::prelude::*;

verus! {

/// How many crews there are at the start, and whether more may be hired.
pub struct CrewPolicy {
    pub initial_crews: int,
    pub hiring: bool,
}

/// One cleaning, as contracts see it.
pub struct EventView {
    /// The crew that cleaned.
    pub crew_id: int,
    /// The time at which the cleaning was over.
    pub completion_time: int,
    pub room_number: int,
    /// Whether the guest had to wait.
    pub late: bool,
    /// Whether the crew was hired for this room.
    pub hired: bool,
    /// Where the room stands in the list of rooms.
    pub room_index: int,
}

/// The state of the simulation between two steps.
pub struct Progress {
    pub rooms: Seq<RoomView>,
    /// What is left of the reserved rooms, by latest start of cleaning.
    pub by_arrival: Seq<usize>,
    /// What is left of the reserved rooms, by earliest end of cleaning.
    pub by_cleaning_end: Seq<usize>,
    /// What is left of the rooms that are not reserved.
    pub unreserved: Seq<usize>,
    pub crews: Multiset<CrewView>,
    pub hired: nat,
    pub late: nat,
    pub events: Seq<EventView>,
}

/// The key by which the arrival queue is sorted: the latest start of
/// cleaning, and `i32::MAX` where there is no deadline.
pub open spec fn arrival_key(room: RoomView) -> i32 {
    match room.latest_cleaning_start() {
        Some(l) => l as i32,
        None => i32::MAX,
    }
}

/// The key by which the cleaning-end queue is sorted.
pub open spec fn cleaning_end_key(room: RoomView) -> i32 {
    room.cleaning_end() as i32
}

/// The rooms at `reserved`, in the order of `keys`, which holds one key for
/// each of them.
pub open spec fn queue_by(reserved: Seq<usize>, keys: Seq<i32>) -> Seq<usize> {
    stable_order(keys).map_values(|p: usize| reserved[p as int])
}

/// The crews with the ids `0..n`, all free at time 0.
pub open spec fn fresh_crews(n: nat) -> Multiset<CrewView>
    decreases n,
{
    if n == 0 {
        Multiset::empty()
    } else {
        fresh_crews((n - 1) as nat).insert(CrewView { id: n - 1, occupied_until: 0 })
    }
}

/// The number of crews in the pool at the start. With no crew of its own
/// the pool starts with one stand-in, with the id 0, which counts as none.
pub open spec fn starting_crews(policy: CrewPolicy) -> nat {
    if policy.initial_crews <= 0 {
        1
    } else {
        policy.initial_crews as nat
    }
}

/// The state before the first step.
pub open spec fn initial_progress(rooms: Seq<RoomView>, policy: CrewPolicy) -> Progress {
    let reserved = positions_of(rooms, RoomClass::Reserved);
    Progress {
        rooms,
        by_arrival: queue_by(reserved, reserved.map_values(|p: usize| arrival_key(rooms[p as int]))),
        by_cleaning_end: queue_by(
            reserved,
            reserved.map_values(|p: usize| cleaning_end_key(rooms[p as int])),
        ),
        unreserved: positions_of(rooms, RoomClass::Unreserved),
        crews: fresh_crews(starting_crews(policy)),
        hired: 0,
        late: 0,
        events: Seq::empty(),
    }
}

/// The time at which the next crew is free.
pub open spec fn current_time(s: Progress) -> int {
    next_crew(s.crews).occupied_until
}

/// The queue that the next step takes a room from.
pub open spec fn source_of(s: Progress) -> RoomToCleanSource {
    select_source(
        head_room(s.by_arrival, s.rooms),
        head_room(s.by_cleaning_end, s.rooms),
        head_room(s.unreserved, s.rooms),
        current_time(s),
    )
}

/// The room at the front of the queue `source`.
pub open spec fn front_of(s: Progress, source: RoomToCleanSource) -> usize {
    match source {
        RoomToCleanSource::ByArrival => s.by_arrival[0],
        RoomToCleanSource::ByCleaningEnd => s.by_cleaning_end[0],
        _ => s.unreserved[0],
    }
}

/// The state without the front of the queue `source`.
pub open spec fn without_front(s: Progress, source: RoomToCleanSource) -> Progress {
    match source {
        RoomToCleanSource::ByArrival => Progress { by_arrival: s.by_arrival.drop_first(), ..s },
        RoomToCleanSource::ByCleaningEnd => Progress {
            by_cleaning_end: s.by_cleaning_end.drop_first(),
            ..s
        },
        _ => Progress { unreserved: s.unreserved.drop_first(), ..s },
    }
}

/// Whether a crew is hired for `room`: hiring is allowed, and the next crew
/// is free only after the latest time at which the cleaning may start.
pub open spec fn hires_for(s: Progress, policy: CrewPolicy, room: RoomView) -> bool {
    policy.hiring && (room.latest_cleaning_start() matches Some(l) && current_time(s) > l)
}

/// The id of the crew that is hired next.
pub open spec fn next_hired_id(s: Progress, policy: CrewPolicy) -> int {
    policy.initial_crews + s.hired + 1
}

/// The event of cleaning the room at `at` in the state `s`.
pub open spec fn event_of(s: Progress, policy: CrewPolicy, at: usize) -> EventView {
    let room = s.rooms[at as int];
    let hired = hires_for(s, policy, room);
    let completion = room.completion(
        if hired {
            room.vacant_from()
        } else {
            current_time(s)
        },
    );
    EventView {
        crew_id: if hired {
            next_hired_id(s, policy)
        } else {
            next_crew(s.crews).id
        },
        completion_time: completion,
        room_number: room.room_number as int,
        late: room.late_at(completion),
        hired,
        room_index: at as int,
    }
}

/// The state after the room at `at` was cleaned. A hired crew starts when
/// the room is vacated and joins the pool; the next crew then stays as it
/// is. Otherwise the next crew cleans, and is busy until it is done.
pub open spec fn cleaned_by(s: Progress, policy: CrewPolicy, at: usize) -> Progress {
    let event = event_of(s, policy, at);
    let busy = CrewView { id: event.crew_id, occupied_until: event.completion_time };
    Progress {
        rooms: s.rooms.update(at as int, s.rooms[at as int].cleaned()),
        crews: if event.hired {
            s.crews.insert(busy)
        } else {
            s.crews.remove(next_crew(s.crews)).insert(busy)
        },
        hired: if event.hired {
            s.hired + 1
        } else {
            s.hired
        },
        late: if event.late {
            s.late + 1
        } else {
            s.late
        },
        events: s.events.push(event),
        ..s
    }
}

/// One step: the front of the selected queue leaves it, and is cleaned
/// unless it was cleaned before.
pub open spec fn step(s: Progress, policy: CrewPolicy) -> Progress {
    let source = source_of(s);
    let at = front_of(s, source);
    let popped = without_front(s, source);
    if s.rooms[at as int].cleaning_completed {
        popped
    } else {
        cleaned_by(popped, policy, at)
    }
}

/// How many queue entries are left.
pub open spec fn entries_left(s: Progress) -> nat {
    s.by_arrival.len() + s.by_cleaning_end.len() + s.unreserved.len()
}

/// The state in which the simulation ends: steps are made until every queue
/// is used up.
pub open spec fn run(s: Progress, policy: CrewPolicy) -> Progress
    decreases entries_left(s),
    via run_terminates
{
    if source_of(s) == RoomToCleanSource::Exhausted {
        s
    } else {
        run(step(s, policy), policy)
    }
}

#[via_fn]
proof fn run_terminates(s: Progress, policy: CrewPolicy) {
    if source_of(s) != RoomToCleanSource::Exhausted {
        lemma_step_uses_an_entry(s, policy);
    }
}

/// A step takes one entry out of one queue.
pub proof fn lemma_step_uses_an_entry(s: Progress, policy: CrewPolicy)
    requires
        source_of(s) != RoomToCleanSource::Exhausted,
    ensures
        entries_left(step(s, policy)) + 1 == entries_left(s),
{
}

/// The events of a state stay as they are to the end of the simulation:
/// later steps only add events behind them.
pub proof fn lemma_run_keeps_events(s: Progress, policy: CrewPolicy)
    ensures
        s.events.len() <= run(s, policy).events.len(),
        forall|k: int| 0 <= k < s.events.len() ==> #[trigger] run(s, policy).events[k] == s.events[k],
    decreases entries_left(s),
{
    if source_of(s) != RoomToCleanSource::Exhausted {
        lemma_step_uses_an_entry(s, policy);
        let after = step(s, policy);
        lemma_run_keeps_events(after, policy);
        assert forall|k: int| 0 <= k < s.events.len() implies #[trigger] run(s, policy).events[k]
            == s.events[k] by {
            assert(after.events[k] == s.events[k]);
        }
    }
}

/// The state in which the simulation of `rooms` ends.
pub open spec fn schedule_of(rooms: Seq<RoomView>, policy: CrewPolicy) -> Progress {
    run(initial_progress(rooms, policy), policy)
}

} // verus!
