//! The scheduling loop: crews are handed rooms until every room that is
//! vacated at some time has been cleaned.

use crate::cleaning_crew::CleaningCrew;
use crate::crew_pool::CrewPool;
use crate::laws::{keeps_laws, law_schedules_keep_the_laws};
use crate::queue_order::sorted_indices;
use crate::room_data::{RoomData, RoomView};
use crate::schedule::{
    arrival_key, cleaning_end_key, entries_left, event_of, fresh_crews, front_of,
    initial_progress, lemma_run_keeps_events, lemma_step_uses_an_entry, queue_by, run,
    schedule_of, source_of, step, CrewPolicy, EventView, Progress,
};
use crate::selector::{get_room_to_clean_source, room_views, RoomToCleanSource};
use crate::soundness::{
    lemma_clean_sound, lemma_discard_sound, lemma_has_next_crew, lemma_initial_sound,
    lemma_source_has_front, sound,
};
use crate::triage::{lemma_positions_of, positions_of, split_rooms_by_occupancy, RoomClass};
use std::collections::VecDeque;
use vstd::pervasive::unreached;
use vstd::prelude::*;

verus! {

/// One cleaning: which crew cleaned which room, when it was done, and
/// whether the guest had to wait.
#[derive(Clone, Copy, Debug, PartialEq, Eq, Structural)]
pub struct CleaningEvent {
    pub crew_id: i32,
    pub completion_time: i32,
    pub room_number: i32,
    pub late: bool,
    /// Whether the crew was hired for this room.
    pub hired: bool,
    /// Where the room stands in the list of rooms.
    pub room_index: usize,
}

impl View for CleaningEvent {
    type V = EventView;

    open spec fn view(&self) -> EventView {
        EventView {
            crew_id: self.crew_id as int,
            completion_time: self.completion_time as int,
            room_number: self.room_number as int,
            late: self.late,
            hired: self.hired,
            room_index: self.room_index as int,
        }
    }
}

/// The events of a list as contracts see them.
pub open spec fn event_views(events: Seq<CleaningEvent>) -> Seq<EventView> {
    events.map_values(|e: CleaningEvent| e@)
}

/// The totals of a schedule.
#[derive(Clone, Copy, Debug, PartialEq, Eq, Structural)]
pub struct Report {
    pub late_room_count: usize,
    pub crews_hired: usize,
    pub indefinitely_occupied_count: usize,
}

/// A schedule: the cleanings in the order in which they were handed out,
/// the totals, and the rooms as they are afterwards.
pub struct Schedule {
    pub events: Vec<CleaningEvent>,
    pub report: Report,
    pub rooms: Vec<RoomData>,
}

/// Why there is no schedule.
#[derive(Clone, Copy, Debug, PartialEq, Eq, Structural)]
pub enum ScheduleError {
    /// There are rooms, but no crew, and none may be hired.
    NoCrewsAvailable,
}

/// Which key a queue is sorted by.
#[derive(Clone, Copy, Debug, PartialEq, Eq, Structural)]
pub enum QueueKey {
    LatestCleaningStart,
    CleaningEnd,
}

pub open spec fn key_of(room: RoomView, key: QueueKey) -> i32 {
    match key {
        QueueKey::LatestCleaningStart => arrival_key(room),
        QueueKey::CleaningEnd => cleaning_end_key(room),
    }
}

/// The keys of the rooms at `reserved`.
fn queue_keys(rooms: &Vec<RoomData>, reserved: &Vec<usize>, key: QueueKey) -> (keys: Vec<i32>)
    requires
        forall|k: int| 0 <= k < reserved.len() ==> #[trigger] reserved[k] < rooms.len(),
    ensures
        keys@ == reserved@.map_values(|p: usize| key_of(room_views(rooms@)[p as int], key)),
{
    let mut keys: Vec<i32> = Vec::new();
    let mut k: usize = 0;
    while k < reserved.len()
        invariant
            k <= reserved.len(),
            keys.len() == k,
            forall|j: int| 0 <= j < reserved.len() ==> #[trigger] reserved[j] < rooms.len(),
            forall|j: int|
                0 <= j < k ==> #[trigger] keys[j] == key_of(
                    room_views(rooms@)[reserved[j] as int],
                    key,
                ),
        decreases reserved.len() - k,
    {
        let room = &rooms[reserved[k]];
        let value: i32 = match key {
            QueueKey::LatestCleaningStart => room.latest_cleaning_start(),
            QueueKey::CleaningEnd => room.cleaning_end(),
        };
        keys.push(value);
        k += 1;
    }
    assert(keys@ =~= reserved@.map_values(|p: usize| key_of(room_views(rooms@)[p as int], key)));
    keys
}

/// The queue of the rooms at `reserved`, sorted by `keys`.
fn build_queue(reserved: &Vec<usize>, keys: &Vec<i32>) -> (queue: VecDeque<usize>)
    requires
        keys.len() == reserved.len(),
    ensures
        queue@ == queue_by(reserved@, keys@),
{
    let order = sorted_indices(keys);
    let mut queue: VecDeque<usize> = VecDeque::new();
    let mut k: usize = 0;
    while k < order.len()
        invariant
            k <= order.len(),
            queue.len() == k,
            order.len() == reserved.len(),
            forall|j: int| 0 <= j < order.len() ==> #[trigger] order@[j] < reserved.len(),
            forall|j: int| 0 <= j < k ==> #[trigger] queue@[j] == reserved[order@[j] as int],
        decreases order.len() - k,
    {
        queue.push_back(reserved[order[k]]);
        k += 1;
    }
    assert(queue@ =~= queue_by(reserved@, keys@));
    queue
}

/// The pool at the start: `count` crews with the ids from 0 on.
fn starting_pool(count: i32) -> (pool: CrewPool)
    requires
        0 <= count,
    ensures
        pool@ == fresh_crews(count as nat),
{
    let mut pool = CrewPool::new();
    let mut crew: i32 = 0;
    while crew < count
        invariant
            0 <= crew <= count,
            pool@ == fresh_crews(crew as nat),
        decreases count - crew,
    {
        pool.push(CleaningCrew::new(crew));
        crew += 1;
    }
    pool
}

impl Schedule {
    /// Whether this schedule is the state `end` of the simulation, with
    /// `never_vacated` rooms that are never vacated.
    pub open spec fn records(&self, end: Progress, never_vacated: nat) -> bool {
        &&& event_views(self.events@) == end.events
        &&& room_views(self.rooms@) == end.rooms
        &&& self.report.late_room_count == end.late
        &&& self.report.crews_hired == end.hired
        &&& self.report.indefinitely_occupied_count == never_vacated
    }
}

/// Whether there is no schedule: there are rooms, but no crew, and none may
/// be hired.
pub open spec fn nobody_to_clean(rooms: Seq<RoomView>, policy: CrewPolicy) -> bool {
    rooms.len() > 0 && policy.initial_crews < 1 && !policy.hiring
}

/// Whether `n` is an `i32` value.
pub open spec fn is_i32(n: int) -> bool {
    i32::MIN <= n <= i32::MAX
}

/// The limit of the machine: whether every time and every crew id of the
/// schedule is an `i32` value.
pub open spec fn run_fits(rooms: Seq<RoomView>, policy: CrewPolicy) -> bool {
    forall|k: int|
        0 <= k < schedule_of(rooms, policy).events.len() ==> is_i32(
            (#[trigger] schedule_of(rooms, policy).events[k]).completion_time,
        ) && is_i32(schedule_of(rooms, policy).events[k].crew_id)
}

/// Whether `result` is the outcome of scheduling `rooms`: no schedule where
/// nobody can clean, else the schedule of the simulation, which keeps the
/// laws.
pub open spec fn is_outcome(
    result: Result<Schedule, ScheduleError>,
    rooms: Seq<RoomView>,
    policy: CrewPolicy,
) -> bool {
    match result {
        Ok(schedule) => !nobody_to_clean(rooms, policy) && schedule.records(
            schedule_of(rooms, policy),
            positions_of(rooms, RoomClass::IndefinitelyOccupied).len(),
        ) && keeps_laws(schedule, rooms, policy),
        Err(e) => nobody_to_clean(rooms, policy) && e == ScheduleError::NoCrewsAvailable,
    }
}

/// Whether `out` is the outcome of scheduling `rooms` with a test of the
/// limit of the machine: none where a time or a crew id of the schedule is
/// no `i32` value, and only there.
pub open spec fn is_checked_outcome(
    out: Option<Result<Schedule, ScheduleError>>,
    rooms: Seq<RoomView>,
    policy: CrewPolicy,
) -> bool {
    match out {
        Some(result) => is_outcome(result, rooms, policy) && (result is Ok ==> run_fits(
            rooms,
            policy,
        )),
        None => !nobody_to_clean(rooms, policy) && !run_fits(rooms, policy),
    }
}

/// The time at which a cleaning of `room` is over that may start at
/// `start`, or `None` where that time is no `i32` value.
fn completion_within_range(room: &RoomData, start: i32) -> (end: Option<i32>)
    ensures
        match end {
            Some(t) => t == room@.completion(start as int),
            None => !is_i32(room@.completion(start as int)),
        },
{
    let duration: i64 = match room.cleaning_duration() {
        Some(d) => d as i64,
        None => 0,
    };
    if duration == 0 {
        return Some(start);
    }
    let vacant: i64 = match room.occupied_until() {
        Some(t) => t as i64,
        None => 0,
    };
    let begin: i64 = if vacant > start as i64 {
        vacant
    } else {
        start as i64
    };
    let end: i64 = begin + duration;
    if end < i32::MIN as i64 || end > i32::MAX as i64 {
        None
    } else {
        Some(end as i32)
    }
}

/// Schedules the cleaning of `rooms` by `cleaning_crews` crews, with the ids
/// from 0 on, and by the crews that are hired on the way if `hire_crews`
/// allows it. The schedule is that of the simulation: it has one event for
/// each room that was not cleaned before and is vacated at some time.
///
/// There is no schedule where there are rooms, but no crew, and none may be
/// hired. An empty list of rooms has an empty schedule, whatever the crews.
/// With no crew of its own and hiring allowed, the pool starts with one
/// stand-in with the id 0, which does not count as hired.
///
/// The result is `None` where a time or a crew id of the schedule is no
/// `i32` value, and only there.
pub fn checked_process_rooms(rooms: Vec<RoomData>, cleaning_crews: i32, hire_crews: bool) -> (out:
    Option<Result<Schedule, ScheduleError>>)
    requires
        cleaning_crews >= 0 || !hire_crews,
    ensures
        is_checked_outcome(
            out,
            room_views(rooms@),
            CrewPolicy { initial_crews: cleaning_crews as int, hiring: hire_crews },
        ),
{
    let ghost policy = CrewPolicy { initial_crews: cleaning_crews as int, hiring: hire_crews };
    let ghost origin = room_views(rooms@);
    if rooms.len() > 0 && cleaning_crews < 1 && !hire_crews {
        return Some(Err(ScheduleError::NoCrewsAvailable));
    }
    let mut arena = rooms;
    let parts = split_rooms_by_occupancy(&arena);
    let reserved = parts.reserved;
    let unreserved = parts.unreserved;
    proof {
        lemma_positions_of(origin, RoomClass::Reserved);
        lemma_initial_sound(origin, policy);
    }
    let end_keys = queue_keys(&arena, &reserved, QueueKey::CleaningEnd);
    let mut by_cleaning_end = build_queue(&reserved, &end_keys);
    let arrival_keys = queue_keys(&arena, &reserved, QueueKey::LatestCleaningStart);
    let mut by_arrival = build_queue(&reserved, &arrival_keys);
    let mut unreserved_index: usize = 0;
    let mut pool = starting_pool(
        if cleaning_crews <= 0 {
            1
        } else {
            cleaning_crews
        },
    );
    let mut events: Vec<CleaningEvent> = Vec::new();
    let mut hired: usize = 0;
    let mut late: usize = 0;
    let ghost mut cur = initial_progress(origin, policy);
    proof {
        assert(arrival_keys@ =~= reserved@.map_values(|p: usize| arrival_key(origin[p as int])));
        assert(end_keys@ =~= reserved@.map_values(|p: usize| cleaning_end_key(origin[p as int])));
        assert(unreserved@.skip(0) =~= unreserved@);
        assert(event_views(events@) =~= cur.events);
    }
    loop
        invariant
            policy == (CrewPolicy { initial_crews: cleaning_crews as int, hiring: hire_crews }),
            origin == room_views(rooms@),
            !nobody_to_clean(origin, policy),
            cleaning_crews >= 0 || !hire_crews,
            sound(cur, policy, origin),
            run(cur, policy) == schedule_of(origin, policy),
            room_views(arena@) == cur.rooms,
            by_arrival@ == cur.by_arrival,
            by_cleaning_end@ == cur.by_cleaning_end,
            unreserved_index <= unreserved.len(),
            unreserved@.skip(unreserved_index as int) == cur.unreserved,
            pool@ == cur.crews,
            event_views(events@) == cur.events,
            hired == cur.hired,
            late == cur.late,
            hire_crews ==> cleaning_crews + hired <= i32::MAX,
        ensures
            source_of(cur) == RoomToCleanSource::Exhausted,
            run(cur, policy) == schedule_of(origin, policy),
            room_views(arena@) == cur.rooms,
            event_views(events@) == cur.events,
            hired == cur.hired,
            late == cur.late,
        decreases entries_left(cur),
    {
        // The time is that at which the next crew is free.
        proof {
            lemma_has_next_crew(cur.crews);
        }
        let crew = pool.peek().unwrap();
        let current_time: i32 = crew.occupied_until();
        let source = get_room_to_clean_source(
            &by_arrival,
            &by_cleaning_end,
            &unreserved,
            unreserved_index,
            &arena,
            current_time,
        );
        assert(source == source_of(cur));
        if source == RoomToCleanSource::Exhausted {
            break ;
        }
        proof {
            lemma_source_has_front(cur);
            lemma_step_uses_an_entry(cur, policy);
        }
        let at: usize = match source {
            RoomToCleanSource::ByArrival => by_arrival.pop_front().unwrap(),
            RoomToCleanSource::ByCleaningEnd => by_cleaning_end.pop_front().unwrap(),
            _ => {
                let at: usize = unreserved[unreserved_index];
                unreserved_index += 1;
                at
            },
        };
        assert(at == front_of(cur, source));
        proof {
            if source == RoomToCleanSource::Unreserved {
                assert(unreserved@.skip(unreserved_index as int) =~= unreserved@.skip(
                    unreserved_index - 1,
                ).drop_first());
            }
        }
        if arena[at].cleaning_completed() {
            // The room was cleaned through the other queue: it is discarded.
            proof {
                lemma_discard_sound(cur, policy, origin);
                cur = step(cur, policy);
            }
        } else {
            let ghost event = event_of(cur, policy, at);
            proof {
                // The event of this step is an event of the schedule.
                lemma_clean_sound(cur, policy, origin);
                lemma_run_keeps_events(step(cur, policy), policy);
                assert(step(cur, policy).events[cur.events.len() as int] == event);
                assert(schedule_of(origin, policy).events[cur.events.len() as int] == event);
            }
            let mut room: RoomData = arena[at];
            // A crew that is hired starts when the room is vacated, and the
            // next crew stays in the pool.
            let hires: bool = hire_crews && current_time > room.latest_cleaning_start();
            let new_crew: Option<CleaningCrew> = if hires {
                if cleaning_crews as i64 + hired as i64 + 1 > i32::MAX as i64 {
                    assert(!is_i32(event.crew_id));
                    return None;
                }
                Some(CleaningCrew::new(cleaning_crews + hired as i32 + 1))
            } else {
                None
            };
            let start: i32 = match new_crew {
                Some(_) => match room.occupied_until() {
                    Some(t) => t,
                    None => 0,
                },
                None => current_time,
            };
            if completion_within_range(&room, start).is_none() {
                assert(!is_i32(event.completion_time));
                return None;
            }
            let completion: i32 = room.clean(start);
            let is_late: bool = match room.reserved_from() {
                Some(arrival) => completion > arrival,
                None => false,
            };
            if is_late {
                late += 1;
            }
            let worker: CleaningCrew = match new_crew {
                Some(c) => {
                    hired += 1;
                    c
                },
                None => {
                    let _ = pool.pop();
                    crew
                },
            };
            pool.push(worker.clean_until(completion));
            let happened = CleaningEvent {
                crew_id: worker.id(),
                completion_time: completion,
                room_number: room.room_number(),
                late: is_late,
                hired: new_crew.is_some(),
                room_index: at,
            };
            assert(happened@ == event);
            proof {
                assert(room_views(arena@.update(at as int, room)) =~= room_views(arena@).update(
                    at as int,
                    room@,
                ));
                assert(event_views(events@.push(happened)) =~= event_views(events@).push(
                    happened@,
                ));
                cur = step(cur, policy);
            }
            arena.set(at, room);
            events.push(happened);
        }
    }
    let schedule = Schedule {
        events,
        report: Report {
            late_room_count: late,
            crews_hired: hired,
            indefinitely_occupied_count: parts.indefinitely_occupied,
        },
        rooms: arena,
    };
    proof {
        law_schedules_keep_the_laws(
            schedule,
            origin,
            policy,
            parts.indefinitely_occupied as nat,
        );
        assert forall|k: int| 0 <= k < cur.events.len() implies is_i32(
            (#[trigger] cur.events[k]).completion_time,
        ) && is_i32(cur.events[k].crew_id) by {
            assert(cur.events[k] == schedule.events@[k]@);
        }
    }
    Some(Ok(schedule))
}

/// Schedules the cleaning of `rooms`, as `checked_process_rooms` does, for
/// rooms and crews whose schedule stays within the limit of the machine.
pub fn process_rooms(rooms: Vec<RoomData>, cleaning_crews: i32, hire_crews: bool) -> (result:
    Result<Schedule, ScheduleError>)
    requires
        cleaning_crews >= 0 || !hire_crews,
        nobody_to_clean(
            room_views(rooms@),
            CrewPolicy { initial_crews: cleaning_crews as int, hiring: hire_crews },
        ) || run_fits(
            room_views(rooms@),
            CrewPolicy { initial_crews: cleaning_crews as int, hiring: hire_crews },
        ),
    ensures
        is_outcome(
            result,
            room_views(rooms@),
            CrewPolicy { initial_crews: cleaning_crews as int, hiring: hire_crews },
        ),
{
    match checked_process_rooms(rooms, cleaning_crews, hire_crews) {
        Some(result) => result,
        None => unreached(),
    }
}

} // verus!
