use room_cleaning::room_data::RoomData;
use room_cleaning::scheduler::{
    checked_process_rooms, process_rooms, CleaningEvent, Schedule, ScheduleError,
};

fn room(
    number: i32,
    occupied_until: Option<i32>,
    reserved_from: Option<i32>,
    cleaning_duration: Option<i32>,
) -> RoomData {
    RoomData::new(number, occupied_until, reserved_from, cleaning_duration).unwrap()
}

fn run(rooms: Vec<RoomData>, crews: i32, hire: bool) -> Schedule {
    checked_process_rooms(rooms, crews, hire).unwrap().unwrap()
}

fn event(
    crew_id: i32,
    completion_time: i32,
    room_number: i32,
    late: bool,
    hired: bool,
    room_index: usize,
) -> CleaningEvent {
    CleaningEvent { crew_id, completion_time, room_number, late, hired, room_index }
}

fn hotel() -> Vec<RoomData> {
    vec![
        room(100, None, None, Some(10)),
        room(101, Some(5), Some(100), Some(20)),
        room(102, Some(50), Some(60), Some(15)),
        room(103, Some(-1), None, Some(5)),
    ]
}

fn busy_morning() -> Vec<RoomData> {
    vec![
        room(200, None, Some(30), Some(20)),
        room(201, None, Some(35), Some(20)),
        room(202, Some(3), Some(40), Some(20)),
    ]
}

#[test]
fn two_crews_share_the_rooms() {
    let s = run(hotel(), 2, false);
    assert_eq!(
        s.events,
        vec![
            event(0, 10, 100, false, false, 0),
            event(1, 25, 101, false, false, 1),
            event(0, 65, 102, true, false, 2),
        ]
    );
    assert_eq!(s.report.late_room_count, 1);
    assert_eq!(s.report.crews_hired, 0);
    assert_eq!(s.report.indefinitely_occupied_count, 1);
}

#[test]
fn rooms_are_marked_as_cleaned() {
    let s = run(hotel(), 2, false);
    assert_eq!(s.rooms.len(), 4);
    assert!(s.rooms[0].cleaning_completed());
    assert!(s.rooms[1].cleaning_completed());
    assert!(s.rooms[2].cleaning_completed());
    assert!(!s.rooms[3].cleaning_completed());
    assert_eq!(s.rooms[2].occupied_until(), Some(50));
}

#[test]
fn hiring_changes_nothing_where_no_room_is_at_risk() {
    let s = run(hotel(), 2, true);
    assert_eq!(s.events.len(), 3);
    assert_eq!(s.report.crews_hired, 0);
    assert!(s.events.iter().all(|e| !e.hired));
}

#[test]
fn a_crew_is_hired_for_a_room_at_risk() {
    let s = run(busy_morning(), 1, true);
    assert_eq!(
        s.events,
        vec![
            event(0, 20, 200, false, false, 0),
            event(2, 20, 201, false, true, 1),
            event(0, 40, 202, false, false, 2),
        ]
    );
    assert_eq!(s.report.crews_hired, 1);
    assert_eq!(s.report.late_room_count, 0);
}

#[test]
fn without_hiring_the_rooms_at_risk_are_late() {
    let s = run(busy_morning(), 1, false);
    assert_eq!(
        s.events,
        vec![
            event(0, 20, 200, false, false, 0),
            event(0, 40, 201, true, false, 1),
            event(0, 60, 202, true, false, 2),
        ]
    );
    assert_eq!(s.report.late_room_count, 2);
    assert_eq!(s.report.crews_hired, 0);
}

#[test]
fn hired_crew_starts_when_the_room_is_vacated() {
    let rooms = vec![room(1, None, None, Some(50)), room(2, Some(7), Some(20), Some(10))];
    let s = run(rooms, 1, true);
    assert_eq!(
        s.events,
        vec![event(0, 50, 1, false, false, 0), event(2, 17, 2, false, true, 1)]
    );
}

#[test]
fn hired_ids_rise_and_skip_the_ids_of_the_start() {
    let rooms = vec![
        room(1, None, Some(5), Some(10)),
        room(2, None, Some(5), Some(10)),
        room(3, None, Some(5), Some(10)),
    ];
    let s = run(rooms, 3, true);
    let ids: Vec<i32> = s.events.iter().map(|e| e.crew_id).collect();
    assert_eq!(ids, vec![4, 5, 6]);
    assert!(s.events.iter().all(|e| e.hired && e.late && e.completion_time == 10));
    assert_eq!(s.report.crews_hired, 3);
    assert_eq!(s.report.late_room_count, 3);
}

#[test]
fn without_a_crew_of_its_own_the_pool_has_a_stand_in() {
    let rooms = vec![room(1, None, None, Some(10)), room(2, None, Some(5), Some(10))];
    let s = run(rooms, 0, true);
    assert_eq!(
        s.events,
        vec![event(1, 10, 2, true, true, 1), event(0, 10, 1, false, false, 0)]
    );
    assert_eq!(s.report.crews_hired, 1);
}

#[test]
fn every_pending_room_has_one_event() {
    let rooms = hotel();
    let wanted = rooms.iter().filter(|r| r.occupied_until() != Some(-1)).count();
    let s = run(rooms, 2, false);
    assert_eq!(s.events.len(), wanted);
    let mut seen: Vec<usize> = s.events.iter().map(|e| e.room_index).collect();
    seen.sort();
    assert_eq!(seen, vec![0, 1, 2]);
}

#[test]
fn a_room_that_was_cleaned_before_is_not_cleaned_again() {
    let mut rooms = hotel();
    rooms[1].clean(0);
    let s = run(rooms, 2, false);
    let rooms_cleaned: Vec<i32> = s.events.iter().map(|e| e.room_number).collect();
    assert_eq!(rooms_cleaned, vec![100, 102]);
}

#[test]
fn a_crew_never_goes_back_in_time() {
    let s = run(busy_morning(), 1, false);
    for (k, later) in s.events.iter().enumerate() {
        for earlier in &s.events[..k] {
            if earlier.crew_id == later.crew_id {
                assert!(earlier.completion_time <= later.completion_time);
            }
        }
    }
}

#[test]
fn late_means_done_after_the_guest_arrived() {
    let s = run(busy_morning(), 1, false);
    for e in &s.events {
        let arrival = s.rooms[e.room_index].reserved_from();
        assert_eq!(e.late, arrival.map_or(false, |a| e.completion_time > a));
    }
    let s = run(hotel(), 1, false);
    assert!(!s.events[0].late);
}

#[test]
fn done_exactly_at_arrival_is_not_late() {
    let s = run(vec![room(1, None, Some(10), Some(10))], 1, false);
    assert_eq!(s.events, vec![event(0, 10, 1, false, false, 0)]);
    let s = run(vec![room(1, None, Some(9), Some(10))], 1, false);
    assert!(s.events[0].late);
}

#[test]
fn two_runs_give_the_same_schedule() {
    let a = run(busy_morning(), 1, true);
    let b = run(busy_morning(), 1, true);
    assert_eq!(a.events, b.events);
    assert_eq!(a.report, b.report);
}

#[test]
fn only_rooms_that_are_never_vacated() {
    let rooms = vec![room(1, Some(-1), None, Some(10)), room(2, Some(-1), None, Some(10))];
    let s = run(rooms, 1, false);
    assert!(s.events.is_empty());
    assert_eq!(s.report.indefinitely_occupied_count, 2);
}

#[test]
fn no_crew_for_rooms_that_are_never_vacated_is_an_error_too() {
    let rooms = vec![room(1, Some(-1), None, Some(10))];
    let r = checked_process_rooms(rooms, 0, false);
    assert!(matches!(r, Some(Err(ScheduleError::NoCrewsAvailable))));
    let r = checked_process_rooms(vec![room(1, None, None, Some(10))], -3, false);
    assert!(matches!(r, Some(Err(ScheduleError::NoCrewsAvailable))));
}

#[test]
fn the_crew_waits_for_the_room_that_is_vacated_first() {
    let rooms = vec![
        room(1, Some(40), None, Some(5)),
        room(2, Some(30), Some(500), Some(8)),
        room(3, Some(20), Some(900), Some(30)),
    ];
    let s = run(rooms, 1, false);
    assert_eq!(
        s.events,
        vec![
            event(0, 38, 2, false, false, 1),
            event(0, 68, 3, false, false, 2),
            event(0, 73, 1, false, false, 0),
        ]
    );
}

#[test]
fn a_room_with_nothing_to_clean_takes_no_time() {
    let rooms = vec![room(1, Some(30), None, None), room(2, None, None, Some(0))];
    let s = run(rooms, 1, false);
    assert_eq!(
        s.events,
        vec![event(0, 0, 1, false, false, 0), event(0, 0, 2, false, false, 1)]
    );
}

#[test]
fn a_time_beyond_the_range_gives_no_schedule() {
    let heavy = vec![room(1, None, None, Some(i32::MAX)), room(2, None, None, Some(1))];
    assert!(checked_process_rooms(heavy, 1, false).is_none());
    let heavy = vec![room(1, None, None, Some(i32::MAX)), room(2, None, None, Some(1))];
    let s = run(heavy, 2, false);
    assert_eq!(
        s.events,
        vec![event(0, i32::MAX, 1, false, false, 0), event(1, 1, 2, false, false, 1)]
    );
    let exact = vec![room(1, Some(i32::MAX - 9), None, Some(4)), room(2, None, None, Some(5))];
    let s = run(exact, 1, false);
    assert_eq!(
        s.events,
        vec![event(0, i32::MAX - 5, 1, false, false, 0), event(0, i32::MAX, 2, false, false, 1)]
    );
    let edge = vec![room(1, Some(i32::MAX - 4), None, Some(4))];
    let s = run(edge, 1, false);
    assert_eq!(s.events, vec![event(0, i32::MAX, 1, false, false, 0)]);
    let over = vec![room(1, None, None, Some(i32::MAX - 3)), room(2, Some(5), None, Some(4))];
    assert!(checked_process_rooms(over, 1, false).is_none());
}

#[test]
fn crews_that_work_side_by_side_do_not_add_up() {
    let rooms = vec![
        room(1, None, None, Some(1_000_000_000)),
        room(2, None, None, Some(1_000_000_000)),
        room(3, None, None, Some(1_000_000_000)),
    ];
    let s = run(rooms, 3, false);
    let done: Vec<(i32, i32)> = s.events.iter().map(|e| (e.crew_id, e.completion_time)).collect();
    assert_eq!(done, vec![(0, 1_000_000_000), (1, 1_000_000_000), (2, 1_000_000_000)]);
}

#[test]
fn rooms_within_the_range_are_scheduled_without_a_test() {
    let s = process_rooms(busy_morning(), 1, true).unwrap();
    assert_eq!(s.events.len(), 3);
    let r = process_rooms(busy_morning(), 0, false);
    assert!(matches!(r, Err(ScheduleError::NoCrewsAvailable)));
}

#[test]
fn counts_are_those_of_the_events() {
    for hire in [false, true] {
        let s = run(busy_morning(), 1, hire);
        assert_eq!(s.report.late_room_count, s.events.iter().filter(|e| e.late).count());
        assert_eq!(s.report.crews_hired, s.events.iter().filter(|e| e.hired).count());
        let hired: Vec<i32> = s.events.iter().filter(|e| e.hired).map(|e| e.crew_id).collect();
        for (k, id) in hired.iter().enumerate() {
            assert_eq!(*id, 1 + k as i32 + 1);
        }
    }
}

#[test]
fn nobody_is_hired_where_no_room_is_reserved() {
    let rooms = vec![room(1, Some(9), None, Some(50)), room(2, None, None, Some(50))];
    let s = run(rooms, 1, true);
    assert_eq!(s.report.crews_hired, 0);
    assert!(s.events.iter().all(|e| !e.hired && e.crew_id == 0));
}
