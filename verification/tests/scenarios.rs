use room_cleaning::room_data::RoomData;
use room_cleaning::scheduler::{checked_process_rooms, Schedule, ScheduleError};

fn room(
    number: i32,
    occupied_until: Option<i32>,
    reserved_from: Option<i32>,
    cleaning_duration: Option<i32>,
) -> RoomData {
    RoomData::new(number, occupied_until, reserved_from, cleaning_duration).unwrap()
}

fn schedule(rooms: Vec<RoomData>, crews: i32, hire: bool) -> Result<Schedule, ScheduleError> {
    checked_process_rooms(rooms, crews, hire).unwrap()
}

#[test]
fn one_crew_one_unreserved_room() {
    let s = schedule(vec![room(1, None, None, Some(10))], 1, false).unwrap();
    assert_eq!(s.events.len(), 1);
    assert_eq!(s.events[0].crew_id, 0);
    assert_eq!(s.events[0].completion_time, 10);
    assert_eq!(s.events[0].room_number, 1);
    assert!(!s.events[0].late);
    assert!(!s.events[0].hired);
    assert_eq!(s.report.late_room_count, 0);
    assert_eq!(s.report.crews_hired, 0);
    assert_eq!(s.report.indefinitely_occupied_count, 0);
    assert!(s.rooms[0].cleaning_completed());
}

#[test]
fn one_crew_one_reserved_room_is_late() {
    let s = schedule(vec![room(7, None, Some(5), Some(10))], 1, false).unwrap();
    assert_eq!(s.events.len(), 1);
    assert_eq!(s.events[0].completion_time, 10);
    assert!(s.events[0].late);
    assert_eq!(s.report.late_room_count, 1);
}

#[test]
fn no_crews_and_no_hiring_is_an_error() {
    let r = schedule(vec![room(1, None, None, Some(10))], 0, false);
    assert!(matches!(r, Err(ScheduleError::NoCrewsAvailable)));
}

#[test]
fn no_crews_with_hiring_hires_one() {
    let s = schedule(vec![room(1, None, Some(5), Some(10))], 0, true).unwrap();
    assert_eq!(s.events.len(), 1);
    assert_eq!(s.events[0].crew_id, 1);
    assert!(s.events[0].hired);
    assert_eq!(s.events[0].completion_time, 10);
    assert_eq!(s.report.crews_hired, 1);
}

#[test]
fn indefinitely_occupied_room_is_only_counted() {
    let s = schedule(vec![room(1, Some(-1), Some(700), Some(10))], 1, false).unwrap();
    assert_eq!(s.events.len(), 0);
    assert_eq!(s.report.indefinitely_occupied_count, 1);
    assert!(!s.rooms[0].cleaning_completed());
}

#[test]
fn empty_input_gives_an_empty_schedule() {
    let s = schedule(Vec::new(), 0, false).unwrap();
    assert_eq!(s.events.len(), 0);
    assert_eq!(s.report.late_room_count, 0);
    assert_eq!(s.report.crews_hired, 0);
    assert_eq!(s.report.indefinitely_occupied_count, 0);
}
