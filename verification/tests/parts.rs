use room_cleaning::cleaning_crew::CleaningCrew;
use room_cleaning::crew_pool::CrewPool;
use room_cleaning::description::decimal_text;
use room_cleaning::queue_order::sorted_indices;
use room_cleaning::room_data::RoomData;
use room_cleaning::selector::{get_occupied_room, get_room_to_clean_source, RoomToCleanSource};
use room_cleaning::triage::{classify, split_rooms_by_occupancy, RoomClass};
use std::cmp::Ordering;
use std::collections::VecDeque;

fn room(
    number: i32,
    occupied_until: Option<i32>,
    reserved_from: Option<i32>,
    cleaning_duration: Option<i32>,
) -> RoomData {
    RoomData::new(number, occupied_until, reserved_from, cleaning_duration).unwrap()
}

fn queue(entries: &[usize]) -> VecDeque<usize> {
    entries.iter().copied().collect()
}

#[test]
fn new_crew_is_free_at_once() {
    let crew = CleaningCrew::new(7);
    assert_eq!(crew.id(), 7);
    assert_eq!(crew.occupied_until(), 0);
}

#[test]
fn clean_until_keeps_the_id() {
    let crew = CleaningCrew::new(7).clean_until(42);
    assert_eq!(crew.id(), 7);
    assert_eq!(crew.occupied_until(), 42);
}

#[test]
fn crews_are_equal_by_id_and_time() {
    assert!(CleaningCrew::new(1) == CleaningCrew::new(1));
    assert!(CleaningCrew::new(1) != CleaningCrew::new(2));
    assert!(CleaningCrew::new(1) != CleaningCrew::new(1).clean_until(3));
}

#[test]
fn the_crew_that_is_free_first_is_the_greatest() {
    let early = CleaningCrew::new(5).clean_until(10);
    let late = CleaningCrew::new(1).clean_until(20);
    assert_eq!(early.partial_cmp(&late), Some(Ordering::Greater));
    assert_eq!(late.partial_cmp(&early), Some(Ordering::Less));
    assert!(early > late);
    let low = CleaningCrew::new(1).clean_until(10);
    assert_eq!(low.partial_cmp(&early), Some(Ordering::Greater));
    assert_eq!(early.partial_cmp(&low), Some(Ordering::Less));
    assert_eq!(low.partial_cmp(&low), Some(Ordering::Equal));
    assert!(early.precedes(&late));
    assert!(low.precedes(&early));
    assert!(!early.precedes(&low));
    assert!(low.precedes(&low));
}

#[test]
fn pool_hands_out_crews_by_time_then_id() {
    let mut pool = CrewPool::new();
    assert!(pool.peek().is_none());
    assert!(pool.pop().is_none());
    for (id, time) in [(4, 30), (2, 10), (9, 10), (1, 50), (3, 0), (8, 30), (0, 30)] {
        pool.push(CleaningCrew::new(id).clean_until(time));
    }
    assert_eq!(pool.len(), 7);
    assert_eq!(pool.peek().unwrap().id(), 3);
    assert_eq!(pool.len(), 7);
    let mut order = Vec::new();
    while let Some(crew) = pool.pop() {
        order.push((crew.occupied_until(), crew.id()));
    }
    assert_eq!(order, vec![(0, 3), (10, 2), (10, 9), (30, 0), (30, 4), (30, 8), (50, 1)]);
    assert_eq!(pool.len(), 0);
}

#[test]
fn pool_keeps_order_under_mixed_use() {
    let mut pool = CrewPool::new();
    for id in 0..20 {
        pool.push(CleaningCrew::new(id).clean_until((id * 7) % 11));
    }
    let mut last = (i32::MIN, i32::MIN);
    for round in 0..20 {
        let crew = pool.pop().unwrap();
        let key = (crew.occupied_until(), crew.id());
        assert!(last < key);
        last = key;
        if round % 4 == 0 {
            pool.push(crew.clean_until(100 + round));
        }
    }
    assert_eq!(pool.len(), 5);
}

#[test]
fn derived_times_of_a_room() {
    let r = room(1, Some(30), Some(100), Some(20));
    assert_eq!(r.cleaning_end(), 50);
    assert_eq!(r.latest_cleaning_start(), 80);
    let r = room(1, None, Some(100), Some(20));
    assert_eq!(r.cleaning_end(), 20);
    let r = room(1, Some(30), None, Some(20));
    assert_eq!(r.latest_cleaning_start(), i32::MAX);
    let r = room(1, Some(30), Some(100), None);
    assert_eq!(r.cleaning_end(), 30);
    assert_eq!(r.latest_cleaning_start(), i32::MAX);
    let r = room(1, None, Some(5), Some(10));
    assert_eq!(r.latest_cleaning_start(), -5);
}

#[test]
fn room_whose_times_do_not_fit_is_refused() {
    assert!(RoomData::new(1, Some(i32::MAX), None, Some(1)).is_none());
    assert!(RoomData::new(1, Some(i32::MAX), None, Some(0)).is_some());
    assert!(RoomData::new(1, None, Some(i32::MIN), Some(1)).is_none());
    assert!(RoomData::new(1, None, Some(i32::MIN), None).is_some());
    assert!(RoomData::new(1, Some(i32::MIN), None, Some(-1)).is_none());
}

#[test]
fn cleaning_starts_when_room_and_crew_are_free() {
    let mut r = room(1, Some(30), None, Some(20));
    assert!(!r.cleaning_completed());
    assert_eq!(r.clean(10), 50);
    assert!(r.cleaning_completed());
    let mut r = room(1, Some(30), None, Some(20));
    assert_eq!(r.clean(45), 65);
    let mut r = room(1, None, None, Some(20));
    assert_eq!(r.clean(45), 65);
    let mut r = room(1, None, None, Some(20));
    assert_eq!(r.clean(-45), 20);
    let mut r = room(1, Some(30), None, None);
    assert_eq!(r.clean(10), 10);
    assert!(r.cleaning_completed());
    let mut r = room(1, Some(30), None, Some(0));
    assert_eq!(r.clean(10), 10);
}

#[test]
fn rooms_are_sorted_into_three_classes() {
    let rooms = vec![
        room(1, None, None, Some(5)),
        room(2, Some(-1), Some(9), Some(5)),
        room(3, Some(4), Some(90), Some(5)),
        room(4, Some(-2), None, Some(5)),
        room(5, None, Some(80), Some(5)),
        room(6, Some(-1), None, Some(5)),
    ];
    assert_eq!(classify(&rooms[0]), RoomClass::Unreserved);
    assert_eq!(classify(&rooms[1]), RoomClass::IndefinitelyOccupied);
    assert_eq!(classify(&rooms[2]), RoomClass::Reserved);
    let parts = split_rooms_by_occupancy(&rooms);
    assert_eq!(parts.reserved, vec![2, 4]);
    assert_eq!(parts.unreserved, vec![0, 3]);
    assert_eq!(parts.indefinitely_occupied, 2);
    let none = split_rooms_by_occupancy(&Vec::new());
    assert!(none.reserved.is_empty() && none.unreserved.is_empty());
    assert_eq!(none.indefinitely_occupied, 0);
}

#[test]
fn indices_are_sorted_by_key_and_stay_in_order_where_keys_are_level() {
    assert_eq!(sorted_indices(&vec![30, 10, 20, 10, 30, 10]), queue(&[1, 3, 5, 2, 0, 4]));
    assert_eq!(sorted_indices(&Vec::new()), queue(&[]));
    assert_eq!(sorted_indices(&vec![7]), queue(&[0]));
    assert_eq!(sorted_indices(&vec![3, 2, 1]), queue(&[2, 1, 0]));
    assert_eq!(sorted_indices(&vec![i32::MAX, i32::MIN, 0, -1]), queue(&[1, 3, 2, 0]));
    assert_eq!(sorted_indices(&vec![5, 5, 5, 5]), queue(&[0, 1, 2, 3]));
}

#[test]
fn front_room_of_a_queue() {
    let rooms = vec![room(1, None, None, Some(5)), room(2, None, None, Some(7))];
    assert_eq!(get_occupied_room(&queue(&[1, 0]), &rooms).unwrap().room_number(), 2);
    assert!(get_occupied_room(&queue(&[]), &rooms).is_none());
    assert!(get_occupied_room(&queue(&[2]), &rooms).is_none());
}

#[test]
fn a_cleaned_front_is_selected_first() {
    let mut rooms = vec![
        room(0, Some(90), Some(500), Some(5)),
        room(1, Some(90), Some(500), Some(5)),
        room(2, None, None, Some(5)),
    ];
    let free_unreserved = vec![2];
    rooms[1].clean(0);
    let s = get_room_to_clean_source(&queue(&[0]), &queue(&[1]), &free_unreserved, 0, &rooms, 0);
    assert_eq!(s, RoomToCleanSource::ByCleaningEnd);
    rooms[0].clean(0);
    let s = get_room_to_clean_source(&queue(&[0]), &queue(&[1]), &free_unreserved, 0, &rooms, 0);
    assert_eq!(s, RoomToCleanSource::ByArrival);
    rooms[2].clean(0);
    let s = get_room_to_clean_source(&queue(&[]), &queue(&[]), &free_unreserved, 0, &rooms, 0);
    assert_eq!(s, RoomToCleanSource::Unreserved);
}

#[test]
fn a_vacant_front_is_selected_before_waiting() {
    let rooms = vec![
        room(0, Some(90), Some(500), Some(5)),
        room(1, Some(20), Some(500), Some(50)),
        room(2, Some(10), None, Some(500)),
    ];
    let unreserved = vec![2];
    let pick = |t: i32| {
        get_room_to_clean_source(&queue(&[0]), &queue(&[1]), &unreserved, 0, &rooms, t)
    };
    assert_eq!(pick(90), RoomToCleanSource::ByArrival);
    assert_eq!(pick(89), RoomToCleanSource::ByCleaningEnd);
    assert_eq!(pick(20), RoomToCleanSource::ByCleaningEnd);
    assert_eq!(pick(19), RoomToCleanSource::Unreserved);
    assert_eq!(pick(10), RoomToCleanSource::Unreserved);
    assert_eq!(pick(9), RoomToCleanSource::ByCleaningEnd);
}

#[test]
fn waiting_goes_by_cleaning_end_and_then_by_queue() {
    let rooms = vec![
        room(0, Some(50), Some(500), Some(10)),
        room(1, Some(40), Some(500), Some(20)),
        room(2, Some(30), None, Some(30)),
        room(3, Some(30), None, Some(29)),
        room(4, Some(40), Some(500), Some(19)),
    ];
    let unreserved = vec![2, 3];
    let s = get_room_to_clean_source(&queue(&[0]), &queue(&[1]), &unreserved, 0, &rooms, 0);
    assert_eq!(s, RoomToCleanSource::ByArrival);
    let s = get_room_to_clean_source(&queue(&[]), &queue(&[1]), &unreserved, 0, &rooms, 0);
    assert_eq!(s, RoomToCleanSource::ByCleaningEnd);
    let s = get_room_to_clean_source(&queue(&[0]), &queue(&[4]), &unreserved, 0, &rooms, 0);
    assert_eq!(s, RoomToCleanSource::ByCleaningEnd);
    let s = get_room_to_clean_source(&queue(&[0]), &queue(&[1]), &unreserved, 1, &rooms, 0);
    assert_eq!(s, RoomToCleanSource::Unreserved);
    let s = get_room_to_clean_source(&queue(&[]), &queue(&[]), &unreserved, 1, &rooms, 0);
    assert_eq!(s, RoomToCleanSource::Unreserved);
}

#[test]
fn nothing_is_selected_where_every_queue_is_used_up() {
    let rooms = vec![room(0, None, None, Some(10))];
    let unreserved = vec![0];
    let s = get_room_to_clean_source(&queue(&[]), &queue(&[]), &unreserved, 1, &rooms, 0);
    assert_eq!(s, RoomToCleanSource::Exhausted);
    let s = get_room_to_clean_source(&queue(&[]), &queue(&[]), &Vec::new(), 0, &rooms, 0);
    assert_eq!(s, RoomToCleanSource::Exhausted);
    let s = get_room_to_clean_source(&queue(&[]), &queue(&[]), &unreserved, 7, &rooms, 0);
    assert_eq!(s, RoomToCleanSource::Exhausted);
}

#[test]
fn rooms_in_words() {
    assert_eq!(
        room(12, None, None, None).describe(),
        "#12 unoccupied unreserved clean"
    );
    assert_eq!(
        room(7, Some(-1), None, Some(30)).describe(),
        "#7 occupied indefinitely unreserved requires cleaning for 30 ticks"
    );
    assert_eq!(
        room(305, Some(40), Some(1250), Some(25)).describe(),
        "#305 occupied until 40 reserved from 1250 requires cleaning for 25 ticks"
    );
    assert_eq!(
        room(0, Some(0), Some(0), Some(0)).describe(),
        "#0 occupied until 0 reserved requires cleaning for 0 ticks"
    );
    assert_eq!(
        room(-3, Some(-20), Some(-7), Some(5)).describe(),
        "#-3 occupied until -20 reserved from -7 requires cleaning for 5 ticks"
    );
}

#[test]
fn numbers_in_digits() {
    for n in [0, 1, 9, 10, 11, 99, 100, 12345, -1, -10, -909, i32::MAX, i32::MIN] {
        assert_eq!(decimal_text(n), n.to_string());
    }
}
