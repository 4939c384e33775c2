use json::JsonValue;
use room_cleaning::loader::{
    handle_json_data, integer_from_parts, json_integer, offset_from, read_record, LoadError,
    RoomRecord,
};
use room_cleaning::room_data::RoomData;

fn object(
    number: i32,
    occupied: bool,
    until: i32,
    reserved: bool,
    dirty: bool,
    duration: i32,
) -> JsonValue {
    let mut o = JsonValue::new_object();
    o.insert("roomNumber", number).unwrap();
    o.insert("isOccupied", occupied).unwrap();
    o.insert("occupiedUntil", until).unwrap();
    o.insert("isReserved", reserved).unwrap();
    o.insert("hasToBeCleaned", dirty).unwrap();
    o.insert("cleaningDuration", duration).unwrap();
    o
}

#[test]
fn record_without_reservation_becomes_a_room() {
    let record = RoomRecord {
        room_number: 4,
        is_occupied: true,
        occupied_until: 30,
        is_reserved: false,
        needs_cleaning: true,
        cleaning_duration: 12,
    };
    let room = RoomData::from_record(&record, 500).unwrap();
    assert_eq!(room.room_number(), 4);
    assert_eq!(room.occupied_until(), Some(30));
    assert_eq!(room.reserved_from(), None);
    assert_eq!(room.cleaning_duration(), Some(12));
    assert!(!room.cleaning_completed());
}

#[test]
fn reservation_starts_after_the_room_is_ready() {
    let record = RoomRecord {
        room_number: 4,
        is_occupied: true,
        occupied_until: 30,
        is_reserved: true,
        needs_cleaning: true,
        cleaning_duration: 12,
    };
    let room = RoomData::from_record(&record, 500).unwrap();
    assert_eq!(room.reserved_from(), Some(542));
    assert_eq!(room.latest_cleaning_start(), 530);
}

#[test]
fn room_that_is_never_vacated_has_no_reservation() {
    let record = RoomRecord {
        room_number: 4,
        is_occupied: true,
        occupied_until: -1,
        is_reserved: true,
        needs_cleaning: true,
        cleaning_duration: 12,
    };
    let room = RoomData::from_record(&record, 500).unwrap();
    assert_eq!(room.reserved_from(), None);
    assert_eq!(room.occupied_until(), Some(-1));
}

#[test]
fn arrival_beyond_the_range_gives_no_room() {
    let record = RoomRecord {
        room_number: 4,
        is_occupied: true,
        occupied_until: i32::MAX - 100,
        is_reserved: true,
        needs_cleaning: false,
        cleaning_duration: 0,
    };
    assert!(RoomData::from_record(&record, 500).is_none());
}

#[test]
fn offsets_stay_in_their_range() {
    assert_eq!(offset_from(i32::MIN), 500);
    assert_eq!(offset_from(i32::MIN + 19499), 19999);
    assert_eq!(offset_from(i32::MIN + 19500), 500);
    for drawn in [-1, 0, 1, i32::MAX, 123456789] {
        let offset = offset_from(drawn);
        assert!((500..20000).contains(&offset));
    }
}

#[test]
fn room_is_read_from_an_object() {
    let room = RoomData::from_json(&object(31, true, 12, false, true, 40), &mut None).unwrap();
    assert_eq!(room.room_number(), 31);
    assert_eq!(room.occupied_until(), Some(12));
    assert_eq!(room.reserved_from(), None);
    assert_eq!(room.cleaning_duration(), Some(40));
    let room = RoomData::from_json(&object(31, false, 12, true, false, 40), &mut None).unwrap();
    assert_eq!(room.occupied_until(), None);
    assert_eq!(room.cleaning_duration(), None);
    let arrival = room.reserved_from().unwrap();
    assert!(arrival >= 500 && arrival < 20000);
    assert!(RoomData::from_json(&JsonValue::from("room"), &mut None).is_none());
    assert!(RoomData::from_json(&JsonValue::new_object(), &mut None).is_none());
}

#[test]
fn record_is_read_member_by_member() {
    let record = read_record(&object(31, true, 12, false, true, 40)).unwrap();
    assert_eq!(
        record,
        RoomRecord {
            room_number: 31,
            is_occupied: true,
            occupied_until: 12,
            is_reserved: false,
            needs_cleaning: true,
            cleaning_duration: 40,
        }
    );
    let mut wide = object(31, true, 12, false, true, 40);
    wide.insert("occupiedUntil", 4_000_000_000u64).unwrap();
    assert!(read_record(&wide).is_none());
}

#[test]
fn numbers_are_read_as_i32_or_not_at_all() {
    let read = |text: &str| json_integer(&json::parse(text).unwrap());
    assert_eq!(read("0"), Some(0));
    assert_eq!(read("-0"), Some(0));
    assert_eq!(read("17"), Some(17));
    assert_eq!(read("-17"), Some(-17));
    assert_eq!(read("2147483647"), Some(i32::MAX));
    assert_eq!(read("2147483648"), None);
    assert_eq!(read("-2147483648"), Some(i32::MIN));
    assert_eq!(read("-2147483649"), None);
    assert_eq!(read("9223372036854775808"), None);
    assert_eq!(read("-9223372036854775808"), None);
    assert_eq!(read("18446744073709551615"), None);
    assert_eq!(read("1.5"), None);
    assert_eq!(read("1e2"), None);
    assert_eq!(read("true"), None);
    assert_eq!(read("\"12\""), None);
    assert_eq!(read("null"), None);
}

#[test]
fn parts_of_a_number_give_its_value() {
    assert_eq!(integer_from_parts(true, 12, 0), Some(12));
    assert_eq!(integer_from_parts(false, 12, 0), Some(-12));
    assert_eq!(integer_from_parts(true, 12, 1), None);
    assert_eq!(integer_from_parts(true, 120, -1), None);
    assert_eq!(integer_from_parts(false, 2147483648, 0), Some(i32::MIN));
    assert_eq!(integer_from_parts(true, 2147483648, 0), None);
    assert_eq!(integer_from_parts(false, u64::MAX, 0), None);
}

#[test]
fn a_number_at_the_edge_of_i64_is_refused_without_a_panic() {
    let text = r#"[{"roomNumber": -9223372036854775808, "isOccupied": false,
        "occupiedUntil": 0, "isReserved": false, "hasToBeCleaned": true,
        "cleaningDuration": 10}]"#;
    let r = handle_json_data(json::parse(text).unwrap(), &None);
    assert!(matches!(r, Err(LoadError::InvalidRoomRecord { index: 0 })));
}

#[test]
fn a_room_whose_time_is_out_of_range_is_no_invalid_record() {
    let mut input = JsonValue::new_array();
    input.push(object(1, false, 0, false, true, 10)).unwrap();
    input.push(object(2, true, i32::MAX, false, true, 1)).unwrap();
    input.push(JsonValue::new_object()).unwrap();
    let r = handle_json_data(input, &None);
    assert!(matches!(r, Err(LoadError::TimeOutOfRange { index: 1 })));
    let mut input = JsonValue::new_array();
    input.push(object(2, true, i32::MAX - 100, true, false, 0)).unwrap();
    let r = handle_json_data(input, &Some(String::from("zebra")));
    assert!(matches!(r, Err(LoadError::TimeOutOfRange { index: 0 })));
    let mut input = JsonValue::new_array();
    input.push(JsonValue::new_object()).unwrap();
    input.push(object(2, true, i32::MAX, false, true, 1)).unwrap();
    let r = handle_json_data(input, &None);
    assert!(matches!(r, Err(LoadError::InvalidRoomRecord { index: 0 })));
}

#[test]
fn only_reserved_rooms_take_a_draw() {
    let seed = Some(String::from("stripy zebra"));
    let mut plain = JsonValue::new_array();
    let mut mixed = JsonValue::new_array();
    for n in 0..4 {
        plain.push(object(n, true, 10 * n, true, true, 5)).unwrap();
        mixed.push(object(100 + n, false, 0, false, true, 5)).unwrap();
        mixed.push(object(n, true, 10 * n, true, true, 5)).unwrap();
        mixed.push(object(200 + n, true, 3, false, false, 0)).unwrap();
    }
    let a = handle_json_data(plain, &seed).unwrap();
    let b = handle_json_data(mixed, &seed).unwrap();
    let reserved: Vec<Option<i32>> =
        b.iter().filter(|r| r.reserved_from().is_some()).map(|r| r.reserved_from()).collect();
    let wanted: Vec<Option<i32>> = a.iter().map(|r| r.reserved_from()).collect();
    assert_eq!(reserved, wanted);
}

#[test]
fn another_seed_gives_other_arrivals() {
    let mut first = JsonValue::new_array();
    for n in 0..8 {
        first.push(object(n, false, 0, true, true, 5)).unwrap();
    }
    let second = first.clone();
    let a = handle_json_data(first, &Some(String::from("stripy zebra"))).unwrap();
    let b = handle_json_data(second, &Some(String::from("spotted zebra"))).unwrap();
    let a: Vec<Option<i32>> = a.iter().map(|r| r.reserved_from()).collect();
    let b: Vec<Option<i32>> = b.iter().map(|r| r.reserved_from()).collect();
    assert_ne!(a, b);
}

#[test]
fn rooms_that_need_no_cleaning_are_left_out() {
    let mut input = JsonValue::new_array();
    input.push(object(1, false, 0, false, true, 10)).unwrap();
    input.push(object(2, false, 0, false, false, 10)).unwrap();
    input.push(object(3, true, 40, false, true, 0)).unwrap();
    input.push(object(4, true, 40, true, true, 25)).unwrap();
    let rooms = handle_json_data(input, &Some(String::from("zebra"))).unwrap();
    assert_eq!(rooms.len(), 2);
    assert_eq!(rooms[0].room_number(), 1);
    assert_eq!(rooms[0].cleaning_duration(), Some(10));
    assert_eq!(rooms[1].room_number(), 4);
    assert_eq!(rooms[1].occupied_until(), Some(40));
    let arrival = rooms[1].reserved_from().unwrap();
    assert!(arrival >= 40 + 25 + 500 && arrival < 40 + 25 + 20000);
}

#[test]
fn same_seed_gives_the_same_arrivals() {
    let mut first = JsonValue::new_array();
    let mut second = JsonValue::new_array();
    for n in 0..5 {
        first.push(object(n, true, 10 * n, true, true, 5)).unwrap();
        second.push(object(n, true, 10 * n, true, true, 5)).unwrap();
    }
    let seed = Some(String::from("stripy zebra"));
    let a = handle_json_data(first, &seed).unwrap();
    let b = handle_json_data(second, &seed).unwrap();
    assert_eq!(a.len(), 5);
    for k in 0..5 {
        assert_eq!(a[k].reserved_from(), b[k].reserved_from());
    }
}

#[test]
fn unseeded_arrivals_are_in_range() {
    let mut input = JsonValue::new_array();
    input.push(object(9, false, 0, true, true, 10)).unwrap();
    for seed in [None, Some(String::new())] {
        let rooms = handle_json_data(input.clone(), &seed).unwrap();
        let arrival = rooms[0].reserved_from().unwrap();
        assert!(arrival >= 510 && arrival < 20010);
    }
}

#[test]
fn input_that_is_no_array_is_refused() {
    let r = handle_json_data(object(1, false, 0, false, true, 10), &None);
    assert!(matches!(r, Err(LoadError::NotAnArray)));
    let r = handle_json_data(JsonValue::from(3), &None);
    assert!(matches!(r, Err(LoadError::NotAnArray)));
}

#[test]
fn record_with_a_missing_member_is_refused() {
    let mut broken = object(2, false, 0, false, true, 10);
    broken.remove("isReserved");
    let mut input = JsonValue::new_array();
    input.push(object(1, false, 0, false, true, 10)).unwrap();
    input.push(broken).unwrap();
    let r = handle_json_data(input, &None);
    assert!(matches!(r, Err(LoadError::InvalidRoomRecord { index: 1 })));
}

#[test]
fn record_with_a_member_of_another_type_is_refused() {
    let mut broken = object(2, false, 0, false, true, 10);
    broken.insert("cleaningDuration", "long").unwrap();
    let mut input = JsonValue::new_array();
    input.push(broken).unwrap();
    let r = handle_json_data(input, &None);
    assert!(matches!(r, Err(LoadError::InvalidRoomRecord { index: 0 })));
}
