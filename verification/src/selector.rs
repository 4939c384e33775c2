//! Which queue the next room is taken from.

use crate::room_data::{RoomData, RoomView};
use std::collections::VecDeque;
use vstd::prelude::*;

verus! {

/// The queue that the next room is taken from.
#[derive(Clone, Copy, Debug, PartialEq, Eq, Structural)]
pub enum RoomToCleanSource {
    /// The rooms that are not reserved, in the order in which they were given.
    Unreserved,
    /// The reserved rooms, the one whose cleaning must start first at the front.
    ByArrival,
    /// The reserved rooms, the one whose cleaning can be over first at the front.
    ByCleaningEnd,
    /// Every queue is used up.
    Exhausted,
}

/// The rooms of a list as contracts see them.
pub open spec fn room_views(rooms: Seq<RoomData>) -> Seq<RoomView> {
    rooms.map_values(|r: RoomData| r@)
}

/// What is left of a queue that has been read up to `cursor`.
pub open spec fn rest(queue: Seq<usize>, cursor: int) -> Seq<usize> {
    if 0 <= cursor <= queue.len() {
        queue.skip(cursor)
    } else {
        Seq::empty()
    }
}

/// The room at the front of a queue of positions in `rooms`; `None` where
/// the queue is empty or its front is no position in `rooms`.
pub open spec fn head_room(queue: Seq<usize>, rooms: Seq<RoomView>) -> Option<RoomView> {
    if queue.len() > 0 && queue[0] < rooms.len() {
        Some(rooms[queue[0] as int])
    } else {
        None
    }
}

/// Whether `head` is a room that has been cleaned already.
pub open spec fn is_stale(head: Option<RoomView>) -> bool {
    head matches Some(r) && r.cleaning_completed
}

/// Whether `head` is a room that is vacant at time `t`.
pub open spec fn is_free(head: Option<RoomView>, t: int) -> bool {
    head matches Some(r) && r.free_at(t)
}

/// Whether `first` is a room whose cleaning can be over no later than that
/// of `second`, or `second` is no room.
pub open spec fn ends_no_later(first: Option<RoomView>, second: Option<RoomView>) -> bool {
    first matches Some(a) && (second matches Some(b) ==> a.cleaning_end() <= b.cleaning_end())
}

/// Whether `first` is a room whose cleaning can be over before that of
/// `second`, or `second` is no room.
pub open spec fn ends_earlier(first: Option<RoomView>, second: Option<RoomView>) -> bool {
    first matches Some(a) && (second matches Some(b) ==> a.cleaning_end() < b.cleaning_end())
}

/// Of the heads that exist the one whose cleaning can be over first; of two
/// that are level the arrival queue's goes before the cleaning-end queue's,
/// and that before the unreserved one.
pub open spec fn soonest_to_free(
    by_arrival: Option<RoomView>,
    by_cleaning_end: Option<RoomView>,
    unreserved: Option<RoomView>,
) -> RoomToCleanSource {
    if ends_no_later(by_arrival, by_cleaning_end) && ends_no_later(by_arrival, unreserved) {
        RoomToCleanSource::ByArrival
    } else if ends_earlier(by_cleaning_end, by_arrival) && ends_no_later(
        by_cleaning_end,
        unreserved,
    ) {
        RoomToCleanSource::ByCleaningEnd
    } else if unreserved is Some {
        RoomToCleanSource::Unreserved
    } else {
        RoomToCleanSource::Exhausted
    }
}

/// The selection policy, on the three heads and the time `t` at which the
/// next crew is free: first a head that was cleaned already, so that it is
/// discarded; then a head that is vacant at `t`; then the head that is
/// vacated soonest. Within each rule the arrival queue goes first, the
/// unreserved queue last.
pub open spec fn select_source(
    by_arrival: Option<RoomView>,
    by_cleaning_end: Option<RoomView>,
    unreserved: Option<RoomView>,
    t: int,
) -> RoomToCleanSource {
    if is_stale(by_arrival) {
        RoomToCleanSource::ByArrival
    } else if is_stale(by_cleaning_end) {
        RoomToCleanSource::ByCleaningEnd
    } else if is_stale(unreserved) {
        RoomToCleanSource::Unreserved
    } else if is_free(by_arrival, t) {
        RoomToCleanSource::ByArrival
    } else if is_free(by_cleaning_end, t) {
        RoomToCleanSource::ByCleaningEnd
    } else if is_free(unreserved, t) {
        RoomToCleanSource::Unreserved
    } else {
        soonest_to_free(by_arrival, by_cleaning_end, unreserved)
    }
}

/// The room at the front of `indices`, if there is one.
pub fn get_occupied_room<'a>(indices: &VecDeque<usize>, rooms: &'a Vec<RoomData>) -> (room: Option<
    &'a RoomData,
>)
    ensures
        match room {
            Some(r) => head_room(indices@, room_views(rooms@)) == Some(r@),
            None => head_room(indices@, room_views(rooms@)) is None,
        },
{
    if indices.len() == 0 {
        return None;
    }
    let index: usize = indices[0];
    if index < rooms.len() {
        Some(&rooms[index])
    } else {
        None
    }
}

fn stale(head: Option<&RoomData>) -> (b: bool)
    ensures
        b == is_stale(
            match head {
                Some(r) => Some(r@),
                None => None,
            },
        ),
{
    match head {
        Some(r) => r.cleaning_completed(),
        None => false,
    }
}

fn free(head: Option<&RoomData>, current_time: i32) -> (b: bool)
    ensures
        b == is_free(
            match head {
                Some(r) => Some(r@),
                None => None,
            },
            current_time as int,
        ),
{
    match head {
        Some(r) => {
            let vacant: i32 = match r.occupied_until() {
                Some(t) => t,
                None => 0,
            };
            vacant <= current_time
        },
        None => false,
    }
}

/// Picks the queue whose front room is dealt with next, by the selection
/// policy. `unreserved` is read from `unreserved_index` on.
pub fn get_room_to_clean_source(
    by_arrival: &VecDeque<usize>,
    by_cleaning_end: &VecDeque<usize>,
    unreserved: &Vec<usize>,
    unreserved_index: usize,
    rooms: &Vec<RoomData>,
    current_time: i32,
) -> (source: RoomToCleanSource)
    ensures
        source == select_source(
            head_room(by_arrival@, room_views(rooms@)),
            head_room(by_cleaning_end@, room_views(rooms@)),
            head_room(rest(unreserved@, unreserved_index as int), room_views(rooms@)),
            current_time as int,
        ),
{
    let room_by_arrival = get_occupied_room(by_arrival, rooms);
    let room_by_cleaning_end = get_occupied_room(by_cleaning_end, rooms);
    let unreserved_room: Option<&RoomData> = if unreserved_index < unreserved.len()
        && unreserved[unreserved_index] < rooms.len() {
        Some(&rooms[unreserved[unreserved_index]])
    } else {
        None
    };

    if stale(room_by_arrival) {
        return RoomToCleanSource::ByArrival;
    }
    if stale(room_by_cleaning_end) {
        return RoomToCleanSource::ByCleaningEnd;
    }
    if stale(unreserved_room) {
        return RoomToCleanSource::Unreserved;
    }
    if free(room_by_arrival, current_time) {
        return RoomToCleanSource::ByArrival;
    }
    if free(room_by_cleaning_end, current_time) {
        return RoomToCleanSource::ByCleaningEnd;
    }
    if free(unreserved_room, current_time) {
        return RoomToCleanSource::Unreserved;
    }
    let mut best: RoomToCleanSource = RoomToCleanSource::Exhausted;
    let mut best_end: i32 = 0;
    if let Some(room) = room_by_arrival {
        best = RoomToCleanSource::ByArrival;
        best_end = room.cleaning_end();
    }
    if let Some(room) = room_by_cleaning_end {
        let end: i32 = room.cleaning_end();
        if best == RoomToCleanSource::Exhausted || end < best_end {
            best = RoomToCleanSource::ByCleaningEnd;
            best_end = end;
        }
    }
    if let Some(room) = unreserved_room {
        let end: i32 = room.cleaning_end();
        if best == RoomToCleanSource::Exhausted || end < best_end {
            best = RoomToCleanSource::Unreserved;
        }
    }
    best
}

} // verus!
