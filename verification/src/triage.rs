//! Sorting the rooms into those that are reserved, those that are not, and
//! those that are never vacated.

use crate::room_data::{RoomData, RoomView, OCCUPIED_INDEFINITELY};
use crate::selector::room_views;
use vstd::prelude::*;

verus! {

/// The three classes that a room can fall into.
#[derive(Clone, Copy, Debug, PartialEq, Eq, Structural)]
pub enum RoomClass {
    Reserved,
    Unreserved,
    IndefinitelyOccupied,
}

/// The class of a room: a room that is never vacated is in neither queue,
/// whether it is reserved or not.
pub open spec fn class_of(room: RoomView) -> RoomClass {
    if room.is_indefinitely_occupied() {
        RoomClass::IndefinitelyOccupied
    } else if room.is_reserved() {
        RoomClass::Reserved
    } else {
        RoomClass::Unreserved
    }
}

/// The positions of the rooms of one class, in ascending order.
pub open spec fn positions_of(rooms: Seq<RoomView>, class: RoomClass) -> Seq<usize>
    decreases rooms.len(),
{
    if rooms.len() == 0 {
        Seq::empty()
    } else {
        let before = positions_of(rooms.drop_last(), class);
        if class_of(rooms.last()) == class {
            before.push((rooms.len() - 1) as usize)
        } else {
            before
        }
    }
}

/// `positions_of` holds the positions of the rooms of that class, each of
/// them once, in ascending order, and nothing else.
pub proof fn lemma_positions_of(rooms: Seq<RoomView>, class: RoomClass)
    requires
        rooms.len() <= usize::MAX,
    ensures
        positions_of(rooms, class).len() <= rooms.len(),
        forall|k: int|
            0 <= k < positions_of(rooms, class).len() ==> {
                let p = #[trigger] positions_of(rooms, class)[k];
                p < rooms.len() && class_of(rooms[p as int]) == class
            },
        forall|j: int, k: int|
            0 <= j < k < positions_of(rooms, class).len() ==> positions_of(rooms, class)[j]
                < positions_of(rooms, class)[k],
        forall|p: usize|
            p < rooms.len() && class_of(rooms[p as int]) == class ==> positions_of(
                rooms,
                class,
            ).contains(p),
    decreases rooms.len(),
{
    if rooms.len() > 0 {
        let shorter = rooms.drop_last();
        let before = positions_of(shorter, class);
        let all = positions_of(rooms, class);
        let last = (rooms.len() - 1) as usize;
        lemma_positions_of(shorter, class);
        assert forall|p: usize|
            p < rooms.len() && class_of(rooms[p as int]) == class implies all.contains(p) by {
            if p < shorter.len() {
                assert(shorter[p as int] == rooms[p as int]);
                assert(before.contains(p));
                let k = choose|k: int| 0 <= k < before.len() && before[k] == p;
                assert(all[k] == p);
            } else {
                assert(p == last);
                assert(all[all.len() - 1] == p);
            }
        }
        assert forall|k: int| 0 <= k < all.len() implies {
            let p = #[trigger] all[k];
            p < rooms.len() && class_of(rooms[p as int]) == class
        } by {
            if k < before.len() {
                assert(all[k] == before[k]);
                assert(shorter[before[k] as int] == rooms[before[k] as int]);
            }
        }
        assert forall|j: int, k: int| 0 <= j < k < all.len() implies all[j] < all[k] by {
            assert(all[j] == before[j]);
            if k < before.len() {
                assert(all[k] == before[k]);
            }
        }
    }
}

/// The rooms of a list by class: where the reserved ones stand, where the
/// others stand, and how many are never vacated.
pub struct RoomPartition {
    pub reserved: Vec<usize>,
    pub unreserved: Vec<usize>,
    pub indefinitely_occupied: usize,
}

pub fn classify(room: &RoomData) -> (class: RoomClass)
    ensures
        class == class_of(room@),
{
    if room.occupied_until() == Some(OCCUPIED_INDEFINITELY) {
        RoomClass::IndefinitelyOccupied
    } else if room.reserved_from().is_some() {
        RoomClass::Reserved
    } else {
        RoomClass::Unreserved
    }
}

/// Sorts the rooms into the three classes. Within a class the rooms keep
/// the order in which they were given.
pub fn split_rooms_by_occupancy(rooms: &Vec<RoomData>) -> (parts: RoomPartition)
    ensures
        parts.reserved@ == positions_of(room_views(rooms@), RoomClass::Reserved),
        parts.unreserved@ == positions_of(room_views(rooms@), RoomClass::Unreserved),
        parts.indefinitely_occupied == positions_of(
            room_views(rooms@),
            RoomClass::IndefinitelyOccupied,
        ).len(),
{
    let mut reserved: Vec<usize> = Vec::new();
    let mut unreserved: Vec<usize> = Vec::new();
    let mut indefinitely_occupied: usize = 0;
    let ghost views = room_views(rooms@);
    let mut i: usize = 0;
    while i < rooms.len()
        invariant
            i <= rooms.len(),
            views == room_views(rooms@),
            reserved@ == positions_of(views.take(i as int), RoomClass::Reserved),
            unreserved@ == positions_of(views.take(i as int), RoomClass::Unreserved),
            indefinitely_occupied == positions_of(
                views.take(i as int),
                RoomClass::IndefinitelyOccupied,
            ).len(),
        decreases rooms.len() - i,
    {
        proof {
            let next = views.take(i + 1);
            assert(next.drop_last() =~= views.take(i as int));
            assert(next.last() == rooms[i as int]@);
            lemma_positions_of(views.take(i as int), RoomClass::IndefinitelyOccupied);
        }
        match classify(&rooms[i]) {
            RoomClass::IndefinitelyOccupied => {
                indefinitely_occupied += 1;
            },
            RoomClass::Reserved => {
                reserved.push(i);
            },
            RoomClass::Unreserved => {
                unreserved.push(i);
            },
        }
        i += 1;
    }
    proof {
        assert(views.take(rooms.len() as int) =~= views);
    }
    RoomPartition { reserved, unreserved, indefinitely_occupied }
}

} // verus!
