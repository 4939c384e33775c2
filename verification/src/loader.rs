//! From parsed JSON to the rooms that are to be cleaned.

use crate::outside::{
    as_bool_of, as_number_of, draw_of, draw_seeded_offset, draw_unseeded, generator_of,
    items_of, json_as_bool, json_as_number, json_items, json_member, make_generator, member_of,
    number_parts, parts_of, seeder_from, seeder_of,
};
use crate::room_data::{RoomData, RoomView};
use crate::selector::room_views;
use json::JsonValue;
use rand_xoshiro::Xoshiro256PlusPlus;
use vstd::prelude::*;

verus! {

/// The lowest offset between the earliest time at which a room can be
/// ready and the arrival of its guest.
pub const MIN_OFFSET: i32 = 500;

/// The upper end of the offsets, which is no offset itself.
pub const OFFSET_END: i32 = 20000;

/// A room as the input describes it.
#[derive(Clone, Copy, Debug, PartialEq, Eq, Structural)]
pub struct RoomRecord {
    pub room_number: i32,
    pub is_occupied: bool,
    pub occupied_until: i32,
    pub is_reserved: bool,
    pub needs_cleaning: bool,
    pub cleaning_duration: i32,
}

/// The `i32` value of a number with these parts: the mantissa under its
/// sign, where the decimal exponent is 0 and the value is in the range of
/// `i32`; else `None`.
pub open spec fn integer_from(positive: bool, mantissa: u64, exponent: i16) -> Option<i32> {
    if exponent != 0 {
        None
    } else if positive {
        if mantissa <= i32::MAX {
            Some(mantissa as i32)
        } else {
            None
        }
    } else if mantissa <= -(i32::MIN as int) {
        Some((-(mantissa as int)) as i32)
    } else {
        None
    }
}

/// The `i32` value that the JSON value holds; `None` where it is no number,
/// or a number that is no `i32` value.
pub open spec fn integer_of(value: JsonValue) -> Option<i32> {
    match as_number_of(value) {
        Some(number) => integer_from(
            parts_of(number).0,
            parts_of(number).1,
            parts_of(number).2,
        ),
        None => None,
    }
}

/// The `i32` value of a number with these parts.
pub fn integer_from_parts(positive: bool, mantissa: u64, exponent: i16) -> (value: Option<i32>)
    ensures
        value == integer_from(positive, mantissa, exponent),
{
    if exponent != 0 {
        None
    } else if positive {
        if mantissa <= i32::MAX as u64 {
            Some(mantissa as i32)
        } else {
            None
        }
    } else if mantissa <= 2147483648u64 {
        Some((-(mantissa as i64)) as i32)
    } else {
        None
    }
}

/// The `i32` value that the JSON value holds.
pub fn json_integer(value: &JsonValue) -> (number: Option<i32>)
    ensures
        number == integer_of(*value),
{
    match json_as_number(value) {
        Some(number) => {
            let parts = number_parts(&number);
            integer_from_parts(parts.0, parts.1, parts.2)
        },
        None => None,
    }
}

/// The record that the JSON object `obj` holds; `None` where one of the six
/// members is missing, or holds no `i32` value or no truth value where one
/// is due.
pub open spec fn record_of(obj: JsonValue) -> Option<RoomRecord> {
    match (
        integer_of(member_of(obj, "roomNumber"@)),
        as_bool_of(member_of(obj, "isOccupied"@)),
        integer_of(member_of(obj, "occupiedUntil"@)),
        as_bool_of(member_of(obj, "isReserved"@)),
        as_bool_of(member_of(obj, "hasToBeCleaned"@)),
        integer_of(member_of(obj, "cleaningDuration"@)),
    ) {
        (
            Some(room_number),
            Some(is_occupied),
            Some(occupied_until),
            Some(is_reserved),
            Some(needs_cleaning),
            Some(cleaning_duration),
        ) => Some(
            RoomRecord {
                room_number,
                is_occupied,
                occupied_until,
                is_reserved,
                needs_cleaning,
                cleaning_duration,
            },
        ),
        _ => None,
    }
}

impl RoomRecord {
    /// The earliest time at which the room can be ready for a guest.
    pub open spec fn earliest_ready(self) -> int {
        (if self.is_occupied {
            self.occupied_until as int
        } else {
            0
        }) + (if self.needs_cleaning {
            self.cleaning_duration as int
        } else {
            0
        })
    }

    /// Whether the room counts as reserved: a room whose occupant leaves at
    /// a negative time, as one that is never vacated, has no reservation.
    pub open spec fn keeps_reservation(self) -> bool {
        self.is_reserved && (!self.is_occupied || self.occupied_until >= 0)
    }

    /// The room of this record, with a guest who arrives `offset` after the
    /// room can be ready; `None` where that time, or a derived time of the
    /// room, is no `i32` value.
    pub open spec fn room(self, offset: int) -> Option<RoomView> {
        let arrival = self.earliest_ready() + offset;
        let room = RoomView {
            room_number: self.room_number,
            occupied_until: if self.is_occupied {
                Some(self.occupied_until)
            } else {
                None
            },
            reserved_from: if self.keeps_reservation() {
                Some(arrival as i32)
            } else {
                None
            },
            cleaning_duration: if self.needs_cleaning {
                Some(self.cleaning_duration)
            } else {
                None
            },
            cleaning_completed: false,
        };
        if (self.keeps_reservation() ==> i32::MIN <= arrival <= i32::MAX) && room.in_range() {
            Some(room)
        } else {
            None
        }
    }
}

/// Whether `offset` is one that a guest's arrival can be drawn with.
pub open spec fn is_offset(offset: int) -> bool {
    MIN_OFFSET <= offset < OFFSET_END
}

impl RoomData {
    /// The room of `record`, with a guest who arrives `offset` after the
    /// room can be ready.
    pub fn from_record(record: &RoomRecord, offset: i32) -> (room: Option<Self>)
        ensures
            match room {
                Some(r) => record.room(offset as int) == Some(r@),
                None => record.room(offset as int) is None,
            },
    {
        let vacant: i64 = if record.is_occupied {
            record.occupied_until as i64
        } else {
            0
        };
        let duration: i64 = if record.needs_cleaning {
            record.cleaning_duration as i64
        } else {
            0
        };
        let arrival: i64 = vacant + duration + offset as i64;
        let reserved: bool = record.is_reserved && (!record.is_occupied || record.occupied_until
            >= 0);
        let reserved_from: Option<i32> = if reserved {
            if arrival < i32::MIN as i64 || arrival > i32::MAX as i64 {
                return None;
            }
            Some(arrival as i32)
        } else {
            None
        };
        RoomData::new(
            record.room_number,
            if record.is_occupied {
                Some(record.occupied_until)
            } else {
                None
            },
            reserved_from,
            if record.needs_cleaning {
                Some(record.cleaning_duration)
            } else {
                None
            },
        )
    }

    /// Reads a room from a JSON object. The arrival of the guest of a
    /// reserved room is drawn: with `rng` where there is one, else without a
    /// seed. For no other room is anything drawn. `None` where the object
    /// holds no record, or where the room that was drawn has a time that is
    /// no `i32` value.
    pub fn from_json(obj: &JsonValue, rng: &mut Option<Xoshiro256PlusPlus>) -> (room: Option<Self>)
        ensures
            reads_as(room, *obj, *old(rng), *final(rng)),
    {
        let record = match read_record(obj) {
            Some(record) => record,
            None => {
                return None;
            },
        };
        if !record.is_reserved {
            return RoomData::from_record(&record, MIN_OFFSET);
        }
        let offset: i32 = match rng {
            None => offset_from(draw_unseeded()),
            Some(generator) => draw_seeded_offset(generator, MIN_OFFSET, OFFSET_END),
        };
        let room = RoomData::from_record(&record, offset);
        assert(is_offset(offset as int));
        assert(room_is(room, record.room(offset as int)));
        room
    }
}

/// What the draw of an offset gives on `generator`: the offset, and the
/// generator as it is afterwards.
pub open spec fn offset_draw(generator: Xoshiro256PlusPlus) -> (i32, Xoshiro256PlusPlus) {
    draw_of(generator, MIN_OFFSET, OFFSET_END)
}

/// Whether `room` is the room `expected`, or both are none.
pub open spec fn room_is(room: Option<RoomData>, expected: Option<RoomView>) -> bool {
    match room {
        Some(r) => expected == Some(r@),
        None => expected is None,
    }
}

/// What reading the object `obj` gives, with the generator `before` the
/// call and `after` it. Only a record that is reserved takes a draw: from
/// the generator where there is one, which then moves on by one draw, else
/// some offset of the range.
pub open spec fn reads_as(
    room: Option<RoomData>,
    obj: JsonValue,
    before: Option<Xoshiro256PlusPlus>,
    after: Option<Xoshiro256PlusPlus>,
) -> bool {
    match record_of(obj) {
        None => room is None && after == before,
        Some(record) => if !record.is_reserved {
            after == before && room_is(room, record.room(MIN_OFFSET as int))
        } else {
            match before {
                Some(generator) => after == Some(offset_draw(generator).1) && is_offset(
                    offset_draw(generator).0 as int,
                ) && room_is(room, record.room(offset_draw(generator).0 as int)),
                None => after is None && exists|offset: i32|
                    is_offset(offset as int) && room_is(
                        room,
                        #[trigger] record.room(offset as int),
                    ),
            }
        },
    }
}

/// Brings any `i32` value into the range of the offsets.
pub fn offset_from(drawn: i32) -> (offset: i32)
    ensures
        is_offset(offset as int),
        offset == MIN_OFFSET + (drawn - i32::MIN) % (OFFSET_END - MIN_OFFSET),
{
    let shifted: i64 = drawn as i64 - i32::MIN as i64;
    let span: i64 = (OFFSET_END - MIN_OFFSET) as i64;
    MIN_OFFSET + (shifted % span) as i32
}

/// Reads the six members of a record.
pub fn read_record(obj: &JsonValue) -> (record: Option<RoomRecord>)
    ensures
        record == record_of(*obj),
{
    let room_number = json_integer(json_member(obj, "roomNumber"));
    let is_occupied = json_as_bool(json_member(obj, "isOccupied"));
    let occupied_until = json_integer(json_member(obj, "occupiedUntil"));
    let is_reserved = json_as_bool(json_member(obj, "isReserved"));
    let needs_cleaning = json_as_bool(json_member(obj, "hasToBeCleaned"));
    let cleaning_duration = json_integer(json_member(obj, "cleaningDuration"));
    match (
        room_number,
        is_occupied,
        occupied_until,
        is_reserved,
        needs_cleaning,
        cleaning_duration,
    ) {
        (
            Some(room_number),
            Some(is_occupied),
            Some(occupied_until),
            Some(is_reserved),
            Some(needs_cleaning),
            Some(cleaning_duration),
        ) => Some(
            RoomRecord {
                room_number,
                is_occupied,
                occupied_until,
                is_reserved,
                needs_cleaning,
                cleaning_duration,
            },
        ),
        _ => None,
    }
}

/// Why the input gives no rooms.
#[derive(Clone, Copy, Debug, PartialEq, Eq, Structural)]
pub enum LoadError {
    /// The input is no array.
    NotAnArray,
    /// The member at `index` holds no record: one of its six members is
    /// missing or of another type.
    InvalidRoomRecord { index: usize },
    /// The member at `index` holds a record, but a time of its room, with
    /// the arrival that was drawn for it, is no `i32` value.
    TimeOutOfRange { index: usize },
}

impl LoadError {
    /// The place of the member that gave no room; -1 where there is none.
    pub open spec fn place(self) -> int {
        match self {
            LoadError::InvalidRoomRecord { index } => index as int,
            LoadError::TimeOutOfRange { index } => index as int,
            LoadError::NotAnArray => -1,
        }
    }
}

/// Whether each of `items` holds a record that, with its offset of
/// `offsets`, gives a room.
pub open spec fn all_load(items: Seq<JsonValue>, offsets: Seq<i32>) -> bool {
    &&& offsets.len() == items.len()
    &&& forall|i: int|
        0 <= i < items.len() ==> is_offset(#[trigger] offsets[i] as int) && (record_of(
            items[i],
        ) matches Some(record) && record.room(offsets[i] as int) is Some)
}

/// The room that `item` gives with `offset`.
pub open spec fn loaded_room(item: JsonValue, offset: i32) -> RoomView {
    record_of(item)->Some_0.room(offset as int)->Some_0
}

/// The rooms that `items` give with `offsets`, those left out that need no
/// cleaning; the others in the order of `items`.
pub open spec fn rooms_to_clean(items: Seq<JsonValue>, offsets: Seq<i32>) -> Seq<RoomView>
    decreases items.len(),
{
    if items.len() == 0 {
        Seq::empty()
    } else {
        let before = rooms_to_clean(items.drop_last(), offsets.drop_last());
        let room = loaded_room(items.last(), offsets.last());
        if room.needs_cleaning() {
            before.push(room)
        } else {
            before
        }
    }
}

/// Whether the seed is one: a seed that is empty counts as none.
pub open spec fn is_seeded(seed: Option<String>) -> bool {
    seed matches Some(text) && text@.len() > 0
}

/// The generator that the text `seed` gives.
pub open spec fn first_generator(seed: Seq<char>) -> Xoshiro256PlusPlus {
    generator_of(seeder_of(seed))
}

/// The offsets that a seeded `generator` gives for `items`, and the
/// generator as it is afterwards. Only an item whose record is reserved
/// takes a draw; the others have the lowest offset, which they do not use.
pub open spec fn seeded_draws(items: Seq<JsonValue>, generator: Xoshiro256PlusPlus) -> (
    Seq<i32>,
    Xoshiro256PlusPlus,
)
    decreases items.len(),
{
    if items.len() == 0 {
        (Seq::empty(), generator)
    } else {
        let before = seeded_draws(items.drop_last(), generator);
        if record_of(items.last()) matches Some(record) && record.is_reserved {
            (before.0.push(offset_draw(before.1).0), offset_draw(before.1).1)
        } else {
            (before.0.push(MIN_OFFSET), before.1)
        }
    }
}

/// The draws for the first `n` items are the first `n` of the draws for all
/// of them.
pub proof fn lemma_seeded_draws_take(items: Seq<JsonValue>, generator: Xoshiro256PlusPlus, n: int)
    requires
        0 <= n <= items.len(),
    ensures
        seeded_draws(items, generator).0.len() == items.len(),
        seeded_draws(items.take(n), generator).0 == seeded_draws(items, generator).0.take(n),
    decreases items.len(),
{
    if n == items.len() {
        assert(items.take(n) =~= items);
        if items.len() > 0 {
            lemma_seeded_draws_take(items.drop_last(), generator, n - 1);
        }
        assert(seeded_draws(items, generator).0.take(n) =~= seeded_draws(items, generator).0);
    } else {
        lemma_seeded_draws_take(items.drop_last(), generator, n);
        assert(items.drop_last().take(n) =~= items.take(n));
        assert(seeded_draws(items, generator).0.take(n) =~= seeded_draws(
            items.drop_last(),
            generator,
        ).0.take(n));
    }
}

/// The error of an item at `index` that gives no room with `offset`: an
/// invalid record where it holds none, else a time out of range.
pub open spec fn failure_of(item: JsonValue, offset: i32, index: usize) -> Option<LoadError> {
    match record_of(item) {
        None => Some(LoadError::InvalidRoomRecord { index }),
        Some(record) => if record.room(offset as int) is None {
            Some(LoadError::TimeOutOfRange { index })
        } else {
            None
        },
    }
}

/// Whether `result` is what `items` give with `offsets`: the rooms to
/// clean where every item gives a room, else the error of the first item
/// that gives none.
pub open spec fn loaded_with(
    result: Result<Vec<RoomData>, LoadError>,
    items: Seq<JsonValue>,
    offsets: Seq<i32>,
) -> bool {
    offsets.len() == items.len() && match result {
        Ok(rooms) => all_load(items, offsets) && room_views(rooms@) == rooms_to_clean(
            items,
            offsets,
        ),
        Err(error) => 0 <= error.place() < items.len() && all_load(
            items.take(error.place()),
            offsets.take(error.place()),
        ) && is_offset(offsets[error.place()] as int) && failure_of(
            items[error.place()],
            offsets[error.place()],
            error.place() as usize,
        ) == Some(error),
    }
}

/// Whether `result` is a loading of `json` under `seed`. With a seed the
/// offsets are those that its generator gives, one after the other; without
/// one they are some offsets of the range.
pub open spec fn is_loading_of(
    result: Result<Vec<RoomData>, LoadError>,
    json: JsonValue,
    seed: Option<String>,
) -> bool {
    if items_of(json) is None {
        result == Err::<Vec<RoomData>, LoadError>(LoadError::NotAnArray)
    } else if is_seeded(seed) {
        loaded_with(
            result,
            items_of(json)->Some_0,
            seeded_draws(items_of(json)->Some_0, first_generator(seed->Some_0@)).0,
        )
    } else {
        exists|offsets: Seq<i32>| #[trigger] loaded_with(result, items_of(json)->Some_0, offsets)
    }
}

/// Reads the rooms of a JSON array, and keeps those that need cleaning. The
/// arrivals of the guests are drawn from a generator that is seeded with
/// `seed`, or without a seed where `seed` is `None` or empty.
pub fn handle_json_data(json: JsonValue, seed: &Option<String>) -> (result: Result<
    Vec<RoomData>,
    LoadError,
>)
    ensures
        is_loading_of(result, json, *seed),
        result matches Ok(rooms) ==> forall|i: int|
            0 <= i < rooms.len() ==> (#[trigger] rooms[i]@).needs_cleaning()
                && !rooms[i]@.cleaning_completed,
{
    let items = match json_items(json) {
        Some(items) => items,
        None => {
            return Err(LoadError::NotAnArray);
        },
    };
    let mut rng: Option<Xoshiro256PlusPlus> = match seed {
        None => None,
        Some(s) => if s.as_str().is_empty() {
            None
        } else {
            let mut seeder = seeder_from(s.as_str());
            Some(make_generator(&mut seeder))
        },
    };
    let ghost seeded = is_seeded(*seed);
    let ghost start = if seeded {
        first_generator(seed->Some_0@)
    } else {
        arbitrary()
    };
    let mut rooms: Vec<RoomData> = Vec::new();
    let ghost mut offsets: Seq<i32> = Seq::empty();
    let mut i: usize = 0;
    while i < items.len()
        invariant
            i <= items.len(),
            items_of(json) == Some(items@),
            seeded == is_seeded(*seed),
            seeded ==> start == first_generator(seed->Some_0@),
            seeded ==> rng == Some(seeded_draws(items@.take(i as int), start).1) && offsets
                == seeded_draws(items@.take(i as int), start).0,
            !seeded ==> rng is None,
            all_load(items@.take(i as int), offsets),
            room_views(rooms@) == rooms_to_clean(items@.take(i as int), offsets),
            forall|k: int|
                0 <= k < rooms.len() ==> (#[trigger] rooms[k]@).needs_cleaning()
                    && !rooms[k]@.cleaning_completed,
        decreases items.len() - i,
    {
        let ghost known = items@.take(i as int);
        let ghost next = items@.take(i + 1);
        let ghost before = rng;
        let read = RoomData::from_json(&items[i], &mut rng);
        // The offset that this item was read with.
        let ghost offset: i32 = match record_of(items@[i as int]) {
            Some(record) => if !record.is_reserved {
                MIN_OFFSET
            } else if seeded {
                offset_draw(before->Some_0).0
            } else {
                choose|offset: i32|
                    is_offset(offset as int) && room_is(read, #[trigger] record.room(offset as int))
            },
            None => MIN_OFFSET,
        };
        proof {
            assert(next.drop_last() =~= known);
            assert(next.last() == items@[i as int]);
            assert(is_offset(offset as int));
            assert(seeded ==> seeded_draws(next, start).0 == offsets.push(offset) && rng == Some(
                seeded_draws(next, start).1,
            ));
        }
        let room = match read {
            Some(room) => room,
            None => {
                proof {
                    let all = if seeded {
                        seeded_draws(items@, start).0
                    } else {
                        Seq::new(
                            items@.len(),
                            |k: int|
                                if k < i {
                                    offsets[k]
                                } else {
                                    offset
                                },
                        )
                    };
                    if seeded {
                        lemma_seeded_draws_take(items@, start, i as int);
                        lemma_seeded_draws_take(items@, start, i + 1);
                        assert(all.take(i + 1)[i as int] == all[i as int]);
                    }
                    assert(all.take(i as int) =~= offsets);
                    assert(all[i as int] == offset);
                    assert(items@.take(i as int) == known);
                    let failed = Err::<Vec<RoomData>, LoadError>(
                        failure_of(items@[i as int], offset, i)->Some_0,
                    );
                    assert(loaded_with(failed, items@, all));
                    assert(items_of(json)->Some_0 == items@);
                    assert(!is_seeded(*seed) ==> exists|offsets: Seq<i32>| #[trigger]
                        loaded_with(failed, items_of(json)->Some_0, offsets));
                }
                // A member without a record is invalid; a record whose room
                // has a time out of range is another matter.
                if read_record(&items[i]).is_none() {
                    return Err(LoadError::InvalidRoomRecord { index: i });
                }
                return Err(LoadError::TimeOutOfRange { index: i });
            },
        };
        proof {
            let longer = offsets.push(offset);
            assert(longer.drop_last() =~= offsets);
            assert(loaded_room(next.last(), longer.last()) == room@);
            assert forall|k: int| 0 <= k < next.len() implies is_offset(#[trigger] longer[k] as int)
                && (record_of(next[k]) matches Some(record) && record.room(longer[k] as int)
                is Some) by {
                if k < i {
                    assert(known[k] == next[k]);
                    assert(is_offset(offsets[k] as int));
                }
            }
            assert(room_views(rooms@.push(room)) =~= room_views(rooms@).push(room@));
            offsets = longer;
        }
        let needs_cleaning: bool = match room.cleaning_duration() {
            Some(d) => d > 0,
            None => false,
        };
        if needs_cleaning {
            rooms.push(room);
        }
        i += 1;
    }
    proof {
        assert(items@.take(items.len() as int) =~= items@);
        if seeded {
            lemma_seeded_draws_take(items@, start, items.len() as int);
        }
        let loaded = Ok::<Vec<RoomData>, LoadError>(rooms);
        assert(loaded_with(loaded, items@, offsets));
        assert(items_of(json)->Some_0 == items@);
        assert(!is_seeded(*seed) ==> exists|offsets: Seq<i32>| #[trigger]
            loaded_with(loaded, items_of(json)->Some_0, offsets));
    }
    Ok(rooms)
}

/// With a seed the loading is a function of the input and the seed: two
/// loadings of the same input under the same seed give the same rooms, or
/// fail at the same place for the same reason.
pub proof fn law_same_seed_same_rooms(
    first: Result<Vec<RoomData>, LoadError>,
    second: Result<Vec<RoomData>, LoadError>,
    json: JsonValue,
    seed: Option<String>,
)
    requires
        is_seeded(seed),
        is_loading_of(first, json, seed),
        is_loading_of(second, json, seed),
    ensures
        match (first, second) {
            (Ok(a), Ok(b)) => room_views(a@) == room_views(b@),
            (Err(x), Err(y)) => x == y,
            _ => false,
        },
{
    if let Some(items) = items_of(json) {
        let offsets = seeded_draws(items, first_generator(seed->Some_0@)).0;
        lemma_first_failure(first, second, items, offsets);
        lemma_first_failure(second, first, items, offsets);
    }
}

/// Two loadings with the same offsets do not differ: where one fails, the
/// other fails too, and no later.
proof fn lemma_first_failure(
    one: Result<Vec<RoomData>, LoadError>,
    other: Result<Vec<RoomData>, LoadError>,
    items: Seq<JsonValue>,
    offsets: Seq<i32>,
)
    requires
        loaded_with(one, items, offsets),
        loaded_with(other, items, offsets),
    ensures
        one matches Err(error) ==> (other matches Err(earlier) && earlier.place()
            <= error.place()),
        one is Err && other is Err && one->Err_0.place() == other->Err_0.place() ==> one->Err_0
            == other->Err_0,
{
    if let Err(error) = one {
        let index = error.place();
        match other {
            Ok(_) => {
                assert(is_offset(offsets[index] as int));
            },
            Err(earlier) => {
                let at = earlier.place();
                if at > index {
                    assert(items.take(at)[index] == items[index]);
                    assert(offsets.take(at)[index] == offsets[index]);
                    assert(is_offset(offsets.take(at)[index] as int));
                }
            },
        }
    }
}

} // verus!
