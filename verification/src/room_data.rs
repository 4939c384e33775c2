//! A room to be cleaned: when it is vacated, when the next guest arrives and
//! how long cleaning takes.

use vstd::prelude::*;

verus! {

/// The occupancy value that stands for a room that is never vacated.
pub const OCCUPIED_INDEFINITELY: i32 = -1;

/// A room as contracts see it.
pub struct RoomView {
    pub room_number: i32,
    /// `None`: vacant now; `Some(-1)`: never vacated; otherwise the time at
    /// which the occupant leaves.
    pub occupied_until: Option<i32>,
    /// The time at which the next guest arrives, if the room is reserved.
    pub reserved_from: Option<i32>,
    /// How long cleaning takes; `None` where nothing is to be cleaned.
    pub cleaning_duration: Option<i32>,
    pub cleaning_completed: bool,
}

impl RoomView {
    /// The time from which the room can be cleaned: 0 for a vacant room.
    pub open spec fn vacant_from(self) -> int {
        match self.occupied_until {
            Some(t) => t as int,
            None => 0,
        }
    }

    /// The cleaning time that counts: 0 where nothing is to be cleaned.
    pub open spec fn duration(self) -> int {
        match self.cleaning_duration {
            Some(d) => d as int,
            None => 0,
        }
    }

    /// The earliest time at which cleaning could be over.
    pub open spec fn cleaning_end(self) -> int {
        self.vacant_from() + self.duration()
    }

    /// The latest time at which cleaning can start without making the next
    /// guest wait; `None` where there is no such deadline.
    pub open spec fn latest_cleaning_start(self) -> Option<int> {
        match (self.cleaning_duration, self.reserved_from) {
            (Some(d), Some(r)) => Some(r - d),
            _ => None,
        }
    }

    pub open spec fn is_reserved(self) -> bool {
        self.reserved_from is Some
    }

    pub open spec fn is_indefinitely_occupied(self) -> bool {
        self.occupied_until == Some(OCCUPIED_INDEFINITELY)
    }

    /// Whether there is anything to clean: a duration above 0.
    pub open spec fn needs_cleaning(self) -> bool {
        self.cleaning_duration matches Some(d) && d > 0
    }

    /// Whether the room is vacant at time `t`.
    pub open spec fn free_at(self, t: int) -> bool {
        self.vacant_from() <= t
    }

    /// The time at which a cleaning that may start at `earliest_start` is
    /// over. A room with nothing to clean takes no time at all.
    pub open spec fn completion(self, earliest_start: int) -> int {
        if self.duration() == 0 {
            earliest_start
        } else if self.vacant_from() > earliest_start {
            self.vacant_from() + self.duration()
        } else {
            earliest_start + self.duration()
        }
    }

    /// Whether a cleaning that is over at `completion` makes the guest wait.
    /// A room that is not reserved is never late.
    pub open spec fn late_at(self, completion: int) -> bool {
        self.reserved_from matches Some(r) && completion > r
    }

    /// The same room, cleaned.
    pub open spec fn cleaned(self) -> RoomView {
        RoomView { cleaning_completed: true, ..self }
    }

    /// Both derived times are `i32` values.
    pub open spec fn in_range(self) -> bool {
        &&& i32::MIN <= self.cleaning_end() <= i32::MAX
        &&& self.latest_cleaning_start() matches Some(l) ==> i32::MIN <= l <= i32::MAX
    }
}

#[derive(Clone, Copy, Debug)]
pub struct RoomData {
    room_number: i32,
    occupied_until: Option<i32>,
    reserved_from: Option<i32>,
    cleaning_duration: Option<i32>,
    cleaning_completed: bool,
}

impl View for RoomData {
    type V = RoomView;

    closed spec fn view(&self) -> RoomView {
        RoomView {
            room_number: self.room_number,
            occupied_until: self.occupied_until,
            reserved_from: self.reserved_from,
            cleaning_duration: self.cleaning_duration,
            cleaning_completed: self.cleaning_completed,
        }
    }
}

impl RoomData {
    /// Holds of every room that exists: its derived times are `i32` values.
    #[verifier::type_invariant]
    pub open spec fn derived_times_in_range(&self) -> bool {
        self@.in_range()
    }

    /// A room that has not been cleaned, or `None` where one of its derived
    /// times is no `i32` value.
    pub fn new(
        room_number: i32,
        occupied_until: Option<i32>,
        reserved_from: Option<i32>,
        cleaning_duration: Option<i32>,
    ) -> (room: Option<Self>)
        ensures
            ({
                let v = RoomView {
                    room_number,
                    occupied_until,
                    reserved_from,
                    cleaning_duration,
                    cleaning_completed: false,
                };
                match room {
                    Some(r) => r@ == v && v.in_range(),
                    None => !v.in_range(),
                }
            }),
    {
        let vacant: i64 = match occupied_until {
            Some(t) => t as i64,
            None => 0,
        };
        let duration: i64 = match cleaning_duration {
            Some(d) => d as i64,
            None => 0,
        };
        let end: i64 = vacant + duration;
        if end < i32::MIN as i64 || end > i32::MAX as i64 {
            return None;
        }
        if let (Some(d), Some(r)) = (cleaning_duration, reserved_from) {
            let start: i64 = r as i64 - d as i64;
            if start < i32::MIN as i64 || start > i32::MAX as i64 {
                return None;
            }
        }
        Some(
            RoomData {
                room_number,
                occupied_until,
                reserved_from,
                cleaning_duration,
                cleaning_completed: false,
            },
        )
    }

    pub fn room_number(&self) -> (n: i32)
        ensures
            n == self@.room_number,
    {
        self.room_number
    }

    pub fn occupied_until(&self) -> (t: Option<i32>)
        ensures
            t == self@.occupied_until,
    {
        self.occupied_until
    }

    pub fn cleaning_duration(&self) -> (d: Option<i32>)
        ensures
            d == self@.cleaning_duration,
    {
        self.cleaning_duration
    }

    pub fn reserved_from(&self) -> (t: Option<i32>)
        ensures
            t == self@.reserved_from,
    {
        self.reserved_from
    }

    pub fn cleaning_completed(&self) -> (b: bool)
        ensures
            b == self@.cleaning_completed,
    {
        self.cleaning_completed
    }

    pub fn cleaning_end(&self) -> (t: i32)
        ensures
            t == self@.cleaning_end(),
            self@.in_range(),
    {
        proof {
            use_type_invariant(self);
        }
        let vacant: i32 = match self.occupied_until {
            Some(t) => t,
            None => 0,
        };
        let duration: i32 = match self.cleaning_duration {
            Some(d) => d,
            None => 0,
        };
        vacant + duration
    }

    /// The deadline for the start of cleaning, `i32::MAX` where there is none.
    pub fn latest_cleaning_start(&self) -> (t: i32)
        ensures
            t == match self@.latest_cleaning_start() {
                Some(l) => l,
                None => i32::MAX as int,
            },
            self@.in_range(),
    {
        proof {
            use_type_invariant(self);
        }
        match (self.cleaning_duration, self.reserved_from) {
            (None, _) => i32::MAX,
            (_, None) => i32::MAX,
            (Some(cleaning_duration), Some(reserved_from)) => reserved_from - cleaning_duration,
        }
    }

    /// Cleans the room, starting no earlier than `earliest_start`, and
    /// returns the time at which the cleaning is over.
    pub fn clean(&mut self, earliest_start: i32) -> (end: i32)
        requires
            i32::MIN <= old(self)@.completion(earliest_start as int) <= i32::MAX,
        ensures
            final(self)@ == old(self)@.cleaned(),
            end == old(self)@.completion(earliest_start as int),
    {
        proof {
            use_type_invariant(&*self);
        }
        self.cleaning_completed = true;
        let duration: i32 = match self.cleaning_duration {
            Some(d) => d,
            None => 0,
        };
        if duration == 0 {
            return earliest_start;
        }
        let vacant: i32 = match self.occupied_until {
            Some(t) => t,
            None => 0,
        };
        let start: i32 = if vacant > earliest_start {
            vacant
        } else {
            earliest_start
        };
        start + duration
    }
}

} // verus!
