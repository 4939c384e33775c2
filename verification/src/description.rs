//! A room in words.

use crate::room_data::{RoomData, RoomView, OCCUPIED_INDEFINITELY};
use vstd::prelude::*;
use vstd::string::StringExecFns;

verus! {

/// The character of the digit `d`.
pub open spec fn digit(d: int) -> char {
    if d == 0 {
        '0'
    } else if d == 1 {
        '1'
    } else if d == 2 {
        '2'
    } else if d == 3 {
        '3'
    } else if d == 4 {
        '4'
    } else if d == 5 {
        '5'
    } else if d == 6 {
        '6'
    } else if d == 7 {
        '7'
    } else if d == 8 {
        '8'
    } else {
        '9'
    }
}

/// The digits of `n` to the base ten, without leading zeros.
pub open spec fn digits(n: nat) -> Seq<char>
    decreases n,
{
    if n < 10 {
        seq![digit(n as int)]
    } else {
        digits(n / 10).push(digit((n % 10) as int))
    }
}

/// `n` to the base ten, with a minus sign where it is negative.
pub open spec fn decimal(n: int) -> Seq<char> {
    if n < 0 {
        seq!['-'] + digits((-n) as nat)
    } else {
        digits(n as nat)
    }
}

fn digit_text(d: u32) -> (text: &'static str)
    requires
        d < 10,
    ensures
        text@ == seq![digit(d as int)],
{
    proof {
        reveal_strlit("0");
        reveal_strlit("1");
        reveal_strlit("2");
        reveal_strlit("3");
        reveal_strlit("4");
        reveal_strlit("5");
        reveal_strlit("6");
        reveal_strlit("7");
        reveal_strlit("8");
        reveal_strlit("9");
    }
    let text: &'static str = if d == 0 {
        "0"
    } else if d == 1 {
        "1"
    } else if d == 2 {
        "2"
    } else if d == 3 {
        "3"
    } else if d == 4 {
        "4"
    } else if d == 5 {
        "5"
    } else if d == 6 {
        "6"
    } else if d == 7 {
        "7"
    } else if d == 8 {
        "8"
    } else {
        "9"
    };
    assert(text@ =~= seq![digit(d as int)]);
    text
}

fn digits_text(n: u32) -> (text: String)
    ensures
        text@ == digits(n as nat),
    decreases n,
{
    if n < 10 {
        String::from_str(digit_text(n))
    } else {
        let mut text = digits_text(n / 10);
        text.append(digit_text(n % 10));
        assert(text@ =~= digits(n as nat));
        text
    }
}

/// `n` to the base ten.
pub fn decimal_text(n: i32) -> (text: String)
    ensures
        text@ == decimal(n as int),
{
    if n < 0 {
        proof {
            reveal_strlit("-");
        }
        let mut text = String::from_str("-");
        let magnitude: u32 = (-(n as i64)) as u32;
        let digits = digits_text(magnitude);
        text.append(digits.as_str());
        assert(text@ =~= decimal(n as int));
        text
    } else {
        digits_text(n as u32)
    }
}

impl RoomView {
    /// When the room is vacated, in words.
    pub open spec fn occupancy_text(self) -> Seq<char> {
        match self.occupied_until {
            None => "unoccupied"@,
            Some(t) => if t == OCCUPIED_INDEFINITELY {
                "occupied indefinitely"@
            } else {
                "occupied until "@ + decimal(t as int)
            },
        }
    }

    /// When the next guest arrives, in words. An arrival at time 0 reads as
    /// a reservation without a time.
    pub open spec fn reservation_text(self) -> Seq<char> {
        match self.reserved_from {
            None => "unreserved"@,
            Some(t) => if t == 0 {
                "reserved"@
            } else {
                "reserved from "@ + decimal(t as int)
            },
        }
    }

    /// How long cleaning takes, in words.
    pub open spec fn cleaning_text(self) -> Seq<char> {
        match self.cleaning_duration {
            None => "clean"@,
            Some(d) => "requires cleaning for "@ + decimal(d as int) + " ticks"@,
        }
    }

    /// The room in words: its number behind `#`, then its occupancy, its
    /// reservation and its cleaning, with one blank between them.
    pub open spec fn description(self) -> Seq<char> {
        "#"@ + decimal(self.room_number as int) + " "@ + self.occupancy_text() + " "@
            + self.reservation_text() + " "@ + self.cleaning_text()
    }
}

impl RoomData {
    /// The room in words.
    pub fn describe(&self) -> (text: String)
        ensures
            text@ == self@.description(),
    {
        let mut text = String::from_str("#");
        text.append(decimal_text(self.room_number()).as_str());
        text.append(" ");
        match self.occupied_until() {
            None => {
                text.append("unoccupied");
            },
            Some(t) => {
                if t == OCCUPIED_INDEFINITELY {
                    text.append("occupied indefinitely");
                } else {
                    text.append("occupied until ");
                    text.append(decimal_text(t).as_str());
                }
            },
        }
        text.append(" ");
        match self.reserved_from() {
            None => {
                text.append("unreserved");
            },
            Some(t) => {
                if t == 0 {
                    text.append("reserved");
                } else {
                    text.append("reserved from ");
                    text.append(decimal_text(t).as_str());
                }
            },
        }
        text.append(" ");
        match self.cleaning_duration() {
            None => {
                text.append("clean");
            },
            Some(d) => {
                text.append("requires cleaning for ");
                text.append(decimal_text(d).as_str());
                text.append(" ticks");
            },
        }
        assert(text@ =~= self@.description());
        text
    }
}

} // verus!
