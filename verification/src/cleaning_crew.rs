//! A cleaning crew and the order in which crews are handed work.

use std::cmp::Ordering;
use vstd::prelude::*;

verus! {

/// A crew, known by its id, and the time at which it is next free.
#[derive(PartialEq, Eq, Structural, Clone, Copy, Debug)]
pub struct CleaningCrew {
    id: i32,
    occupied_until: i32,
}

/// What a crew is in contracts: its id and the time at which it is free.
pub struct CrewView {
    pub id: int,
    pub occupied_until: int,
}

impl CrewView {
    /// The pool's priority: the crew that is free earlier goes first, and of
    /// two crews free at the same time the one with the lower id.
    pub open spec fn precedes(self, other: CrewView) -> bool {
        self.occupied_until < other.occupied_until || (self.occupied_until == other.occupied_until
            && self.id <= other.id)
    }
}

impl View for CleaningCrew {
    type V = CrewView;

    closed spec fn view(&self) -> CrewView {
        CrewView { id: self.id as int, occupied_until: self.occupied_until as int }
    }
}

impl CleaningCrew {
    /// A crew that is free from time 0 on.
    pub fn new(id: i32) -> (crew: Self)
        ensures
            crew@ == (CrewView { id: id as int, occupied_until: 0 }),
    {
        CleaningCrew { id: id, occupied_until: 0 }
    }

    /// The same crew, busy until `cleaning_end`.
    pub fn clean_until(&self, cleaning_end: i32) -> (crew: Self)
        ensures
            crew@ == (CrewView { id: self@.id, occupied_until: cleaning_end as int }),
    {
        CleaningCrew { id: self.id, occupied_until: cleaning_end }
    }

    pub fn occupied_until(&self) -> (t: i32)
        ensures
            t == self@.occupied_until,
    {
        self.occupied_until
    }

    pub fn id(&self) -> (id: i32)
        ensures
            id == self@.id,
    {
        self.id
    }

    /// Whether this crew is handed work before `other`.
    pub fn precedes(&self, other: &CleaningCrew) -> (b: bool)
        ensures
            b == self@.precedes(other@),
    {
        self.occupied_until < other.occupied_until || (self.occupied_until == other.occupied_until
            && self.id <= other.id)
    }
}

/// The order of the crews for a structure that hands out its greatest item
/// first: the crew that is handed work first is the greatest.
impl PartialOrd for CleaningCrew {
    fn partial_cmp(&self, other: &Self) -> (order: Option<Ordering>) {
        if self.occupied_until < other.occupied_until {
            Some(Ordering::Greater)
        } else if self.occupied_until > other.occupied_until {
            Some(Ordering::Less)
        } else if self.id < other.id {
            Some(Ordering::Greater)
        } else if self.id > other.id {
            Some(Ordering::Less)
        } else {
            Some(Ordering::Equal)
        }
    }
}

impl vstd::std_specs::cmp::PartialOrdSpecImpl for CleaningCrew {
    open spec fn obeys_partial_cmp_spec() -> bool {
        true
    }

    open spec fn partial_cmp_spec(&self, other: &Self) -> Option<Ordering> {
        if self@ == other@ {
            Some(Ordering::Equal)
        } else if self@.precedes(other@) {
            Some(Ordering::Greater)
        } else {
            Some(Ordering::Less)
        }
    }
}

} // verus!
