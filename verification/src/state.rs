//! The requested and the recorded order of an `EnhVec`.
use vstd::prelude::*;

verus! {

/// The expected sorting state of an [EnhVec](crate::EnhVec).
#[derive(Debug, Clone, Copy, PartialEq, Eq, Structural)]
pub enum Sorting {
    NoOrder,
    Ascending,
    Descending,
}

impl Default for Sorting {
    fn default() -> (r: Self)
        ensures
            r == Sorting::NoOrder,
    {
        Sorting::NoOrder
    }
}

/// The current (internal) sorting state of the stored elements.
#[derive(Debug, Clone, Copy, PartialEq, Eq, Structural)]
pub enum SortState {
    Unsorted,
    Asc,
    Desc,
    /// Changed: could be sorted or not, depending on what happened.
    Changed,
}

impl SortState {
    /// The order this state vouches for: `NoOrder` when it vouches for none.
    pub open spec fn known(self) -> Sorting {
        match self {
            SortState::Asc => Sorting::Ascending,
            SortState::Desc => Sorting::Descending,
            _ => Sorting::NoOrder,
        }
    }

    pub fn is_sorted(&self) -> (r: bool)
        ensures
            r == (self.known() != Sorting::NoOrder),
    {
        match self {
            SortState::Asc | SortState::Desc => true,
            _ => false,
        }
    }

    pub fn is_unsorted(&self) -> (r: bool)
        ensures
            r == (self.known() == Sorting::NoOrder),
    {
        match self {
            SortState::Unsorted | SortState::Changed => true,
            _ => false,
        }
    }

    /// Swap an ascending state for a descending one and back; leave other states alone.
    pub fn reverse(&mut self)
        ensures
            *final(self) == match *old(self) {
                SortState::Asc => SortState::Desc,
                SortState::Desc => SortState::Asc,
                other => other,
            },
    {
        match self {
            SortState::Asc => *self = SortState::Desc,
            SortState::Desc => *self = SortState::Asc,
            _ => {},
        }
    }
}

/// The state that a sort towards `sorting` leaves behind.
pub open spec fn state_after_sort(sorting: Sorting) -> SortState {
    match sorting {
        Sorting::Ascending => SortState::Asc,
        Sorting::Descending => SortState::Desc,
        Sorting::NoOrder => SortState::Unsorted,
    }
}

} // verus!
