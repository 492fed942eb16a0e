//! Physical table numbers.
use vstd::prelude::*;

verus! {

/// A table number, counted from one.
#[derive(Clone, Copy, Debug, PartialEq, Eq, PartialOrd, Ord, Hash, Structural)]
pub struct TableNumber(u16);

impl TableNumber {
    pub closed spec fn spec_value(self) -> u16 {
        self.0
    }

    /// The table `number` when it lies within the `table_count` tables of the
    /// venue, counted from one.
    pub fn within_configured_count(number: u16, table_count: u16) -> (table: Option<Self>)
        ensures
            table is Some <==> 1 <= number <= table_count,
            table matches Some(t) ==> t.spec_value() == number,
    {
        if number >= 1 && number <= table_count {
            Some(TableNumber(number))
        } else {
            None
        }
    }

    pub fn value(self) -> (value: u16)
        ensures
            value == self.spec_value(),
    {
        self.0
    }
}

} // verus!
