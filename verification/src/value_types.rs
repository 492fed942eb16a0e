use vstd::prelude::*;

verus! {

/// A contestant's starting Elo rating.
#[derive(Clone, Copy, Debug, PartialEq, Eq, PartialOrd, Ord, Hash, Structural)]
pub struct EloRating(pub u32);

impl EloRating {
    pub fn new(value: u32) -> (rating: Self)
        ensures
            rating.0 == value,
    {
        EloRating(value)
    }

    pub fn value(self) -> (value: u32)
        ensures
            value == self.0,
    {
        self.0
    }
}

} // verus!
