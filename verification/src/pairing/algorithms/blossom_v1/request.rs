use vstd::prelude::*;

pub use crate::identity::ClubId;
use crate::identity::EntrantId;
use crate::value_types::EloRating;

use super::BlossomV1Policy;

verus! {

/// A round of the tournament, counted from one.
#[derive(Clone, Copy, Debug, PartialEq, Eq, PartialOrd, Ord, Hash)]
pub struct RoundNumber(u16);

impl RoundNumber {
    #[verifier::type_invariant]
    spec fn positive(self) -> bool {
        self.0 >= 1
    }

    pub closed spec fn spec_value(self) -> u16 {
        self.0
    }

    pub fn value(self) -> (value: u16)
        ensures
            value == self.spec_value(),
            value >= 1,
    {
        proof {
            use_type_invariant(&self);
        }
        self.0
    }

    /// The round `value`, refused unless it lies between one and 65535.
    pub fn try_from(value: i64) -> (round: Result<Self, RoundNumberError>)
        ensures
            round is Ok <==> 1 <= value <= u16::MAX,
            round matches Ok(r) ==> r.spec_value() == value,
    {
        if value >= 1 && value <= 65535 {
            Ok(RoundNumber(value as u16))
        } else {
            Err(RoundNumberError)
        }
    }
}

#[derive(Clone, Copy, Debug, PartialEq, Eq, Hash)]
pub struct RoundNumberError;

/// Integer representation supplied by the application scoring layer.
#[derive(Clone, Copy, Debug, PartialEq, Eq, PartialOrd, Ord, Hash, Structural)]
pub struct PerformanceScore(i64);

impl PerformanceScore {
    pub closed spec fn spec_scaled(self) -> i64 {
        self.0
    }

    pub fn from_scaled(value: i64) -> (score: Self)
        ensures
            score.spec_scaled() == value,
    {
        PerformanceScore(value)
    }

    pub fn scaled_value(self) -> (value: i64)
        ensures
            value == self.spec_scaled(),
    {
        self.0
    }

    pub fn zero() -> (score: Self)
        ensures
            score.spec_scaled() == 0,
    {
        PerformanceScore(0)
    }
}

#[derive(Clone, Debug, PartialEq, Eq)]
pub struct PairingRequest {
    pub round_number: RoundNumber,
    pub entrants: Vec<PairingEntrant>,
    pub previous_matches: Vec<PreviousMatch>,
    pub policy: BlossomV1Policy,
}

#[derive(Clone, Debug, PartialEq, Eq)]
pub struct PairingEntrant {
    pub entrant_id: EntrantId,
    pub club_id: ClubId,
    pub starting_elo: EloRating,
    pub performance_score: PerformanceScore,
    pub matches_won: u16,
    pub opponent_score_sum: PerformanceScore,
    pub bye_count: u16,
}

#[derive(Clone, Debug, PartialEq, Eq)]
pub struct PreviousMatch {
    pub first_entrant_id: EntrantId,
    pub second_entrant_id: EntrantId,
    pub round_number: RoundNumber,
}

impl PairingEntrant {
    /// A copy with the same contents.
    pub fn duplicate(&self) -> (copy: Self)
        ensures
            copy.entrant_id@ == self.entrant_id@,
            copy.club_id@ == self.club_id@,
            copy.starting_elo == self.starting_elo,
            copy.performance_score == self.performance_score,
            copy.matches_won == self.matches_won,
            copy.opponent_score_sum == self.opponent_score_sum,
            copy.bye_count == self.bye_count,
    {
        PairingEntrant {
            entrant_id: self.entrant_id.duplicate(),
            club_id: self.club_id.duplicate(),
            starting_elo: self.starting_elo,
            performance_score: self.performance_score,
            matches_won: self.matches_won,
            opponent_score_sum: self.opponent_score_sum,
            bye_count: self.bye_count,
        }
    }
}

impl PreviousMatch {
    /// A copy with the same contents.
    pub fn duplicate(&self) -> (copy: Self)
        ensures
            copy.first_entrant_id@ == self.first_entrant_id@,
            copy.second_entrant_id@ == self.second_entrant_id@,
            copy.round_number == self.round_number,
    {
        PreviousMatch {
            first_entrant_id: self.first_entrant_id.duplicate(),
            second_entrant_id: self.second_entrant_id.duplicate(),
            round_number: self.round_number,
        }
    }
}

} // verus!
