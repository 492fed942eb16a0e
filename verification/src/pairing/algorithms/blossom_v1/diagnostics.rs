use vstd::prelude::*;

use crate::identity::EntrantId;

verus! {

#[derive(Clone, Copy, Debug, PartialEq, Eq, Hash, Structural)]
pub enum RelaxationTier {
    Strict,
    SameClubAllowed,
    RematchesAllowed,
}

impl RelaxationTier {
    /// The tiers in the order in which they are tried.
    pub const ORDERED: [RelaxationTier; 3] = [
        RelaxationTier::Strict,
        RelaxationTier::SameClubAllowed,
        RelaxationTier::RematchesAllowed,
    ];

    pub open spec fn spec_allows_same_club(self) -> bool {
        !(self is Strict)
    }

    pub open spec fn spec_allows_rematches(self) -> bool {
        self is RematchesAllowed
    }

    pub fn allows_same_club(self) -> (allowed: bool)
        ensures
            allowed == self.spec_allows_same_club(),
    {
        !matches!(self, RelaxationTier::Strict)
    }

    pub fn allows_rematches(self) -> (allowed: bool)
        ensures
            allowed == self.spec_allows_rematches(),
    {
        matches!(self, RelaxationTier::RematchesAllowed)
    }

    /// The tier at `position` in the relaxation order.
    pub open spec fn spec_at(position: int) -> RelaxationTier {
        if position == 0 {
            RelaxationTier::Strict
        } else if position == 1 {
            RelaxationTier::SameClubAllowed
        } else {
            RelaxationTier::RematchesAllowed
        }
    }

    pub fn at(position: usize) -> (tier: RelaxationTier)
        requires
            position < 3,
        ensures
            tier == Self::spec_at(position as int),
    {
        if position == 0 {
            RelaxationTier::Strict
        } else if position == 1 {
            RelaxationTier::SameClubAllowed
        } else {
            RelaxationTier::RematchesAllowed
        }
    }
}

#[derive(Clone, Debug, PartialEq, Eq)]
pub enum PairingWarning {
    SameClubPairingRequired { first_entrant_id: EntrantId, second_entrant_id: EntrantId },
    RematchRequired { first_entrant_id: EntrantId, second_entrant_id: EntrantId },
    ByeAssigned { entrant_id: EntrantId },
    RelaxedPairingRequired { tier: RelaxationTier },
}

/// Edge counts and timings of one candidate graph. Timings are wall-clock
/// microseconds and carry no meaning for the pairing itself.
#[derive(Clone, Copy, Debug, Default, PartialEq, Eq, Hash, Structural)]
pub struct PairingDiagnostics {
    pub candidate_pair_count: usize,
    pub eligible_edge_count: usize,
    pub rejected_same_club_edges: usize,
    pub rejected_rematch_edges: usize,
    pub edge_generation_microseconds: u128,
    pub cost_calculation_microseconds: u128,
    pub solver_microseconds: u128,
    pub validation_microseconds: u128,
}


impl PairingWarning {
    /// A copy with the same contents.
    pub fn duplicate(&self) -> (copy: Self)
        ensures
            match (copy, *self) {
                (
                    PairingWarning::SameClubPairingRequired { first_entrant_id: a, second_entrant_id: b },
                    PairingWarning::SameClubPairingRequired { first_entrant_id: c, second_entrant_id: d },
                ) => a@ == c@ && b@ == d@,
                (
                    PairingWarning::RematchRequired { first_entrant_id: a, second_entrant_id: b },
                    PairingWarning::RematchRequired { first_entrant_id: c, second_entrant_id: d },
                ) => a@ == c@ && b@ == d@,
                (PairingWarning::ByeAssigned { entrant_id: a }, PairingWarning::ByeAssigned { entrant_id: c }) => a@
                    == c@,
                (PairingWarning::RelaxedPairingRequired { tier: a }, PairingWarning::RelaxedPairingRequired {
                    tier: c,
                }) => a == c,
                _ => false,
            },
    {
        match self {
            PairingWarning::SameClubPairingRequired { first_entrant_id, second_entrant_id } => {
                PairingWarning::SameClubPairingRequired {
                    first_entrant_id: first_entrant_id.duplicate(),
                    second_entrant_id: second_entrant_id.duplicate(),
                }
            },
            PairingWarning::RematchRequired { first_entrant_id, second_entrant_id } => PairingWarning::RematchRequired {
                first_entrant_id: first_entrant_id.duplicate(),
                second_entrant_id: second_entrant_id.duplicate(),
            },
            PairingWarning::ByeAssigned { entrant_id } => PairingWarning::ByeAssigned {
                entrant_id: entrant_id.duplicate(),
            },
            PairingWarning::RelaxedPairingRequired { tier } => PairingWarning::RelaxedPairingRequired { tier: *tier },
        }
    }
}

} // verus!
