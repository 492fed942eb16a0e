use vstd::prelude::*;

use crate::identity::EntrantId;

use super::{PairingDiagnostics, PairingWarning, RelaxationTier};

verus! {

#[derive(Clone, Copy, Debug, PartialEq, Eq, PartialOrd, Ord, Hash, Structural)]
pub struct PairingCost(pub u64);

impl PairingCost {
    pub fn new(value: u64) -> (cost: Self)
        ensures
            cost.0 == value,
    {
        PairingCost(value)
    }

    pub fn value(self) -> (value: u64)
        ensures
            value == self.0,
    {
        self.0
    }
}

#[derive(Clone, Copy, Debug, PartialEq, Eq, Hash, Structural)]
pub struct PairingCostBreakdown {
    /// Weighted component values before deterministic scaling.
    pub performance_score_gap: u64,
    pub match_win_gap: u64,
    pub opponent_strength_gap: u64,
    pub elo_gap: u64,
    pub same_club_penalty: u64,
    pub rematch_penalty: u64,
    pub bye_penalty: u64,
    pub deterministic_tie_break: u64,
    /// The weighted component sum, scaled so tie-breaking cannot change its
    /// ordering, plus `deterministic_tie_break`.
    pub total: u64,
}

#[derive(Clone, Copy, Debug, PartialEq, Eq, Hash, Structural)]
pub enum PairingPolicyVersion {
    BlossomV1,
    BlossomV2,
}

#[derive(Clone, Debug, PartialEq, Eq)]
pub struct PairingProposal {
    /// Order is deterministic for auditing but has no sporting meaning.
    pub matches: Vec<ProposedMatch>,
    pub bye: Option<ProposedBye>,
    pub relaxation_tier: RelaxationTier,
    pub total_cost: PairingCost,
    pub policy_version: PairingPolicyVersion,
    pub warnings: Vec<PairingWarning>,
    pub diagnostics: PairingDiagnostics,
}

#[derive(Clone, Debug, PartialEq, Eq)]
pub struct ProposedMatch {
    pub first_entrant_id: EntrantId,
    pub second_entrant_id: EntrantId,
    pub cost: PairingCostBreakdown,
}

#[derive(Clone, Debug, PartialEq, Eq)]
pub struct ProposedBye {
    pub entrant_id: EntrantId,
    pub cost: PairingCostBreakdown,
}


impl ProposedMatch {
    /// A copy with the same contents.
    pub fn duplicate(&self) -> (copy: Self)
        ensures
            copy.first_entrant_id@ == self.first_entrant_id@,
            copy.second_entrant_id@ == self.second_entrant_id@,
            copy.cost == self.cost,
    {
        ProposedMatch {
            first_entrant_id: self.first_entrant_id.duplicate(),
            second_entrant_id: self.second_entrant_id.duplicate(),
            cost: self.cost,
        }
    }
}

impl ProposedBye {
    /// A copy with the same contents.
    pub fn duplicate(&self) -> (copy: Self)
        ensures
            copy.entrant_id@ == self.entrant_id@,
            copy.cost == self.cost,
    {
        ProposedBye { entrant_id: self.entrant_id.duplicate(), cost: self.cost }
    }
}

/// `copy` holds the same matches, bye, tier, cost, version, number of
/// warnings and diagnostics as `original`.
pub open spec fn proposal_copied(copy: PairingProposal, original: PairingProposal) -> bool {
    &&& copy.matches@.len() == original.matches@.len()
    &&& forall|i: int| 0 <= i < original.matches@.len() ==> {
        &&& (#[trigger] copy.matches@[i]).first_entrant_id@ == original.matches@[i].first_entrant_id@
        &&& copy.matches@[i].second_entrant_id@ == original.matches@[i].second_entrant_id@
        &&& copy.matches@[i].cost == original.matches@[i].cost
    }
    &&& (copy.bye is Some <==> original.bye is Some)
    &&& copy.bye matches Some(b) ==> (original.bye matches Some(s) && b.entrant_id@ == s.entrant_id@ && b.cost == s.cost)
    &&& copy.relaxation_tier == original.relaxation_tier
    &&& copy.total_cost == original.total_cost
    &&& copy.policy_version == original.policy_version
    &&& copy.warnings@.len() == original.warnings@.len()
    &&& copy.diagnostics == original.diagnostics
}

impl PairingProposal {
    /// A copy with the same contents.
    pub fn duplicate(&self) -> (copy: Self)
        ensures
            proposal_copied(copy, *self),
            copy.matches@.len() == self.matches@.len(),
            forall|i: int| 0 <= i < self.matches@.len() ==> {
                &&& (#[trigger] copy.matches@[i]).first_entrant_id@ == self.matches@[i].first_entrant_id@
                &&& copy.matches@[i].second_entrant_id@ == self.matches@[i].second_entrant_id@
                &&& copy.matches@[i].cost == self.matches@[i].cost
            },
            copy.bye is Some <==> self.bye is Some,
            copy.bye matches Some(b) ==> (self.bye matches Some(s) && b.entrant_id@ == s.entrant_id@ && b.cost == s.cost),
            copy.relaxation_tier == self.relaxation_tier,
            copy.total_cost == self.total_cost,
            copy.policy_version == self.policy_version,
            copy.warnings@.len() == self.warnings@.len(),
            copy.diagnostics == self.diagnostics,
    {
        let mut matches: Vec<ProposedMatch> = Vec::new();
        let mut i: usize = 0;
        while i < self.matches.len()
            invariant
                i <= self.matches@.len(),
                matches@.len() == i,
                forall|j: int| 0 <= j < i ==> {
                    &&& (#[trigger] matches@[j]).first_entrant_id@ == self.matches@[j].first_entrant_id@
                    &&& matches@[j].second_entrant_id@ == self.matches@[j].second_entrant_id@
                    &&& matches@[j].cost == self.matches@[j].cost
                },
            decreases self.matches@.len() - i,
        {
            matches.push(self.matches[i].duplicate());
            i = i + 1;
        }
        let mut warnings: Vec<PairingWarning> = Vec::new();
        let mut k: usize = 0;
        while k < self.warnings.len()
            invariant
                k <= self.warnings@.len(),
                warnings@.len() == k,
            decreases self.warnings@.len() - k,
        {
            warnings.push(self.warnings[k].duplicate());
            k = k + 1;
        }
        let bye = match &self.bye {
            Some(bye) => Some(bye.duplicate()),
            None => None,
        };
        PairingProposal {
            matches,
            bye,
            relaxation_tier: self.relaxation_tier,
            total_cost: self.total_cost,
            policy_version: self.policy_version,
            warnings,
            diagnostics: self.diagnostics,
        }
    }
}

} // verus!
