//! Copies of rounds and pairing calculations, and what it means for one to
//! hold the same contents as another: identifiers by their text, every
//! other part equal.
use vstd::prelude::*;

use crate::pairing::algorithms::blossom_v1::{
    PairingEntrant, PairingProposal, PairingWarning, PreviousMatch, ProposedBye, ProposedMatch,
};
use crate::pairing::algorithms::{PairingSnapshot, blossom_v1, blossom_v2};
use crate::results::MatchResult;
use crate::scheduling::ScheduledMatch;

use super::round_operations::same_result;
use super::{ActiveRound, CompletedRound};

verus! {

pub open spec fn entrant_copied(copy: PairingEntrant, original: PairingEntrant) -> bool {
    &&& copy.entrant_id@ == original.entrant_id@
    &&& copy.club_id@ == original.club_id@
    &&& copy.starting_elo == original.starting_elo
    &&& copy.performance_score == original.performance_score
    &&& copy.matches_won == original.matches_won
    &&& copy.opponent_score_sum == original.opponent_score_sum
    &&& copy.bye_count == original.bye_count
}

pub open spec fn previous_copied(copy: PreviousMatch, original: PreviousMatch) -> bool {
    &&& copy.first_entrant_id@ == original.first_entrant_id@
    &&& copy.second_entrant_id@ == original.second_entrant_id@
    &&& copy.round_number == original.round_number
}

pub open spec fn entrants_copied(copy: Seq<PairingEntrant>, original: Seq<PairingEntrant>) -> bool {
    &&& copy.len() == original.len()
    &&& forall|i: int| 0 <= i < original.len() ==> entrant_copied(#[trigger] copy[i], original[i])
}

pub open spec fn history_copied(copy: Seq<PreviousMatch>, original: Seq<PreviousMatch>) -> bool {
    &&& copy.len() == original.len()
    &&& forall|i: int| 0 <= i < original.len() ==> previous_copied(#[trigger] copy[i], original[i])
}

/// The pairing snapshots hold the same request.
pub open spec fn request_copied(copy: PairingSnapshot, original: PairingSnapshot) -> bool {
    match (copy, original) {
        (PairingSnapshot::BlossomV1(c), PairingSnapshot::BlossomV1(o)) => {
            &&& c.round_number == o.round_number
            &&& c.policy == o.policy
            &&& entrants_copied(c.entrants@, o.entrants@)
            &&& history_copied(c.previous_matches@, o.previous_matches@)
        },
        (PairingSnapshot::BlossomV2(c), PairingSnapshot::BlossomV2(o)) => {
            &&& c.round_number == o.round_number
            &&& c.policy == o.policy
            &&& entrants_copied(c.entrants@, o.entrants@)
            &&& history_copied(c.previous_matches@, o.previous_matches@)
        },
        _ => false,
    }
}

pub open spec fn warning_copied(copy: PairingWarning, original: PairingWarning) -> bool {
    match (copy, original) {
        (
            PairingWarning::SameClubPairingRequired { first_entrant_id: a, second_entrant_id: b },
            PairingWarning::SameClubPairingRequired { first_entrant_id: c, second_entrant_id: d },
        ) => a@ == c@ && b@ == d@,
        (
            PairingWarning::RematchRequired { first_entrant_id: a, second_entrant_id: b },
            PairingWarning::RematchRequired { first_entrant_id: c, second_entrant_id: d },
        ) => a@ == c@ && b@ == d@,
        (PairingWarning::ByeAssigned { entrant_id: a }, PairingWarning::ByeAssigned { entrant_id: c }) => a@ == c@,
        (PairingWarning::RelaxedPairingRequired { tier: a }, PairingWarning::RelaxedPairingRequired { tier: c }) => a
            == c,
        _ => false,
    }
}

/// The proposals hold the same pairings, bye, tier, cost, version,
/// warnings and diagnostics.
pub open spec fn proposal_copied(copy: PairingProposal, original: PairingProposal) -> bool {
    &&& copy.matches@.len() == original.matches@.len()
    &&& forall|i: int| 0 <= i < original.matches@.len() ==> {
        &&& (#[trigger] copy.matches@[i]).first_entrant_id@ == original.matches@[i].first_entrant_id@
        &&& copy.matches@[i].second_entrant_id@ == original.matches@[i].second_entrant_id@
        &&& copy.matches@[i].cost == original.matches@[i].cost
    }
    &&& match (copy.bye, original.bye) {
        (Some(c), Some(o)) => c.entrant_id@ == o.entrant_id@ && c.cost == o.cost,
        (None, None) => true,
        _ => false,
    }
    &&& copy.relaxation_tier == original.relaxation_tier
    &&& copy.total_cost == original.total_cost
    &&& copy.policy_version == original.policy_version
    &&& copy.warnings@.len() == original.warnings@.len()
    &&& forall|i: int| 0 <= i < original.warnings@.len() ==> warning_copied(#[trigger] copy.warnings@[i], original.warnings@[i])
    &&& copy.diagnostics == original.diagnostics
}

pub open spec fn scheduled_copied(copy: ScheduledMatch, original: ScheduledMatch) -> bool {
    &&& copy.match_id@ == original.match_id@
    &&& copy.home_entrant_id@ == original.home_entrant_id@
    &&& copy.away_entrant_id@ == original.away_entrant_id@
    &&& copy.spec_table_number() == original.spec_table_number()
    &&& copy.publication_status == original.publication_status
    &&& copy.round_activity == original.round_activity
}

/// The round parts hold the same contents.
pub open spec fn round_parts_copied(
    copy: (blossom_v1::RoundNumber, PairingSnapshot, PairingProposal, Seq<ScheduledMatch>, Seq<MatchResult>, Option<Seq<char>>),
    original: (blossom_v1::RoundNumber, PairingSnapshot, PairingProposal, Seq<ScheduledMatch>, Seq<MatchResult>, Option<Seq<char>>),
) -> bool {
    &&& copy.0 == original.0
    &&& request_copied(copy.1, original.1)
    &&& proposal_copied(copy.2, original.2)
    &&& copy.3.len() == original.3.len()
    &&& forall|i: int| 0 <= i < original.3.len() ==> scheduled_copied(#[trigger] copy.3[i], original.3[i])
    &&& copy.4.len() == original.4.len()
    &&& forall|i: int| 0 <= i < original.4.len() ==> same_result(#[trigger] copy.4[i], original.4[i])
    &&& copy.5 == original.5
}

pub open spec fn completed_parts(round: CompletedRound) -> (
    blossom_v1::RoundNumber,
    PairingSnapshot,
    PairingProposal,
    Seq<ScheduledMatch>,
    Seq<MatchResult>,
    Option<Seq<char>>,
) {
    (
        round.round_number,
        round.pairing_request,
        round.proposal,
        round.scheduled_matches@,
        round.results@,
        match round.bye {
            Some(id) => Some(id@),
            None => None,
        },
    )
}

pub open spec fn active_parts(round: ActiveRound) -> (
    blossom_v1::RoundNumber,
    PairingSnapshot,
    PairingProposal,
    Seq<ScheduledMatch>,
    Seq<MatchResult>,
    Option<Seq<char>>,
) {
    (
        round.round_number,
        round.pairing_request,
        round.proposal,
        round.scheduled_matches@,
        round.results@,
        match round.bye {
            Some(id) => Some(id@),
            None => None,
        },
    )
}

/// The completed rounds hold the same contents.
pub open spec fn completed_copied(copy: CompletedRound, original: CompletedRound) -> bool {
    round_parts_copied(completed_parts(copy), completed_parts(original))
}

/// The active rounds hold the same contents.
pub open spec fn active_copied(copy: ActiveRound, original: ActiveRound) -> bool {
    round_parts_copied(active_parts(copy), active_parts(original))
}

fn copy_entrants(entrants: &Vec<PairingEntrant>) -> (copy: Vec<PairingEntrant>)
    ensures
        entrants_copied(copy@, entrants@),
{
    let mut copy: Vec<PairingEntrant> = Vec::new();
    let mut i: usize = 0;
    while i < entrants.len()
        invariant
            i <= entrants@.len(),
            copy@.len() == i,
            forall|k: int| 0 <= k < i ==> entrant_copied(#[trigger] copy@[k], entrants@[k]),
        decreases entrants@.len() - i,
    {
        copy.push(entrants[i].duplicate());
        i = i + 1;
    }
    copy
}

fn copy_history(previous: &Vec<PreviousMatch>) -> (copy: Vec<PreviousMatch>)
    ensures
        history_copied(copy@, previous@),
{
    let mut copy: Vec<PreviousMatch> = Vec::new();
    let mut i: usize = 0;
    while i < previous.len()
        invariant
            i <= previous@.len(),
            copy@.len() == i,
            forall|k: int| 0 <= k < i ==> previous_copied(#[trigger] copy@[k], previous@[k]),
        decreases previous@.len() - i,
    {
        copy.push(previous[i].duplicate());
        i = i + 1;
    }
    copy
}

/// A copy of the pairing snapshot.
pub fn copy_request(request: &PairingSnapshot) -> (copy: PairingSnapshot)
    ensures
        request_copied(copy, *request),
{
    match request {
        PairingSnapshot::BlossomV1(inner) => PairingSnapshot::BlossomV1(
            blossom_v1::PairingRequest {
                round_number: inner.round_number,
                entrants: copy_entrants(&inner.entrants),
                previous_matches: copy_history(&inner.previous_matches),
                policy: inner.policy,
            },
        ),
        PairingSnapshot::BlossomV2(inner) => PairingSnapshot::BlossomV2(
            blossom_v2::PairingRequest {
                round_number: inner.round_number,
                entrants: copy_entrants(&inner.entrants),
                previous_matches: copy_history(&inner.previous_matches),
                policy: inner.policy,
            },
        ),
    }
}

/// A copy of the proposal.
pub fn copy_proposal(proposal: &PairingProposal) -> (copy: PairingProposal)
    ensures
        proposal_copied(copy, *proposal),
{
    let mut matches: Vec<ProposedMatch> = Vec::new();
    let mut i: usize = 0;
    while i < proposal.matches.len()
        invariant
            i <= proposal.matches@.len(),
            matches@.len() == i,
            forall|k: int| 0 <= k < i ==> {
                &&& (#[trigger] matches@[k]).first_entrant_id@ == proposal.matches@[k].first_entrant_id@
                &&& matches@[k].second_entrant_id@ == proposal.matches@[k].second_entrant_id@
                &&& matches@[k].cost == proposal.matches@[k].cost
            },
        decreases proposal.matches@.len() - i,
    {
        matches.push(proposal.matches[i].duplicate());
        i = i + 1;
    }
    let mut warnings: Vec<PairingWarning> = Vec::new();
    let mut w: usize = 0;
    while w < proposal.warnings.len()
        invariant
            w <= proposal.warnings@.len(),
            warnings@.len() == w,
            forall|k: int| 0 <= k < w ==> warning_copied(#[trigger] warnings@[k], proposal.warnings@[k]),
        decreases proposal.warnings@.len() - w,
    {
        warnings.push(proposal.warnings[w].duplicate());
        w = w + 1;
    }
    let bye: Option<ProposedBye> = match &proposal.bye {
        Some(bye) => Some(bye.duplicate()),
        None => None,
    };
    PairingProposal {
        matches,
        bye,
        relaxation_tier: proposal.relaxation_tier,
        total_cost: proposal.total_cost,
        policy_version: proposal.policy_version,
        warnings,
        diagnostics: proposal.diagnostics,
    }
}

fn copy_scheduled(matches: &Vec<ScheduledMatch>) -> (copy: Vec<ScheduledMatch>)
    ensures
        copy@.len() == matches@.len(),
        forall|i: int| 0 <= i < matches@.len() ==> scheduled_copied(#[trigger] copy@[i], matches@[i]),
{
    let mut copy: Vec<ScheduledMatch> = Vec::new();
    let mut i: usize = 0;
    while i < matches.len()
        invariant
            i <= matches@.len(),
            copy@.len() == i,
            forall|k: int| 0 <= k < i ==> scheduled_copied(#[trigger] copy@[k], matches@[k]),
        decreases matches@.len() - i,
    {
        copy.push(matches[i].duplicate());
        i = i + 1;
    }
    copy
}

fn copy_results(results: &Vec<MatchResult>) -> (copy: Vec<MatchResult>)
    ensures
        copy@.len() == results@.len(),
        forall|i: int| 0 <= i < results@.len() ==> same_result(#[trigger] copy@[i], results@[i]),
{
    let mut copy: Vec<MatchResult> = Vec::new();
    let mut i: usize = 0;
    while i < results.len()
        invariant
            i <= results@.len(),
            copy@.len() == i,
            forall|k: int| 0 <= k < i ==> same_result(#[trigger] copy@[k], results@[k]),
        decreases results@.len() - i,
    {
        copy.push(results[i].duplicate());
        i = i + 1;
    }
    copy
}

impl CompletedRound {
    /// A copy with the same contents.
    pub fn duplicate(&self) -> (copy: Self)
        ensures
            completed_copied(copy, *self),
    {
        CompletedRound {
            round_number: self.round_number,
            pairing_request: copy_request(&self.pairing_request),
            proposal: copy_proposal(&self.proposal),
            scheduled_matches: copy_scheduled(&self.scheduled_matches),
            results: copy_results(&self.results),
            bye: match &self.bye {
                Some(id) => Some(id.duplicate()),
                None => None,
            },
        }
    }
}

impl ActiveRound {
    /// A copy with the same contents.
    pub fn duplicate(&self) -> (copy: Self)
        ensures
            active_copied(copy, *self),
    {
        ActiveRound {
            round_number: self.round_number,
            pairing_request: copy_request(&self.pairing_request),
            proposal: copy_proposal(&self.proposal),
            scheduled_matches: copy_scheduled(&self.scheduled_matches),
            results: copy_results(&self.results),
            bye: match &self.bye {
                Some(id) => Some(id.duplicate()),
                None => None,
            },
        }
    }
}

} // verus!
