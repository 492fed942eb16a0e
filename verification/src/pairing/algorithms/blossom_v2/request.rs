use vstd::prelude::*;

use super::super::blossom_v1;
use super::super::blossom_v1::{PairingEntrant, PreviousMatch, RoundNumber};
use super::BlossomV2Policy;

verus! {

#[derive(Clone, Debug, PartialEq, Eq)]
pub struct PairingRequest {
    pub round_number: RoundNumber,
    pub entrants: Vec<PairingEntrant>,
    pub previous_matches: Vec<PreviousMatch>,
    pub policy: BlossomV2Policy,
}

/// The first-version policy that shares the relationship and penalty
/// settings of a second-version policy and gives no weight to the
/// first-version competitive terms.
pub open spec fn compatibility_policy(policy: BlossomV2Policy) -> blossom_v1::BlossomV1Policy {
    blossom_v1::BlossomV1Policy {
        avoid_same_club: policy.avoid_same_club,
        avoid_rematches: policy.avoid_rematches,
        recent_rematch_window: policy.recent_rematch_window,
        performance_score_weight: 0,
        match_win_weight: 0,
        opponent_strength_weight: 0,
        elo_difference_weight: 0,
        bye_repeat_penalty: policy.bye_repeat_penalty,
        same_club_penalty: policy.same_club_penalty,
        rematch_penalty: policy.rematch_penalty,
        maximum_entrant_count: policy.maximum_entrant_count,
    }
}

/// `compatible` is the request as a first-version request: the same round,
/// the same entrants and history entry by entry, and the policy mapped by
/// `compatibility_policy`.
pub open spec fn compatible_with(request: PairingRequest, compatible: blossom_v1::PairingRequest) -> bool {
    &&& compatible.round_number == request.round_number
    &&& compatible.entrants@.len() == request.entrants@.len()
    &&& forall|i: int| 0 <= i < request.entrants@.len() ==> {
        let copy = #[trigger] compatible.entrants@[i];
        let entrant = request.entrants@[i];
        &&& copy.entrant_id@ == entrant.entrant_id@
        &&& copy.club_id@ == entrant.club_id@
        &&& copy.starting_elo == entrant.starting_elo
        &&& copy.performance_score == entrant.performance_score
        &&& copy.matches_won == entrant.matches_won
        &&& copy.opponent_score_sum == entrant.opponent_score_sum
        &&& copy.bye_count == entrant.bye_count
    }
    &&& compatible.previous_matches@.len() == request.previous_matches@.len()
    &&& forall|i: int| 0 <= i < request.previous_matches@.len() ==> {
        let copy = #[trigger] compatible.previous_matches@[i];
        let entry = request.previous_matches@[i];
        &&& copy.first_entrant_id@ == entry.first_entrant_id@
        &&& copy.second_entrant_id@ == entry.second_entrant_id@
        &&& copy.round_number == entry.round_number
    }
    &&& compatible.policy == compatibility_policy(request.policy)
}

/// The same snapshot as a first-version request, which the shared
/// validation, graph generation and solver run on.
pub fn compatibility_request(request: &PairingRequest) -> (compatible: blossom_v1::PairingRequest)
    ensures
        compatible.round_number == request.round_number,
        compatible.entrants@.len() == request.entrants@.len(),
        forall|i: int| 0 <= i < request.entrants@.len() ==> {
            let copy = #[trigger] compatible.entrants@[i];
            let entrant = request.entrants@[i];
            &&& copy.entrant_id@ == entrant.entrant_id@
            &&& copy.club_id@ == entrant.club_id@
            &&& copy.starting_elo == entrant.starting_elo
            &&& copy.performance_score == entrant.performance_score
            &&& copy.matches_won == entrant.matches_won
            &&& copy.opponent_score_sum == entrant.opponent_score_sum
            &&& copy.bye_count == entrant.bye_count
        },
        compatible.previous_matches@.len() == request.previous_matches@.len(),
        forall|i: int| 0 <= i < request.previous_matches@.len() ==> {
            let copy = #[trigger] compatible.previous_matches@[i];
            let entry = request.previous_matches@[i];
            &&& copy.first_entrant_id@ == entry.first_entrant_id@
            &&& copy.second_entrant_id@ == entry.second_entrant_id@
            &&& copy.round_number == entry.round_number
        },
        compatible.policy == compatibility_policy(request.policy),
        compatible_with(*request, compatible),
{
    let mut entrants: Vec<PairingEntrant> = Vec::new();
    let mut i: usize = 0;
    while i < request.entrants.len()
        invariant
            i <= request.entrants@.len(),
            entrants@.len() == i,
            forall|j: int| 0 <= j < i ==> {
                let copy = #[trigger] entrants@[j];
                let entrant = request.entrants@[j];
                &&& copy.entrant_id@ == entrant.entrant_id@
                &&& copy.club_id@ == entrant.club_id@
                &&& copy.starting_elo == entrant.starting_elo
                &&& copy.performance_score == entrant.performance_score
                &&& copy.matches_won == entrant.matches_won
                &&& copy.opponent_score_sum == entrant.opponent_score_sum
                &&& copy.bye_count == entrant.bye_count
            },
        decreases request.entrants@.len() - i,
    {
        entrants.push(request.entrants[i].duplicate());
        i = i + 1;
    }
    let mut previous_matches: Vec<PreviousMatch> = Vec::new();
    let mut k: usize = 0;
    while k < request.previous_matches.len()
        invariant
            k <= request.previous_matches@.len(),
            previous_matches@.len() == k,
            forall|j: int| 0 <= j < k ==> {
                let copy = #[trigger] previous_matches@[j];
                let entry = request.previous_matches@[j];
                &&& copy.first_entrant_id@ == entry.first_entrant_id@
                &&& copy.second_entrant_id@ == entry.second_entrant_id@
                &&& copy.round_number == entry.round_number
            },
        decreases request.previous_matches@.len() - k,
    {
        previous_matches.push(request.previous_matches[k].duplicate());
        k = k + 1;
    }
    let policy = blossom_v1::BlossomV1Policy {
        avoid_same_club: request.policy.avoid_same_club,
        avoid_rematches: request.policy.avoid_rematches,
        recent_rematch_window: request.policy.recent_rematch_window,
        performance_score_weight: 0,
        match_win_weight: 0,
        opponent_strength_weight: 0,
        elo_difference_weight: 0,
        bye_repeat_penalty: request.policy.bye_repeat_penalty,
        same_club_penalty: request.policy.same_club_penalty,
        rematch_penalty: request.policy.rematch_penalty,
        maximum_entrant_count: request.policy.maximum_entrant_count,
    };
    blossom_v1::PairingRequest { round_number: request.round_number, entrants, previous_matches, policy }
}

} // verus!
