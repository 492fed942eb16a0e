//! The tier-by-tier pairing run: build the tier's graph, keep the fair byes,
//! check that a complete pairing exists, solve for minimum cost and validate.
use vstd::prelude::*;

use crate::identity::{EntrantId, text_le};
use crate::platform_time::{diagnostic_clock_microseconds, elapsed_microseconds};

use super::blossom_feasibility::maximum_cardinality_matching;
use super::bye_eligibility::{fair_byes_kept, retain_fairest_feasible_byes};
use super::relaxation::tier_graph;
use super::edge_cost::EdgeCostModel;
use super::edge_generation::{build_candidate_graph_with, candidate_graph_matches};
use super::proposal_builder::{
    build_versioned_proposal, covers, match_from_selection, matches_in_order, proposal_reflects_selection,
};
use super::proposal_validation::edge_violation;
use super::solver_graph::{invalid, node_count_for};
use super::weighted_graph::WeightedSolverGraph;
use super::weighted_kernel::solve_minimum_cost;
use super::{
    BlossomPairingError, InvalidSolverOutputReason, PairingCandidateEdge, PairingCandidateGraph, PairingPolicyVersion, PairingProposal,
    PairingRequest, RelaxationTier, has_entrant, request_valid,
};

verus! {

/// The proposal pairs every entrant of the request exactly once: matches
/// ordered by ids, each between two different known entrants with the lower
/// id first, a bye exactly in an odd field, and every entrant covered by one
/// of the `n / 2` matches or the bye.
pub open spec fn proposal_complete(request: PairingRequest, proposal: PairingProposal) -> bool {
    let n = request.entrants@.len();
    &&& matches_in_order(proposal.matches@)
    &&& forall|i: int| 0 <= i < proposal.matches@.len() ==> {
        let pairing = #[trigger] proposal.matches@[i];
        &&& text_le(pairing.first_entrant_id@, pairing.second_entrant_id@)
        &&& pairing.first_entrant_id@ != pairing.second_entrant_id@
        &&& has_entrant(request.entrants@, pairing.first_entrant_id@)
        &&& has_entrant(request.entrants@, pairing.second_entrant_id@)
    }
    &&& (n % 2 == 1 <==> proposal.bye is Some)
    &&& proposal.bye matches Some(bye) ==> has_entrant(request.entrants@, bye.entrant_id@)
    &&& 2 * proposal.matches@.len() + (if proposal.bye is Some { 1int } else { 0int }) == n
    &&& forall|i: int| 0 <= i < n ==> covers(proposal.matches@, proposal.bye, #[trigger] request.entrants@[i].entrant_id@)
}

/// The proposal reflects a selection of edges from the candidate graph of
/// the request at the proposal's tier, priced by `model`, with only its fair
/// bye edges kept: each match and the bye is one of its edges, and the total
/// cost is the sum of their costs.
pub open spec fn proposal_from_tier_graph(
    request: PairingRequest,
    model: EdgeCostModel,
    policy_version: PairingPolicyVersion,
    proposal: PairingProposal,
) -> bool {
    exists|graph: PairingCandidateGraph, selected: Seq<usize>|
        #[trigger] proposal_reflects_selection(request, graph, selected, policy_version, proposal) && tier_graph(
            request,
            proposal.relaxation_tier,
            model,
            graph,
        )
}

/// A match built from allowed selected edges pairs two different known
/// entrants.
proof fn lemma_match_entrants(
    request: PairingRequest,
    tier: RelaxationTier,
    edges: Seq<PairingCandidateEdge>,
    selected: Seq<usize>,
    pairing: super::ProposedMatch,
)
    requires
        match_from_selection(edges, selected, pairing),
        forall|k: int| 0 <= k < selected.len() ==> (#[trigger] selected[k]) < edges.len() && edge_violation(
            request,
            tier,
            edges[selected[k] as int],
        ) is None,
    ensures
        pairing.first_entrant_id@ != pairing.second_entrant_id@,
        has_entrant(request.entrants@, pairing.first_entrant_id@),
        has_entrant(request.entrants@, pairing.second_entrant_id@),
{
    let k = choose|k: int| 0 <= k < selected.len() && {
        let edge = #[trigger] edges[selected[k] as int];
        &&& edge.target matches super::PairingEdgeTarget::Entrant(second) && {
            ||| (pairing.first_entrant_id@ == edge.first_entrant_id@ && pairing.second_entrant_id@ == second@)
            ||| (pairing.first_entrant_id@ == second@ && pairing.second_entrant_id@ == edge.first_entrant_id@)
        }
        &&& pairing.cost == edge.breakdown
    };
    assert(selected[k] < edges.len());
    assert(edge_violation(request, tier, edges[selected[k] as int]) is None);
}

/// A proposal that reflects a selection of `n / 2` rounded up edges on a
/// graph of the request is complete.
proof fn lemma_reflects_complete(
    request: PairingRequest,
    graph: super::PairingCandidateGraph,
    selected: Seq<usize>,
    version: PairingPolicyVersion,
    proposal: PairingProposal,
)
    requires
        proposal_reflects_selection(request, graph, selected, version, proposal),
        selected.len() == node_count_for(request.entrants@.len() as int) / 2,
    ensures
        proposal_complete(request, proposal),
{
    assert forall|i: int| 0 <= i < proposal.matches@.len() implies {
        let pairing = #[trigger] proposal.matches@[i];
        &&& text_le(pairing.first_entrant_id@, pairing.second_entrant_id@)
        &&& pairing.first_entrant_id@ != pairing.second_entrant_id@
        &&& has_entrant(request.entrants@, pairing.first_entrant_id@)
        &&& has_entrant(request.entrants@, pairing.second_entrant_id@)
    } by {
        lemma_match_entrants(request, graph.relaxation_tier, graph.edges@, selected, proposal.matches@[i]);
    }
    if proposal.bye is Some {
        let bye = proposal.bye.unwrap();
        let k = choose|k: int| 0 <= k < selected.len() && {
            let edge = #[trigger] graph.edges@[selected[k] as int];
            &&& edge.target is Bye
            &&& edge.first_entrant_id@ == bye.entrant_id@
            &&& bye.cost == edge.breakdown
        };
        assert(selected[k] < graph.edges@.len());
        assert(edge_violation(request, graph.relaxation_tier, graph.edges@[selected[k] as int]) is None);
    }
}

/// Produces a complete minimum-cost pairing proposal at the strictest feasible
/// relaxation tier. Match identifiers and table assignments belong to later
/// application operations.
pub fn propose_pairings(request: &PairingRequest) -> (outcome: Result<PairingProposal, BlossomPairingError>)
    ensures
        !request_valid(*request) ==> outcome is Err,
        outcome matches Ok(proposal) ==> proposal_complete(*request, proposal) && proposal.policy_version
            == PairingPolicyVersion::BlossomV1,
        outcome matches Ok(proposal) ==> proposal_from_tier_graph(
            *request,
            EdgeCostModel::BlossomV1 { round_number: request.round_number.spec_value(), policy: request.policy },
            PairingPolicyVersion::BlossomV1,
            proposal,
        ),
{
    let model = EdgeCostModel::BlossomV1 { round_number: request.round_number.value(), policy: request.policy };
    propose_pairings_with(request, PairingPolicyVersion::BlossomV1, &model)
}

/// Runs the tiers in order with graphs priced by `model`: in each, keeps the
/// fair byes, skips the tier when no complete pairing exists, and otherwise
/// solves for minimum cost and validates the result. When no tier admits a
/// complete pairing, reports the entrants left unmatched in the last one.
pub fn propose_pairings_with(
    request: &PairingRequest,
    policy_version: PairingPolicyVersion,
    model: &EdgeCostModel,
) -> (outcome: Result<PairingProposal, BlossomPairingError>)
    ensures
        !request_valid(*request) ==> outcome is Err,
        outcome matches Ok(proposal) ==> proposal_complete(*request, proposal) && proposal.policy_version
            == policy_version,
        outcome matches Ok(proposal) ==> proposal_from_tier_graph(*request, *model, policy_version, proposal),
{
    let mut final_unmatched: Vec<EntrantId> = Vec::new();
    let mut position: usize = 0;
    while position < 3
        invariant
            position <= 3,
        decreases 3 - position,
    {
        let tier = RelaxationTier::at(position);
        position = position + 1;
        let mut candidate_graph = build_candidate_graph_with(request, tier, model)?;
        let ghost built = candidate_graph;
        retain_fairest_feasible_byes(request, &mut candidate_graph);
        let solver_graph = WeightedSolverGraph::from_candidate_graph(&candidate_graph)?;
        let solver_started = diagnostic_clock_microseconds();
        let feasibility = maximum_cardinality_matching(solver_graph.unweighted());
        if !feasibility.is_complete() {
            final_unmatched = feasibility.unmatched_entrants(&solver_graph.unweighted().entrant_ids);
            candidate_graph.diagnostics.solver_microseconds = elapsed_microseconds(solver_started);
            continue;
        }
        let selected = match solve_minimum_cost(&solver_graph)? {
            Some(selected) => selected,
            None => return Err(invalid(InvalidSolverOutputReason::MissingEntrant)),
        };
        candidate_graph.diagnostics.solver_microseconds = elapsed_microseconds(solver_started);
        let proposal = build_versioned_proposal(request, &candidate_graph, selected.as_slice(), policy_version)?;
        proof {
            lemma_reflects_complete(*request, candidate_graph, selected@, policy_version, proposal);
            assert(candidate_graph_matches(*request, tier, *model, built));
            assert(fair_byes_kept(*request, built, candidate_graph));
            assert(tier_graph(*request, proposal.relaxation_tier, *model, candidate_graph));
            assert(proposal_reflects_selection(*request, candidate_graph, selected@, policy_version, proposal));
        }
        return Ok(proposal);
    }
    Err(
        BlossomPairingError::NoCompleteMatching {
            final_tier: RelaxationTier::RematchesAllowed,
            unmatched_entrants: final_unmatched,
        },
    )
}

} // verus!
