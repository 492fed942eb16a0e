use vstd::prelude::*;

use super::super::blossom_v1;
use super::super::blossom_v1::{
    BlossomPairingError, EdgeCostModel, PairingCandidateGraph, PairingPolicyVersion, PairingProposal,
    RelaxationTier, candidate_graph_matches, graph_ids_sorted, proposal_complete, request_valid, tier_graph, proposal_from_tier_graph,
};
use super::request::{PairingRequest, compatibility_request, compatible_with};
use super::super::blossom_v1::request_costs_fit;

verus! {

/// The second-version cost model of the request.
pub open spec fn v2_model(request: PairingRequest) -> EdgeCostModel {
    EdgeCostModel::BlossomV2 { round_number: request.round_number.spec_value(), policy: request.policy }
}

/// The candidate graph of the request at the tier, priced by the
/// second-version costs.
pub fn build_candidate_graph(request: &PairingRequest, relaxation_tier: RelaxationTier) -> (outcome: Result<
    PairingCandidateGraph,
    BlossomPairingError,
>)
    ensures
        outcome matches Ok(graph) ==> exists|compatible: blossom_v1::PairingRequest|
            #[trigger] compatible_with(*request, compatible) && request_valid(compatible) && candidate_graph_matches(
                compatible,
                relaxation_tier,
                v2_model(*request),
                graph,
            ),
        (forall|compatible: blossom_v1::PairingRequest| #[trigger] compatible_with(*request, compatible)
            ==> request_valid(compatible) && request_costs_fit(compatible, v2_model(*request))) ==> outcome is Ok,
{
    let compatibility = compatibility_request(request);
    let model = EdgeCostModel::BlossomV2 { round_number: request.round_number.value(), policy: request.policy };
    build_and_check(&compatibility, relaxation_tier, &model)
}

fn build_and_check(
    compatibility: &blossom_v1::PairingRequest,
    relaxation_tier: RelaxationTier,
    model: &EdgeCostModel,
) -> (outcome: Result<PairingCandidateGraph, BlossomPairingError>)
    ensures
        outcome matches Ok(graph) ==> request_valid(*compatibility) && candidate_graph_matches(
            *compatibility,
            relaxation_tier,
            *model,
            graph,
        ),
        request_valid(*compatibility) && request_costs_fit(*compatibility, *model) ==> outcome is Ok,
{
    blossom_v1::build_candidate_graph_with(compatibility, relaxation_tier, model)
}

/// The three tiers' second-version graphs, each with only its fair bye
/// edges kept.
pub fn build_relaxation_graphs(request: &PairingRequest) -> (outcome: Result<
    Vec<PairingCandidateGraph>,
    BlossomPairingError,
>)
    ensures
        outcome matches Ok(graphs) ==> graphs@.len() == 3 && forall|i: int|
            0 <= i < 3 ==> (#[trigger] graphs@[i]).relaxation_tier == RelaxationTier::spec_at(i)
                && graphs@[i].entrant_ids@.len() == request.entrants@.len(),
        outcome matches Ok(graphs) ==> exists|compatible: blossom_v1::PairingRequest|
            #[trigger] compatible_with(*request, compatible) && forall|i: int|
                0 <= i < 3 ==> tier_graph(compatible, RelaxationTier::spec_at(i), v2_model(*request), #[trigger] graphs@[i]),
        (forall|compatible: blossom_v1::PairingRequest| #[trigger] compatible_with(*request, compatible)
            ==> request_valid(compatible) && request_costs_fit(compatible, v2_model(*request))) ==> outcome is Ok,
{
    let compatibility = compatibility_request(request);
    let model = EdgeCostModel::BlossomV2 { round_number: request.round_number.value(), policy: request.policy };
    let graphs = blossom_v1::build_relaxation_graphs_with(&compatibility, &model)?;
    proof {
        assert forall|i: int| 0 <= i < 3 implies graphs@[i].entrant_ids@.len() == request.entrants@.len() by {
            assert(graph_ids_sorted(compatibility, graphs@[i]));
        }
    }
    Ok(graphs)
}

/// A complete pairing proposal priced by the second-version costs, reported
/// as a second-version proposal.
pub fn propose_pairings(request: &PairingRequest) -> (outcome: Result<PairingProposal, BlossomPairingError>)
    ensures
        outcome matches Ok(proposal) ==> proposal.policy_version == PairingPolicyVersion::BlossomV2
            && proposal.matches@.len() * 2 + (if proposal.bye is Some { 1int } else { 0int }) == request.entrants@.len(),
        outcome matches Ok(proposal) ==> exists|compatible: blossom_v1::PairingRequest|
            #[trigger] compatible_with(*request, compatible) && proposal_complete(compatible, proposal)
                && proposal_from_tier_graph(compatible, v2_model(*request), PairingPolicyVersion::BlossomV2, proposal),
{
    let compatibility = compatibility_request(request);
    let model = EdgeCostModel::BlossomV2 { round_number: request.round_number.value(), policy: request.policy };
    let proposal = blossom_v1::propose_pairings_with(&compatibility, PairingPolicyVersion::BlossomV2, &model)?;
    proof {
        assert(proposal_complete(compatibility, proposal));
        assert(compatible_with(*request, compatibility));
    }
    Ok(proposal)
}

} // verus!
