//! The candidate graphs of all tiers, and the first tier whose graph admits
//! a complete pairing.
use vstd::prelude::*;

use crate::platform_time::{diagnostic_clock_microseconds, elapsed_microseconds};

use super::blossom_feasibility::maximum_cardinality_matching;
use super::bye_eligibility::{fair_byes_kept, retain_fairest_feasible_byes};
use super::edge_cost::EdgeCostModel;
use super::edge_generation::{
    build_candidate_graph_with, candidate_graph_matches, request_costs_fit, graph_edge_sound, graph_ids_sorted, graph_tie_break_scale,
};
use super::weighted_graph::WeightedSolverGraph;
use super::{BlossomPairingError, PairingCandidateGraph, PairingRequest, RelaxationTier, request_valid};
use crate::identity::EntrantId;

verus! {

/// `graph` is the candidate graph of `request` at `tier`, priced by
/// `model`, with only its fair bye edges kept.
pub open spec fn tier_graph(
    request: PairingRequest,
    tier: RelaxationTier,
    model: EdgeCostModel,
    graph: PairingCandidateGraph,
) -> bool {
    exists|built: PairingCandidateGraph|
        #[trigger] candidate_graph_matches(request, tier, model, built) && fair_byes_kept(request, built, graph)
}

/// Timings in the diagnostics do not affect whether a graph is the one the
/// candidate generation yields.
proof fn lemma_timing_irrelevant(
    request: PairingRequest,
    tier: RelaxationTier,
    model: EdgeCostModel,
    built: PairingCandidateGraph,
    timed: PairingCandidateGraph,
)
    requires
        candidate_graph_matches(request, tier, model, built),
        timed.relaxation_tier == built.relaxation_tier,
        timed.entrant_ids == built.entrant_ids,
        timed.edges == built.edges,
        timed.diagnostics.candidate_pair_count == built.diagnostics.candidate_pair_count,
        timed.diagnostics.eligible_edge_count == built.diagnostics.eligible_edge_count,
    ensures
        candidate_graph_matches(request, tier, model, timed),
{
    assert(graph_tie_break_scale(timed) == graph_tie_break_scale(built));
    assert forall|k: int| 0 <= k < timed.edges@.len() implies #[trigger] graph_edge_sound(request, tier, model, timed, k) by {
        assert(graph_edge_sound(request, tier, model, built, k));
    }
}

/// Builds candidate graphs in tier order and returns the first graph that has a
/// complete general-graph matching. Minimum-cost selection happens afterward.
pub fn build_first_feasible_graph(request: &PairingRequest) -> (outcome: Result<
    PairingCandidateGraph,
    BlossomPairingError,
>)
    ensures
        !request_valid(*request) ==> outcome is Err,
        outcome matches Ok(graph) ==> candidate_graph_matches(
            *request,
            graph.relaxation_tier,
            EdgeCostModel::BlossomV1 { round_number: request.round_number.spec_value(), policy: request.policy },
            graph,
        ),
{
    let model = EdgeCostModel::BlossomV1 { round_number: request.round_number.value(), policy: request.policy };
    let mut final_unmatched: Vec<EntrantId> = Vec::new();
    let mut position: usize = 0;
    while position < 3
        invariant
            position <= 3,
            model == (EdgeCostModel::BlossomV1 { round_number: request.round_number.spec_value(), policy: request.policy }),
        decreases 3 - position,
    {
        let tier = RelaxationTier::at(position);
        position = position + 1;
        let mut candidate_graph = build_candidate_graph_with(request, tier, &model)?;
        let ghost built = candidate_graph;
        let solver_graph = match WeightedSolverGraph::from_candidate_graph(&candidate_graph) {
            Ok(graph) => graph,
            Err(e) => return Err(e),
        };
        let solver_started = diagnostic_clock_microseconds();
        let matching = maximum_cardinality_matching(solver_graph.unweighted());
        candidate_graph.diagnostics.solver_microseconds = elapsed_microseconds(solver_started);
        if matching.is_complete() {
            proof {
                lemma_timing_irrelevant(*request, tier, model, built, candidate_graph);
            }
            return Ok(candidate_graph);
        }
        final_unmatched = matching.unmatched_entrants(&solver_graph.unweighted().entrant_ids);
    }
    Err(
        BlossomPairingError::NoCompleteMatching {
            final_tier: RelaxationTier::RematchesAllowed,
            unmatched_entrants: final_unmatched,
        },
    )
}

/// The candidate graphs of the three tiers in order, priced by `model`,
/// each with only its fair bye edges kept.
pub fn build_relaxation_graphs_with(request: &PairingRequest, model: &EdgeCostModel) -> (outcome: Result<
    Vec<PairingCandidateGraph>,
    BlossomPairingError,
>)
    ensures
        !request_valid(*request) ==> outcome is Err,
        outcome matches Ok(graphs) ==> graphs@.len() == 3 && forall|i: int| 0 <= i < 3 ==> {
            &&& (#[trigger] graphs@[i]).relaxation_tier == RelaxationTier::spec_at(i)
            &&& graph_ids_sorted(*request, graphs@[i])
            &&& tier_graph(*request, RelaxationTier::spec_at(i), *model, graphs@[i])
        },
        request_valid(*request) && request_costs_fit(*request, *model) ==> outcome is Ok,
{
    let mut graphs: Vec<PairingCandidateGraph> = Vec::new();
    let mut position: usize = 0;
    while position < 3
        invariant
            position <= 3,
            graphs@.len() == position,
            position > 0 ==> request_valid(*request),
            forall|i: int| 0 <= i < position ==> {
                &&& (#[trigger] graphs@[i]).relaxation_tier == RelaxationTier::spec_at(i)
                &&& graph_ids_sorted(*request, graphs@[i])
                &&& tier_graph(*request, RelaxationTier::spec_at(i), *model, graphs@[i])
            },
        decreases 3 - position,
    {
        let tier = RelaxationTier::at(position);
        let mut graph = build_candidate_graph_with(request, tier, model)?;
        let ghost built = graph;
        retain_fairest_feasible_byes(request, &mut graph);
        proof {
            assert(candidate_graph_matches(*request, tier, *model, built));
            assert(tier_graph(*request, tier, *model, graph));
        }
        graphs.push(graph);
        position = position + 1;
    }
    Ok(graphs)
}

/// The BlossomV1 candidate graphs of the three tiers in order, each with
/// only its fair bye edges kept.
pub fn build_relaxation_graphs(request: &PairingRequest) -> (outcome: Result<
    Vec<PairingCandidateGraph>,
    BlossomPairingError,
>)
    ensures
        !request_valid(*request) ==> outcome is Err,
        outcome matches Ok(graphs) ==> graphs@.len() == 3 && forall|i: int| 0 <= i < 3 ==> {
            &&& (#[trigger] graphs@[i]).relaxation_tier == RelaxationTier::spec_at(i)
            &&& graph_ids_sorted(*request, graphs@[i])
            &&& tier_graph(
                *request,
                RelaxationTier::spec_at(i),
                EdgeCostModel::BlossomV1 { round_number: request.round_number.spec_value(), policy: request.policy },
                graphs@[i],
            )
        },
        request_valid(*request) && request_costs_fit(
            *request,
            EdgeCostModel::BlossomV1 { round_number: request.round_number.spec_value(), policy: request.policy },
        ) ==> outcome is Ok,
{
    let model = EdgeCostModel::BlossomV1 { round_number: request.round_number.value(), policy: request.policy };
    build_relaxation_graphs_with(request, &model)
}

} // verus!
