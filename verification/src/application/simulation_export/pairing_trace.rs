//! The trace of one pairing calculation: the request as it was snapshotted,
//! the candidate graph of every relaxation tier with the selected edges
//! marked, and the proposal.
use vstd::prelude::*;

use crate::identity::EntrantId;
use crate::pairing::algorithms::blossom_v1::{
    BlossomPairingError, PairingCandidateEdge, PairingCandidateGraph, PairingCostBreakdown, PairingDiagnostics,
    PairingEdgeTarget, PairingEntrant, PairingPolicyVersion, PairingProposal, PairingWarning, PreviousMatch,
    ProposedMatch, RelaxationTier, RoundNumber,
};
use crate::pairing::algorithms::{PairingSnapshot, blossom_v1, blossom_v2};
use vstd::string::StringExecFns;

use super::model::{
    CandidateEdgeTargetTrace, CandidateEdgeTrace, CandidateGraphTrace, PairingCalculationTrace,
    PairingCostBreakdownTrace, PairingDiagnosticsTrace, PairingEntrantTrace, PairingPolicyTrace, PairingProposalTrace,
    PairingRequestTrace, PairingWarningTrace, PreviousMatchTrace, ProposedByeTrace, ProposedMatchTrace,
};

verus! {

/// The label of a relaxation tier in a trace.
pub open spec fn tier_label(tier: RelaxationTier) -> Seq<char> {
    match tier {
        RelaxationTier::Strict => "strict"@,
        RelaxationTier::SameClubAllowed => "same_club_allowed"@,
        RelaxationTier::RematchesAllowed => "rematches_allowed"@,
    }
}

/// The label of a policy version in a trace.
pub open spec fn version_label(version: PairingPolicyVersion) -> Seq<char> {
    match version {
        PairingPolicyVersion::BlossomV1 => "blossom_v1"@,
        PairingPolicyVersion::BlossomV2 => "blossom_v2"@,
    }
}

/// The proposal pairs `a` with `b`, in either order.
pub open spec fn pair_selected(matches: Seq<ProposedMatch>, a: Seq<char>, b: Seq<char>) -> bool {
    exists|i: int|
        0 <= i < matches.len() && {
            let pairing = #[trigger] matches[i];
            ||| pairing.first_entrant_id@ == a && pairing.second_entrant_id@ == b
            ||| pairing.first_entrant_id@ == b && pairing.second_entrant_id@ == a
        }
}

/// The edge is one the proposal chose: a pairing it made, or the bye it
/// gave, in the graph of the tier it was made at.
pub open spec fn edge_selected(edge: PairingCandidateEdge, graph_tier: RelaxationTier, proposal: PairingProposal) -> bool {
    &&& graph_tier == proposal.relaxation_tier
    &&& match edge.target {
        PairingEdgeTarget::Entrant(second) => pair_selected(
            proposal.matches@,
            edge.first_entrant_id@,
            second@,
        ),
        PairingEdgeTarget::Bye => proposal.bye matches Some(bye) && bye.entrant_id@ == edge.first_entrant_id@,
    }
}

/// The breakdown trace carries the components of the breakdown.
pub open spec fn breakdown_traced(trace: PairingCostBreakdownTrace, cost: PairingCostBreakdown) -> bool {
    &&& trace.performance_score_gap == cost.performance_score_gap
    &&& trace.match_win_gap == cost.match_win_gap
    &&& trace.opponent_strength_gap == cost.opponent_strength_gap
    &&& trace.elo_gap == cost.elo_gap
    &&& trace.same_club_penalty == cost.same_club_penalty
    &&& trace.rematch_penalty == cost.rematch_penalty
    &&& trace.bye_penalty == cost.bye_penalty
    &&& trace.deterministic_tie_break == cost.deterministic_tie_break
    &&& trace.total == cost.total
}

/// The diagnostics trace carries the counts and timings of the diagnostics.
pub open spec fn diagnostics_traced(trace: PairingDiagnosticsTrace, value: PairingDiagnostics) -> bool {
    &&& trace.candidate_pair_count == value.candidate_pair_count
    &&& trace.eligible_edge_count == value.eligible_edge_count
    &&& trace.rejected_same_club_edges == value.rejected_same_club_edges
    &&& trace.rejected_rematch_edges == value.rejected_rematch_edges
    &&& trace.edge_generation_microseconds == value.edge_generation_microseconds
    &&& trace.cost_calculation_microseconds == value.cost_calculation_microseconds
    &&& trace.solver_microseconds == value.solver_microseconds
    &&& trace.validation_microseconds == value.validation_microseconds
}

/// The edge trace records the edge and whether the proposal chose it.
pub open spec fn edge_traced(trace: CandidateEdgeTrace, edge: PairingCandidateEdge, selected: bool) -> bool {
    &&& trace.first_entrant_id@ == edge.first_entrant_id@
    &&& match edge.target {
        PairingEdgeTarget::Entrant(second) => trace.target matches CandidateEdgeTargetTrace::Entrant { entrant_id }
            && entrant_id@ == second@,
        PairingEdgeTarget::Bye => trace.target is Bye,
    }
    &&& trace.same_club == edge.same_club
    &&& trace.rematch == edge.rematch
    &&& trace.selected == selected
    &&& trace.cost == edge.cost.0
    &&& breakdown_traced(trace.breakdown, edge.breakdown)
}

/// The graph trace records the graph's tier, entrants and edges, each edge
/// marked selected exactly when the proposal chose it.
pub open spec fn graph_traced(trace: CandidateGraphTrace, graph: PairingCandidateGraph, proposal: PairingProposal) -> bool {
    &&& trace.relaxation_tier@ == tier_label(graph.relaxation_tier)
    &&& trace.entrant_ids@.len() == graph.entrant_ids@.len()
    &&& forall|i: int| 0 <= i < graph.entrant_ids@.len() ==> (#[trigger] trace.entrant_ids@[i])@ == graph.entrant_ids@[i]@
    &&& trace.edges@.len() == graph.edges@.len()
    &&& forall|k: int| 0 <= k < graph.edges@.len() ==> edge_traced(
        #[trigger] trace.edges@[k],
        graph.edges@[k],
        edge_selected(graph.edges@[k], graph.relaxation_tier, proposal),
    )
    &&& diagnostics_traced(trace.diagnostics, graph.diagnostics)
}

/// An owned copy of the id's text.
fn owned(id: &EntrantId) -> (text: String)
    ensures
        text@ == id@,
{
    String::from_str(id.as_str())
}

fn tier_text(tier: RelaxationTier) -> (text: String)
    ensures
        text@ == tier_label(tier),
{
    match tier {
        RelaxationTier::Strict => String::from_str("strict"),
        RelaxationTier::SameClubAllowed => String::from_str("same_club_allowed"),
        RelaxationTier::RematchesAllowed => String::from_str("rematches_allowed"),
    }
}

fn version_text(version: PairingPolicyVersion) -> (text: String)
    ensures
        text@ == version_label(version),
{
    match version {
        PairingPolicyVersion::BlossomV1 => String::from_str("blossom_v1"),
        PairingPolicyVersion::BlossomV2 => String::from_str("blossom_v2"),
    }
}

fn cost_breakdown(cost: &PairingCostBreakdown) -> (trace: PairingCostBreakdownTrace)
    ensures
        breakdown_traced(trace, *cost),
{
    PairingCostBreakdownTrace {
        performance_score_gap: cost.performance_score_gap,
        match_win_gap: cost.match_win_gap,
        opponent_strength_gap: cost.opponent_strength_gap,
        elo_gap: cost.elo_gap,
        same_club_penalty: cost.same_club_penalty,
        rematch_penalty: cost.rematch_penalty,
        bye_penalty: cost.bye_penalty,
        deterministic_tie_break: cost.deterministic_tie_break,
        total: cost.total,
    }
}

fn diagnostics(value: &PairingDiagnostics) -> (trace: PairingDiagnosticsTrace)
    ensures
        diagnostics_traced(trace, *value),
{
    PairingDiagnosticsTrace {
        candidate_pair_count: value.candidate_pair_count,
        eligible_edge_count: value.eligible_edge_count,
        rejected_same_club_edges: value.rejected_same_club_edges,
        rejected_rematch_edges: value.rejected_rematch_edges,
        edge_generation_microseconds: value.edge_generation_microseconds,
        cost_calculation_microseconds: value.cost_calculation_microseconds,
        solver_microseconds: value.solver_microseconds,
        validation_microseconds: value.validation_microseconds,
    }
}

fn warning_trace(warning: &PairingWarning) -> (trace: PairingWarningTrace)
    ensures
        match *warning {
            PairingWarning::SameClubPairingRequired { first_entrant_id, second_entrant_id } => trace matches PairingWarningTrace::SameClubPairingRequired { first_entrant_id: a, second_entrant_id: b }
                && a@ == first_entrant_id@ && b@ == second_entrant_id@,
            PairingWarning::RematchRequired { first_entrant_id, second_entrant_id } => trace matches PairingWarningTrace::RematchRequired { first_entrant_id: a, second_entrant_id: b }
                && a@ == first_entrant_id@ && b@ == second_entrant_id@,
            PairingWarning::ByeAssigned { entrant_id } => trace matches PairingWarningTrace::ByeAssigned { entrant_id: a }
                && a@ == entrant_id@,
            PairingWarning::RelaxedPairingRequired { tier } => trace matches PairingWarningTrace::RelaxedPairingRequired { tier: t }
                && t@ == tier_label(tier),
        },
{
    match warning {
        PairingWarning::SameClubPairingRequired { first_entrant_id, second_entrant_id } => {
            PairingWarningTrace::SameClubPairingRequired {
                first_entrant_id: owned(first_entrant_id),
                second_entrant_id: owned(second_entrant_id),
            }
        },
        PairingWarning::RematchRequired { first_entrant_id, second_entrant_id } => {
            PairingWarningTrace::RematchRequired {
                first_entrant_id: owned(first_entrant_id),
                second_entrant_id: owned(second_entrant_id),
            }
        },
        PairingWarning::ByeAssigned { entrant_id } => PairingWarningTrace::ByeAssigned { entrant_id: owned(entrant_id) },
        PairingWarning::RelaxedPairingRequired { tier } => PairingWarningTrace::RelaxedPairingRequired {
            tier: tier_text(*tier),
        },
    }
}

/// The policy trace of a first-version policy: linear win and ELO weights,
/// no normalization.
fn pairing_policy_v1(policy: &blossom_v1::BlossomV1Policy) -> (trace: PairingPolicyTrace)
    ensures
        trace.version@ == "blossom_v1"@,
        trace.avoid_same_club == policy.avoid_same_club,
        trace.avoid_rematches == policy.avoid_rematches,
        trace.recent_rematch_window == policy.recent_rematch_window,
        trace.performance_score_weight == policy.performance_score_weight,
        trace.performance_score_normalization == 1,
        trace.match_win_weight == Some(policy.match_win_weight),
        trace.match_record_weight is None,
        trace.opponent_strength_weight == policy.opponent_strength_weight,
        trace.opponent_strength_normalization == 1,
        trace.elo_difference_weight == Some(policy.elo_difference_weight),
        trace.squared_elo_difference_weight is None,
        trace.bye_repeat_penalty == policy.bye_repeat_penalty,
        trace.same_club_penalty == policy.same_club_penalty,
        trace.rematch_penalty == policy.rematch_penalty,
        trace.maximum_entrant_count == policy.maximum_entrant_count,
{
    PairingPolicyTrace {
        version: String::from_str("blossom_v1"),
        avoid_same_club: policy.avoid_same_club,
        avoid_rematches: policy.avoid_rematches,
        recent_rematch_window: policy.recent_rematch_window,
        performance_score_weight: policy.performance_score_weight,
        performance_score_normalization: 1,
        match_win_weight: Some(policy.match_win_weight),
        match_record_weight: None,
        opponent_strength_weight: policy.opponent_strength_weight,
        opponent_strength_normalization: 1,
        elo_difference_weight: Some(policy.elo_difference_weight),
        squared_elo_difference_weight: None,
        bye_repeat_penalty: policy.bye_repeat_penalty,
        same_club_penalty: policy.same_club_penalty,
        rematch_penalty: policy.rematch_penalty,
        maximum_entrant_count: policy.maximum_entrant_count,
    }
}

/// The policy trace of a second-version policy: record and squared ELO
/// weights, gaps normalized to thousandths.
fn pairing_policy_v2(policy: &blossom_v2::BlossomV2Policy) -> (trace: PairingPolicyTrace)
    ensures
        trace.version@ == "blossom_v2"@,
        trace.avoid_same_club == policy.avoid_same_club,
        trace.avoid_rematches == policy.avoid_rematches,
        trace.recent_rematch_window == policy.recent_rematch_window,
        trace.performance_score_weight == policy.performance_score_weight,
        trace.performance_score_normalization == 1_000,
        trace.match_win_weight is None,
        trace.match_record_weight == Some(policy.match_record_weight),
        trace.opponent_strength_weight == policy.opponent_strength_weight,
        trace.opponent_strength_normalization == 1_000,
        trace.elo_difference_weight is None,
        trace.squared_elo_difference_weight == Some(policy.squared_elo_difference_weight),
        trace.bye_repeat_penalty == policy.bye_repeat_penalty,
        trace.same_club_penalty == policy.same_club_penalty,
        trace.rematch_penalty == policy.rematch_penalty,
        trace.maximum_entrant_count == policy.maximum_entrant_count,
{
    PairingPolicyTrace {
        version: String::from_str("blossom_v2"),
        avoid_same_club: policy.avoid_same_club,
        avoid_rematches: policy.avoid_rematches,
        recent_rematch_window: policy.recent_rematch_window,
        performance_score_weight: policy.performance_score_weight,
        performance_score_normalization: 1_000,
        match_win_weight: None,
        match_record_weight: Some(policy.match_record_weight),
        opponent_strength_weight: policy.opponent_strength_weight,
        opponent_strength_normalization: 1_000,
        elo_difference_weight: None,
        squared_elo_difference_weight: Some(policy.squared_elo_difference_weight),
        bye_repeat_penalty: policy.bye_repeat_penalty,
        same_club_penalty: policy.same_club_penalty,
        rematch_penalty: policy.rematch_penalty,
        maximum_entrant_count: policy.maximum_entrant_count,
    }
}

/// The request trace: the round, each entrant and previous match in order,
/// and the policy.
fn pairing_request_parts(
    round_number: RoundNumber,
    entrants: &Vec<PairingEntrant>,
    previous_matches: &Vec<PreviousMatch>,
    policy: PairingPolicyTrace,
) -> (trace: PairingRequestTrace)
    ensures
        trace.round_number == round_number.spec_value(),
        trace.entrants@.len() == entrants@.len(),
        forall|i: int| 0 <= i < entrants@.len() ==> {
            let entrant = entrants@[i];
            let traced = #[trigger] trace.entrants@[i];
            &&& traced.entrant_id@ == entrant.entrant_id@
            &&& traced.club_id@ == entrant.club_id@
            &&& traced.starting_elo == entrant.starting_elo.0
            &&& traced.performance_score_scaled == entrant.performance_score.spec_scaled()
            &&& traced.matches_won == entrant.matches_won
            &&& traced.opponent_score_sum_scaled == entrant.opponent_score_sum.spec_scaled()
            &&& traced.bye_count == entrant.bye_count
        },
        trace.previous_matches@.len() == previous_matches@.len(),
        forall|i: int| 0 <= i < previous_matches@.len() ==> {
            let previous = previous_matches@[i];
            let traced = #[trigger] trace.previous_matches@[i];
            &&& traced.first_entrant_id@ == previous.first_entrant_id@
            &&& traced.second_entrant_id@ == previous.second_entrant_id@
            &&& traced.round_number == previous.round_number.spec_value()
        },
        trace.policy == policy,
{
    let mut entrant_traces: Vec<PairingEntrantTrace> = Vec::new();
    let mut i: usize = 0;
    while i < entrants.len()
        invariant
            i <= entrants@.len(),
            entrant_traces@.len() == i,
            forall|k: int| 0 <= k < i ==> {
                let entrant = entrants@[k];
                let traced = #[trigger] entrant_traces@[k];
                &&& traced.entrant_id@ == entrant.entrant_id@
                &&& traced.club_id@ == entrant.club_id@
                &&& traced.starting_elo == entrant.starting_elo.0
                &&& traced.performance_score_scaled == entrant.performance_score.spec_scaled()
                &&& traced.matches_won == entrant.matches_won
                &&& traced.opponent_score_sum_scaled == entrant.opponent_score_sum.spec_scaled()
                &&& traced.bye_count == entrant.bye_count
            },
        decreases entrants@.len() - i,
    {
        let entrant = &entrants[i];
        entrant_traces.push(
            PairingEntrantTrace {
                entrant_id: owned(&entrant.entrant_id),
                club_id: owned(&entrant.club_id),
                starting_elo: entrant.starting_elo.value(),
                performance_score_scaled: entrant.performance_score.scaled_value(),
                matches_won: entrant.matches_won,
                opponent_score_sum_scaled: entrant.opponent_score_sum.scaled_value(),
                bye_count: entrant.bye_count,
            },
        );
        i = i + 1;
    }
    let mut previous_traces: Vec<PreviousMatchTrace> = Vec::new();
    let mut p: usize = 0;
    while p < previous_matches.len()
        invariant
            p <= previous_matches@.len(),
            previous_traces@.len() == p,
            forall|k: int| 0 <= k < p ==> {
                let previous = previous_matches@[k];
                let traced = #[trigger] previous_traces@[k];
                &&& traced.first_entrant_id@ == previous.first_entrant_id@
                &&& traced.second_entrant_id@ == previous.second_entrant_id@
                &&& traced.round_number == previous.round_number.spec_value()
            },
        decreases previous_matches@.len() - p,
    {
        let previous = &previous_matches[p];
        previous_traces.push(
            PreviousMatchTrace {
                first_entrant_id: owned(&previous.first_entrant_id),
                second_entrant_id: owned(&previous.second_entrant_id),
                round_number: previous.round_number.value(),
            },
        );
        p = p + 1;
    }
    PairingRequestTrace {
        round_number: round_number.value(),
        entrants: entrant_traces,
        previous_matches: previous_traces,
        policy,
    }
}

/// The request trace of either snapshot version.
fn pairing_request(request: &PairingSnapshot) -> (trace: PairingRequestTrace)
    ensures
        match *request {
            PairingSnapshot::BlossomV1(inner) => {
                &&& trace.round_number == inner.round_number.spec_value()
                &&& trace.entrants@.len() == inner.entrants@.len()
                &&& trace.policy.version@ == "blossom_v1"@
            },
            PairingSnapshot::BlossomV2(inner) => {
                &&& trace.round_number == inner.round_number.spec_value()
                &&& trace.entrants@.len() == inner.entrants@.len()
                &&& trace.policy.version@ == "blossom_v2"@
                &&& trace.policy.match_win_weight is None
                &&& trace.policy.match_record_weight == Some(inner.policy.match_record_weight)
                &&& trace.policy.elo_difference_weight is None
                &&& trace.policy.squared_elo_difference_weight == Some(inner.policy.squared_elo_difference_weight)
            },
        },
{
    match request {
        PairingSnapshot::BlossomV1(inner) => pairing_request_parts(
            inner.round_number,
            &inner.entrants,
            &inner.previous_matches,
            pairing_policy_v1(&inner.policy),
        ),
        PairingSnapshot::BlossomV2(inner) => pairing_request_parts(
            inner.round_number,
            &inner.entrants,
            &inner.previous_matches,
            pairing_policy_v2(&inner.policy),
        ),
    }
}

/// Whether the proposal pairs the two entrants, in either order.
fn pairs(matches: &Vec<ProposedMatch>, a: &EntrantId, b: &EntrantId) -> (paired: bool)
    ensures
        paired == pair_selected(matches@, a@, b@),
{
    let mut i: usize = 0;
    while i < matches.len()
        invariant
            i <= matches@.len(),
            forall|k: int| 0 <= k < i ==> {
                let pairing = #[trigger] matches@[k];
                !(pairing.first_entrant_id@ == a@ && pairing.second_entrant_id@ == b@) && !(
                pairing.first_entrant_id@ == b@ && pairing.second_entrant_id@ == a@)
            },
        decreases matches@.len() - i,
    {
        let pairing = &matches[i];
        if (pairing.first_entrant_id.same_as(a) && pairing.second_entrant_id.same_as(b)) || (
        pairing.first_entrant_id.same_as(b) && pairing.second_entrant_id.same_as(a)) {
            return true;
        }
        i = i + 1;
    }
    false
}

fn candidate_edge(edge: &PairingCandidateEdge, graph_tier: RelaxationTier, proposal: &PairingProposal) -> (trace:
    CandidateEdgeTrace)
    ensures
        edge_traced(trace, *edge, edge_selected(*edge, graph_tier, *proposal)),
{
    let successful_tier = graph_tier == proposal.relaxation_tier;
    let (target, selected) = match &edge.target {
        PairingEdgeTarget::Entrant(second) => {
            let chosen = successful_tier && pairs(&proposal.matches, &edge.first_entrant_id, second);
            (CandidateEdgeTargetTrace::Entrant { entrant_id: owned(second) }, chosen)
        },
        PairingEdgeTarget::Bye => {
            let chosen = successful_tier && match &proposal.bye {
                Some(bye) => bye.entrant_id.same_as(&edge.first_entrant_id),
                None => false,
            };
            (CandidateEdgeTargetTrace::Bye, chosen)
        },
    };
    CandidateEdgeTrace {
        first_entrant_id: owned(&edge.first_entrant_id),
        target,
        same_club: edge.same_club,
        rematch: edge.rematch,
        selected,
        cost: edge.cost.value(),
        breakdown: cost_breakdown(&edge.breakdown),
    }
}

fn candidate_graph(graph: &PairingCandidateGraph, proposal: &PairingProposal) -> (trace: CandidateGraphTrace)
    ensures
        graph_traced(trace, *graph, *proposal),
{
    let mut entrant_ids: Vec<String> = Vec::new();
    let mut i: usize = 0;
    while i < graph.entrant_ids.len()
        invariant
            i <= graph.entrant_ids@.len(),
            entrant_ids@.len() == i,
            forall|k: int| 0 <= k < i ==> (#[trigger] entrant_ids@[k])@ == graph.entrant_ids@[k]@,
        decreases graph.entrant_ids@.len() - i,
    {
        entrant_ids.push(owned(&graph.entrant_ids[i]));
        i = i + 1;
    }
    let mut edges: Vec<CandidateEdgeTrace> = Vec::new();
    let mut k: usize = 0;
    while k < graph.edges.len()
        invariant
            k <= graph.edges@.len(),
            edges@.len() == k,
            forall|j: int| 0 <= j < k ==> edge_traced(
                #[trigger] edges@[j],
                graph.edges@[j],
                edge_selected(graph.edges@[j], graph.relaxation_tier, *proposal),
            ),
        decreases graph.edges@.len() - k,
    {
        edges.push(candidate_edge(&graph.edges[k], graph.relaxation_tier, proposal));
        k = k + 1;
    }
    CandidateGraphTrace {
        relaxation_tier: tier_text(graph.relaxation_tier),
        entrant_ids,
        edges,
        diagnostics: diagnostics(&graph.diagnostics),
    }
}

/// The proposal trace: version, tier, cost, pairings, bye, warnings and
/// diagnostics.
fn pairing_proposal(proposal: &PairingProposal) -> (trace: PairingProposalTrace)
    ensures
        trace.policy_version@ == version_label(proposal.policy_version),
        trace.relaxation_tier@ == tier_label(proposal.relaxation_tier),
        trace.total_cost == proposal.total_cost.0,
        trace.matches@.len() == proposal.matches@.len(),
        forall|i: int| 0 <= i < proposal.matches@.len() ==> {
            let traced = #[trigger] trace.matches@[i];
            &&& traced.first_entrant_id@ == proposal.matches@[i].first_entrant_id@
            &&& traced.second_entrant_id@ == proposal.matches@[i].second_entrant_id@
            &&& breakdown_traced(traced.cost, proposal.matches@[i].cost)
        },
        trace.bye is Some == proposal.bye is Some,
        trace.warnings@.len() == proposal.warnings@.len(),
        diagnostics_traced(trace.diagnostics, proposal.diagnostics),
{
    let mut matches: Vec<ProposedMatchTrace> = Vec::new();
    let mut i: usize = 0;
    while i < proposal.matches.len()
        invariant
            i <= proposal.matches@.len(),
            matches@.len() == i,
            forall|k: int| 0 <= k < i ==> {
                let traced = #[trigger] matches@[k];
                &&& traced.first_entrant_id@ == proposal.matches@[k].first_entrant_id@
                &&& traced.second_entrant_id@ == proposal.matches@[k].second_entrant_id@
                &&& breakdown_traced(traced.cost, proposal.matches@[k].cost)
            },
        decreases proposal.matches@.len() - i,
    {
        let pairing = &proposal.matches[i];
        matches.push(
            ProposedMatchTrace {
                first_entrant_id: owned(&pairing.first_entrant_id),
                second_entrant_id: owned(&pairing.second_entrant_id),
                cost: cost_breakdown(&pairing.cost),
            },
        );
        i = i + 1;
    }
    let bye = match &proposal.bye {
        Some(bye) => Some(ProposedByeTrace { entrant_id: owned(&bye.entrant_id), cost: cost_breakdown(&bye.cost) }),
        None => None,
    };
    let mut warnings: Vec<PairingWarningTrace> = Vec::new();
    let mut w: usize = 0;
    while w < proposal.warnings.len()
        invariant
            w <= proposal.warnings@.len(),
            warnings@.len() == w,
        decreases proposal.warnings@.len() - w,
    {
        warnings.push(warning_trace(&proposal.warnings[w]));
        w = w + 1;
    }
    PairingProposalTrace {
        policy_version: version_text(proposal.policy_version),
        relaxation_tier: tier_text(proposal.relaxation_tier),
        total_cost: proposal.total_cost.value(),
        matches,
        bye,
        warnings,
        diagnostics: diagnostics(&proposal.diagnostics),
    }
}

/// The candidate graphs of the three tiers for the snapshot's version.
fn relaxation_graphs(request: &PairingSnapshot) -> (outcome: Result<Vec<PairingCandidateGraph>, BlossomPairingError>)
    ensures
        outcome matches Ok(graphs) ==> graphs@.len() == 3 && forall|i: int|
            0 <= i < 3 ==> (#[trigger] graphs@[i]).relaxation_tier == RelaxationTier::spec_at(i),
{
    match request {
        PairingSnapshot::BlossomV1(inner) => blossom_v1::build_relaxation_graphs(inner),
        PairingSnapshot::BlossomV2(inner) => blossom_v2::build_relaxation_graphs(inner),
    }
}

/// The trace of a pairing calculation: the request, the graph of every
/// tier with the proposal's edges marked, and the proposal. Fails when the
/// graphs cannot be rebuilt from the request.
pub fn pairing_calculation(request: &PairingSnapshot, proposal: &PairingProposal) -> (outcome: Result<
    PairingCalculationTrace,
    BlossomPairingError,
>)
    ensures
        outcome matches Ok(trace) ==> {
            &&& trace.relaxation_graphs@.len() == 3
            &&& exists|graphs: Seq<PairingCandidateGraph>| {
                &&& graphs.len() == 3
                &&& forall|i: int| 0 <= i < 3 ==> {
                    &&& (#[trigger] graphs[i]).relaxation_tier == RelaxationTier::spec_at(i)
                    &&& graph_traced(trace.relaxation_graphs@[i], graphs[i], *proposal)
                }
            }
            &&& match *request {
                PairingSnapshot::BlossomV1(inner) => {
                    &&& trace.request.round_number == inner.round_number.spec_value()
                    &&& trace.request.entrants@.len() == inner.entrants@.len()
                    &&& trace.request.policy.version@ == "blossom_v1"@
                },
                PairingSnapshot::BlossomV2(inner) => {
                    &&& trace.request.round_number == inner.round_number.spec_value()
                    &&& trace.request.entrants@.len() == inner.entrants@.len()
                    &&& trace.request.policy.version@ == "blossom_v2"@
                    &&& trace.request.policy.match_win_weight is None
                    &&& trace.request.policy.match_record_weight == Some(inner.policy.match_record_weight)
                    &&& trace.request.policy.elo_difference_weight is None
                    &&& trace.request.policy.squared_elo_difference_weight == Some(
                        inner.policy.squared_elo_difference_weight,
                    )
                },
            }
            &&& trace.proposal.matches@.len() == proposal.matches@.len()
            &&& trace.proposal.policy_version@ == version_label(proposal.policy_version)
        },
{
    let graphs = relaxation_graphs(request)?;
    let mut traces: Vec<CandidateGraphTrace> = Vec::new();
    let mut i: usize = 0;
    while i < graphs.len()
        invariant
            i <= graphs@.len(),
            traces@.len() == i,
            forall|k: int| 0 <= k < i ==> graph_traced(#[trigger] traces@[k], graphs@[k], *proposal),
        decreases graphs@.len() - i,
    {
        traces.push(candidate_graph(&graphs[i], proposal));
        i = i + 1;
    }
    let trace = PairingCalculationTrace {
        request: pairing_request(request),
        relaxation_graphs: traces,
        proposal: pairing_proposal(proposal),
    };
    proof {
        assert(forall|k: int| 0 <= k < 3 ==> graph_traced(trace.relaxation_graphs@[k], graphs@[k], *proposal));
    }
    Ok(trace)
}

} // verus!
