//! Versioned minimum-cost general-graph pairing policy.
//!
//! This module accepts stable-ID tournament snapshots and returns validated
//! contestant pairings. Publication, match IDs, and table assignment remain
//! outside this boundary.

mod blossom_feasibility;
mod bye_eligibility;
mod diagnostics;
mod edge_cost;
mod edge_generation;
mod error;
mod graph_determinism;
mod policy;
mod proposal;
mod proposal_builder;
mod proposal_validation;
mod reference_solver;
mod relaxation;
mod request;
mod solve;
mod solver_graph;
mod tier_laws;
mod validation;
mod weight_laws;
mod weighted_graph;
mod weighted_kernel;

pub use diagnostics::{PairingDiagnostics, PairingWarning, RelaxationTier};
pub use error::{
    BlossomPairingError, InvalidSolverOutputReason, PairingCostComponent, SolverError, component_name, pairing_error_text,
    quoted, reason_text, tier_name,
};
pub use policy::BlossomV1Policy;
pub use proposal::{
    PairingCost, PairingCostBreakdown, PairingPolicyVersion, PairingProposal, ProposedBye,
    ProposedMatch, proposal_copied,
};
pub use request::{
    ClubId, PairingEntrant, PairingRequest, PerformanceScore, PreviousMatch, RoundNumber,
    RoundNumberError,
};
pub use validation::{
    entrant_count_valid, first_duplicate_entrant, first_invalid_history_entry, has_entrant,
    history_entry_valid, history_prefix_valid, ids_distinct_prefix, request_valid,
    validate_request,
};
pub use edge_cost::{
    CostContext, EdgeCostModel, bye_cost, finish_cost, match_cost, spec_bye_cost,
    spec_finish_cost, spec_match_cost,
};
pub use edge_generation::{
    PairingCandidateEdge, PairingCandidateGraph, PairingEdgeTarget, build_candidate_graph,
    build_candidate_graph_with, candidate_graph_matches, edge_precedes, largest_tie_break_scale, pair_context, request_costs_fit, graph_edges_ordered, graph_ids_sorted, graph_edge_sound, graph_pairs_complete, graph_byes_complete, graph_has_bye_edge, graph_tie_break_scale, rejected_for, rejected_pairs, pricing_fails, tie_breaks_fit, tie_break_overflow_error,
};
pub use solver_graph::{SolverEdge, SolverGraph, candidate_adjacent, edge_joins, joined_before, node_count_for, pair_joined, solver_graph_buildable};
pub use blossom_feasibility::{CardinalityMatching, NONE, maximum_cardinality_matching, valid_matching};
pub use weighted_graph::{WeightedSolverEdge, WeightedSolverGraph, max_candidate_cost, max_weight_prefix, spec_cardinality_bonus, spec_edge_weight, spec_weight_offset, weight_bound};
pub use weighted_kernel::solve_minimum_cost;
pub use bye_eligibility::{EXHAUSTIVE_PAIRING_NODE_COUNT, bye_count_at, bye_decidable, bye_eligible, exhaustively_decidable, pairable_bye_candidate, bye_leaves_complete_pairing, differs_from, edge_ends, edge_ends_seq, id_texts, is_remainder, stays_without, fair_byes_kept, fairest_byes_kept, has_bye_count, is_fewest_bye, is_listed, keep_fairest_byes, law_kept_bye_has_fewest_byes, lemma_filter_push, match_edges, retain_fairest_feasible_byes};
pub use weighted_kernel::names_edge;
pub use tier_laws::{law_looser_tier_keeps_pairings, same_pairing, tier_rank};
pub use weight_laws::{cost_sum, law_cheaper_edge_weighs_more, law_more_edges_outweigh_fewer, law_projection_preserves_matching_order, weight_sum};
pub use proposal_validation::{all_entrants_seen, edge_violation, first_bye_count, graph_offers_bye, invalid_reason, knows_entrant, mark_once, validate_bye_fairness, validate_coverage, validate_edge};
pub use proposal_builder::{build_proposal, build_versioned_proposal, first_failing_step, selection_step, bye_edge_keys, bye_keys, edge_keys, selection_bye_keys, selection_keys, edge_match_key, entry_keys, law_selection_order_keeps_proposal, match_key, match_keys, selection_match_keys, bye_from_selection, covers, entry_flags, flagged_from_selection, match_from_selection, match_precedes, matches_in_order, matches_warnings, pairing_warnings, proposal_reflects_selection, selected_cost, selection_acceptable, selection_bye, selection_bye_count, selection_entrants, selection_prefix_ok, tier_warnings, tuple_matches, warning_view, warning_views, warnings_fit};
pub use reference_solver::{
    MAXIMUM_REFERENCE_NODE_COUNT, ReferenceMatching, ascending_listing, best_valid, covers_each_node_once, edge_touches, edges_total, edges_well_formed, graph_knows, ids_distinct, is_complete_matching, lex_less, node_met,
    reference_matching_valid, solve_exactly,
};
pub use solve::{proposal_complete, proposal_from_tier_graph, propose_pairings, propose_pairings_with};
pub use relaxation::{build_first_feasible_graph, build_relaxation_graphs, build_relaxation_graphs_with, tier_graph};
pub use graph_determinism::{edge_key, edge_record, key_lt, key_well_formed, law_candidate_graph_ignores_listing_order, same_request_contents};
