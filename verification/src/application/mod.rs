//! Application operations shared by interactive frontends and simulations.
//!
//! This layer owns tournament orchestration. Pairing algorithms and result
//! validation remain isolated domain services beneath it.

mod scoring;

pub use scoring::{
    ELO_POWERS, EloExpectationDeltaV1, MatchPerformanceDelta, PERFORMANCE_SCALE, actual_home_score,
    expected_home_score, law_equal_ratings_expect_half, law_expectations_complement, law_performance_delta_conserved,
    power_of_ten,
    trailing_share,
};

mod entrant;
mod error;
mod round;
mod standing_accumulator;
mod standings;

pub use entrant::{TournamentEntrant, same_entrant};
pub use error::{TournamentApplicationError, application_error_text};
pub use round::{ActiveRound, CompletedRound};
pub use standing_accumulator::{StandingAccumulator, overflow_error, point_total};
pub use standings::{
    ContestantStanding, all_track, calculate_standings, distinct_ids, has_accumulator, has_standing, history_byes, history_share, home_delta, last_elo, registered, result_share,
    game_points, history_games, opponent_strength, result_games, results_games, result_opponent_score, results_opponent_score, results_share, scheduled_for, standing_precedes, standing_replays, standings_in_order, tracks,
    result_consistent, replay_fits, replayed_totals_fit, round_replay_fits,
    opponent_total_fits, round_opponents_fit, standings_replayed, result_fits, covers_entrants,
};
mod standing_laws;
pub use standing_laws::{covers_registered, law_performance_scores_sum_to_zero, performance_sum, standing_ids, sum_over};
mod pairing_snapshot;
pub use pairing_snapshot::{
    active_pairs, build_pairing_request, entry_built, history_pairs, lists_entrant, pairing_entrant_for, previous_view,
    request_parts_match, snapshot_built, snapshot_history, law_request_remembers_every_earlier_meeting, standing_of, standings_pairable,
};
mod tournament;
pub use tournament::{PendingPairing, TournamentApplication, active_in, copies_roster, entrants_ordered, has_same_entrant, id_views, law_withdrawal_is_idempotent, other_than, replaced};
mod round_operations;
pub use round_operations::{
    elo_snapshot_of, entrant_ids_distinct, first_match_with_id, has_result_for, match_id_text, pairing_published, result_accepted,
    proposal_names, results_in_match_order, same_result, table_released_to_first_waiting, law_preview_remembers_every_earlier_meeting,
};
mod snapshot;
pub use snapshot::{
    PairingPreviewSnapshot, TournamentApplicationSnapshot, TournamentSnapshotError, distinct_texts, entrant_ids,
    entrants_consistent, history_consistent, history_match_ids, lifecycle_consistent, match_ids, result_ids,
    application_copied, ids_ascending, law_restore_undoes_snapshot, restores, result_rederives, roster_copied,
    round_consistent, rounds_consistent, same_ids, saves, snapshot_consistent, snapshot_error_detail, tournament_copied,
};
pub mod simulation_export;
pub use simulation_export::{SimulationTrace, SimulationTraceError};
mod copies;
pub use copies::{
    active_copied, active_parts, completed_copied, completed_parts, copy_proposal, copy_request, entrant_copied,
    entrants_copied, history_copied, previous_copied, proposal_copied, request_copied, round_parts_copied,
    scheduled_copied, warning_copied,
};
