//! Request and response shapes of the tournament API, free of storage,
//! identity-provider and interface details. Their wire encoding is added
//! where they are sent.
use vstd::prelude::*;

use crate::application::TournamentApplicationSnapshot;
use crate::results::MatchFormat;

verus! {

#[derive(Clone, Debug, PartialEq, Eq)]
pub struct AuthenticatedUserView {
    pub id: String,
    pub email: String,
    pub display_name: Option<String>,
    pub avatar_url: Option<String>,
}

#[derive(Clone, Debug, PartialEq, Eq)]
pub struct AuthenticationView {
    pub authenticated: bool,
    pub user: Option<AuthenticatedUserView>,
}

#[derive(Clone, Debug, PartialEq, Eq)]
pub struct TournamentSummaryView {
    pub id: String,
    pub title: String,
    pub status: String,
    pub updated_at: String,
}

#[derive(Clone, Debug, PartialEq, Eq)]
pub struct TournamentView {
    pub id: String,
    pub revision: u64,
    pub application: TournamentApplicationSnapshot,
}

#[derive(Clone, Debug, PartialEq, Eq)]
pub struct CreateTournamentRequest {
    pub title: String,
    pub match_format: MatchFormat,
    pub table_count: i64,
    pub maximum_round_count: i64,
}

#[derive(Clone, Debug, PartialEq, Eq)]
pub struct UpdateTournamentConfigurationRequest {
    pub expected_tournament_revision: u64,
    pub match_format: MatchFormat,
    pub table_count: i64,
    pub maximum_round_count: i64,
}

#[derive(Clone, Debug, PartialEq, Eq)]
pub struct EntrantInput {
    pub entrant_id: Option<String>,
    pub display_name: String,
    pub club_id: Option<String>,
    pub club_name: String,
    pub starting_elo: i64,
}

#[derive(Clone, Debug, PartialEq, Eq)]
pub struct ReplaceRosterRequest {
    pub expected_tournament_revision: u64,
    pub entrants: Vec<EntrantInput>,
}

#[derive(Clone, Debug, PartialEq, Eq)]
pub struct TournamentMutationRequest {
    pub expected_tournament_revision: u64,
}

#[derive(Clone, Debug, PartialEq, Eq)]
pub struct GameScoreInput {
    pub game_number: i64,
    pub home_points: i64,
    pub away_points: i64,
}

#[derive(Clone, Debug, PartialEq, Eq)]
pub struct RecordMatchResultRequest {
    pub expected_revision: u64,
    pub games: Vec<GameScoreInput>,
}

#[derive(Clone, Debug, PartialEq, Eq)]
pub struct ApiErrorView {
    pub code: String,
    pub message: String,
}

} // verus!
