//! Builds the simulation trace of an application.
use vstd::prelude::*;

use crate::identity::EntrantId;
use crate::pairing::algorithms::PairingSnapshot;
use crate::pairing::algorithms::blossom_v1::PairingProposal;
use crate::results::{GameScore, MatchFormat, MatchResult};
use crate::scheduling::{MatchPublicationStatus, RoundActivity, ScheduledMatch};
use crate::tournament::TournamentState;
use vstd::string::StringExecFns;

use super::SimulationTraceError;
use super::model::{
    EntrantTrace, GameScoreTrace, MatchResultTrace, RoundTrace, ScheduledMatchTrace, SimulationMetadataTrace,
    SimulationTrace, StandingTrace, TournamentTrace,
};
use super::pairing_trace::{pairing_calculation, version_label};
use crate::application::standings::calculate_standings;
use crate::application::{ContestantStanding, TournamentApplication, TournamentEntrant};

verus! {

/// The label of a tournament state in a trace.
pub open spec fn state_label(state: TournamentState) -> Seq<char> {
    match state {
        TournamentState::Draft => "draft"@,
        TournamentState::Started => "started"@,
    }
}

/// The label of a match format in a trace.
pub open spec fn format_label(format: MatchFormat) -> Seq<char> {
    match format {
        MatchFormat::BestOfThree => "best_of_three"@,
        MatchFormat::BestOfFive => "best_of_five"@,
    }
}

/// The label of a publication status in a trace.
pub open spec fn publication_label(status: MatchPublicationStatus) -> Seq<char> {
    match status {
        MatchPublicationStatus::Draft => "draft"@,
        MatchPublicationStatus::Published => "published"@,
    }
}

/// The label of a round activity in a trace.
pub open spec fn activity_label(activity: RoundActivity) -> Seq<char> {
    match activity {
        RoundActivity::Active => "active"@,
        RoundActivity::Inactive => "inactive"@,
    }
}

/// The generator named in a trace of seeded results.
pub open spec fn seeded_generator_label() -> Seq<char> {
    "elo_match_outcome_with_generated_games_v2"@
}

/// The standing trace records the standing at its rank.
pub open spec fn standing_traced(trace: StandingTrace, standing: ContestantStanding, rank: int) -> bool {
    &&& trace.rank == rank
    &&& trace.entrant_id@ == standing.entrant_id@
    &&& trace.performance_score_scaled == standing.performance_score.spec_scaled()
    &&& trace.matches_played == standing.matches_played
    &&& trace.matches_won == standing.matches_won
    &&& trace.matches_lost == standing.matches_lost
    &&& trace.games_won == standing.games_won
    &&& trace.games_lost == standing.games_lost
    &&& trace.game_difference == standing.game_difference
    &&& trace.points_won == standing.points_won
    &&& trace.points_lost == standing.points_lost
    &&& trace.point_difference == standing.point_difference
    &&& trace.opponent_score_sum_scaled == standing.opponent_score_sum.spec_scaled()
    &&& trace.bye_count == standing.bye_count
}

/// The standings in order, each at the rank of its position.
pub open spec fn standings_traced(trace: Seq<StandingTrace>, standings: Seq<ContestantStanding>) -> bool {
    &&& trace.len() == standings.len()
    &&& forall|i: int| 0 <= i < standings.len() ==> standing_traced(#[trigger] trace[i], standings[i], i + 1)
}

/// The match trace records the match.
pub open spec fn scheduled_traced(trace: ScheduledMatchTrace, scheduled: ScheduledMatch) -> bool {
    &&& trace.match_id@ == scheduled.match_id@
    &&& trace.home_entrant_id@ == scheduled.home_entrant_id@
    &&& trace.away_entrant_id@ == scheduled.away_entrant_id@
    &&& trace.table_number == match scheduled.spec_table_number() {
        Some(table) => Some(table.spec_value()),
        None => None::<u16>,
    }
    &&& trace.publication_status@ == publication_label(scheduled.publication_status)
    &&& trace.round_activity@ == activity_label(scheduled.round_activity)
}

/// The result trace records the result and its games.
pub open spec fn result_traced(trace: MatchResultTrace, result: MatchResult) -> bool {
    &&& trace.match_id@ == result.spec_match_id()
    &&& trace.games@.len() == result.spec_games().len()
    &&& forall|g: int| 0 <= g < result.spec_games().len() ==> {
        let game = result.spec_games()[g];
        &&& (#[trigger] trace.games@[g]).game_number == game.game_number.spec_value()
        &&& trace.games@[g].home_points == game.home_points.spec_value()
        &&& trace.games@[g].away_points == game.away_points.spec_value()
    }
    &&& trace.home_games_won == result.spec_home_games_won()
    &&& trace.away_games_won == result.spec_away_games_won()
    &&& trace.winner_entrant_id@ == result.spec_winner_id()
    &&& trace.entered_at_unix_milliseconds == result.spec_entered_at() as u128
    &&& trace.corrected_at_unix_milliseconds == match result.spec_corrected_at() {
        Some(at) => Some(at as u128),
        None => None::<u128>,
    }
    &&& trace.revision == result.spec_revision()
}

fn owned(id: &EntrantId) -> (text: String)
    ensures
        text@ == id@,
{
    String::from_str(id.as_str())
}

fn state_text(state: TournamentState) -> (text: String)
    ensures
        text@ == state_label(state),
{
    match state {
        TournamentState::Draft => String::from_str("draft"),
        TournamentState::Started => String::from_str("started"),
    }
}

fn format_text(format: MatchFormat) -> (text: String)
    ensures
        text@ == format_label(format),
{
    match format {
        MatchFormat::BestOfThree => String::from_str("best_of_three"),
        MatchFormat::BestOfFive => String::from_str("best_of_five"),
    }
}

fn publication_text(status: MatchPublicationStatus) -> (text: String)
    ensures
        text@ == publication_label(status),
{
    match status {
        MatchPublicationStatus::Draft => String::from_str("draft"),
        MatchPublicationStatus::Published => String::from_str("published"),
    }
}

fn activity_text(activity: RoundActivity) -> (text: String)
    ensures
        text@ == activity_label(activity),
{
    match activity {
        RoundActivity::Active => String::from_str("active"),
        RoundActivity::Inactive => String::from_str("inactive"),
    }
}

fn scheduled_match(value: &ScheduledMatch) -> (trace: ScheduledMatchTrace)
    ensures
        scheduled_traced(trace, *value),
{
    let table_number = match value.table_number() {
        Some(table) => Some(table.value()),
        None => None,
    };
    ScheduledMatchTrace {
        match_id: owned(&value.match_id),
        home_entrant_id: owned(&value.home_entrant_id),
        away_entrant_id: owned(&value.away_entrant_id),
        table_number,
        publication_status: publication_text(value.publication_status),
        round_activity: activity_text(value.round_activity),
    }
}

fn match_result(result: &MatchResult) -> (trace: MatchResultTrace)
    ensures
        result_traced(trace, *result),
{
    let games = result.games();
    let mut game_traces: Vec<GameScoreTrace> = Vec::new();
    let mut g: usize = 0;
    while g < games.len()
        invariant
            g <= games@.len(),
            games@ == result.spec_games(),
            game_traces@.len() == g,
            forall|k: int| 0 <= k < g ==> {
                let game = games@[k];
                &&& (#[trigger] game_traces@[k]).game_number == game.game_number.spec_value()
                &&& game_traces@[k].home_points == game.home_points.spec_value()
                &&& game_traces@[k].away_points == game.away_points.spec_value()
            },
        decreases games@.len() - g,
    {
        let game: GameScore = games[g];
        game_traces.push(
            GameScoreTrace {
                game_number: game.game_number.value(),
                home_points: game.home_points.value(),
                away_points: game.away_points.value(),
            },
        );
        g = g + 1;
    }
    let corrected_at_unix_milliseconds = match result.corrected_at_unix_milliseconds() {
        Some(at) => Some(at as u128),
        None => None,
    };
    MatchResultTrace {
        match_id: owned(result.match_id()),
        games: game_traces,
        home_games_won: result.home_games_won().value(),
        away_games_won: result.away_games_won().value(),
        winner_entrant_id: owned(result.winner_id()),
        entered_at_unix_milliseconds: result.entered_at_unix_milliseconds() as u128,
        corrected_at_unix_milliseconds,
        revision: result.revision().value(),
    }
}

/// The standings, ranked from one in their order.
fn standings(values: &[ContestantStanding]) -> (trace: Vec<StandingTrace>)
    ensures
        standings_traced(trace@, values@),
{
    let mut trace: Vec<StandingTrace> = Vec::new();
    let mut i: usize = 0;
    while i < values.len()
        invariant
            i <= values@.len(),
            trace@.len() == i,
            forall|k: int| 0 <= k < i ==> standing_traced(#[trigger] trace@[k], values@[k], k + 1),
        decreases values@.len() - i,
    {
        let standing = &values[i];
        trace.push(
            StandingTrace {
                rank: i + 1,
                entrant_id: owned(&standing.entrant_id),
                performance_score_scaled: standing.performance_score.scaled_value(),
                matches_played: standing.matches_played,
                matches_won: standing.matches_won,
                matches_lost: standing.matches_lost,
                games_won: standing.games_won,
                games_lost: standing.games_lost,
                game_difference: standing.game_difference,
                points_won: standing.points_won,
                points_lost: standing.points_lost,
                point_difference: standing.point_difference,
                opponent_score_sum_scaled: standing.opponent_score_sum.scaled_value(),
                bye_count: standing.bye_count,
            },
        );
        i = i + 1;
    }
    trace
}

/// The trace of one round: its pairing calculation, matches, results and
/// bye, the standings before it and, for a completed round, after it.
fn round_trace(
    round_number: u16,
    pairing_request: &PairingSnapshot,
    proposal: &PairingProposal,
    scheduled_matches: &Vec<ScheduledMatch>,
    results: &Vec<MatchResult>,
    bye: &Option<EntrantId>,
    standings_before: &[ContestantStanding],
    standings_after: Option<&[ContestantStanding]>,
) -> (outcome: Result<RoundTrace, SimulationTraceError>)
    ensures
        outcome matches Ok(trace) ==> {
            &&& trace.round_number == round_number
            &&& trace.pairing.proposal.policy_version@ == version_label(proposal.policy_version)
            &&& trace.pairing.relaxation_graphs@.len() == 3
            &&& trace.scheduled_matches@.len() == scheduled_matches@.len()
            &&& forall|i: int| 0 <= i < scheduled_matches@.len() ==> scheduled_traced(
                #[trigger] trace.scheduled_matches@[i],
                scheduled_matches@[i],
            )
            &&& trace.results@.len() == results@.len()
            &&& forall|i: int| 0 <= i < results@.len() ==> result_traced(#[trigger] trace.results@[i], results@[i])
            &&& match *bye {
                Some(id) => trace.bye_entrant_id matches Some(text) && text@ == id@,
                None => trace.bye_entrant_id is None,
            }
            &&& standings_traced(trace.standings_before_round@, standings_before@)
            &&& match standings_after {
                Some(after) => trace.standings_after_round matches Some(traced) && standings_traced(traced@, after@),
                None => trace.standings_after_round is None,
            }
        },
        outcome matches Err(e) ==> e is Pairing,
{
    let pairing = match pairing_calculation(pairing_request, proposal) {
        Ok(pairing) => pairing,
        Err(error) => return Err(SimulationTraceError::Pairing(error)),
    };
    let mut scheduled_traces: Vec<ScheduledMatchTrace> = Vec::new();
    let mut i: usize = 0;
    while i < scheduled_matches.len()
        invariant
            i <= scheduled_matches@.len(),
            scheduled_traces@.len() == i,
            forall|k: int| 0 <= k < i ==> scheduled_traced(#[trigger] scheduled_traces@[k], scheduled_matches@[k]),
        decreases scheduled_matches@.len() - i,
    {
        scheduled_traces.push(scheduled_match(&scheduled_matches[i]));
        i = i + 1;
    }
    let mut result_traces: Vec<MatchResultTrace> = Vec::new();
    let mut r: usize = 0;
    while r < results.len()
        invariant
            r <= results@.len(),
            result_traces@.len() == r,
            forall|k: int| 0 <= k < r ==> result_traced(#[trigger] result_traces@[k], results@[k]),
        decreases results@.len() - r,
    {
        result_traces.push(match_result(&results[r]));
        r = r + 1;
    }
    let bye_entrant_id = match bye {
        Some(id) => Some(owned(id)),
        None => None,
    };
    let standings_after_round = match standings_after {
        Some(after) => Some(standings(after)),
        None => None,
    };
    Ok(
        RoundTrace {
            round_number,
            pairing,
            scheduled_matches: scheduled_traces,
            results: result_traces,
            bye_entrant_id,
            standings_before_round: standings(standings_before),
            standings_after_round,
        },
    )
}

/// The entrant with whether it is active.
fn entrant_trace(application: &TournamentApplication, entrant: &TournamentEntrant) -> (trace: EntrantTrace)
    ensures
        trace.entrant_id@ == entrant.entrant_id@,
        trace.name@ == entrant.name@,
        trace.club_id@ == entrant.club_id@,
        trace.club_name@ == entrant.club_name@,
        trace.starting_elo == entrant.starting_elo.0,
        trace.active == application.spec_active_ids().contains(entrant.entrant_id@),
{
    EntrantTrace {
        entrant_id: owned(&entrant.entrant_id),
        name: entrant.name.clone(),
        club_id: owned(&entrant.club_id),
        club_name: entrant.club_name.clone(),
        starting_elo: entrant.starting_elo.value(),
        active: application.is_entrant_active(&entrant.entrant_id),
    }
}

impl TournamentApplication {
    /// A full developer trace of the application: exact historical pairing
    /// requests, every relaxation graph, published matches, individual game
    /// scores and standings.
    pub fn simulation_trace(&self) -> (outcome: Result<SimulationTrace, SimulationTraceError>)
        ensures
            outcome matches Ok(trace) ==> self.traced_by(trace, None),
            self.spec_completed_rounds().len() == 0 && self.spec_active_round() is None
                && self.spec_pending_proposal() is None ==> outcome is Ok,
    {
        self.build_simulation_trace(None)
    }

    /// The developer trace of results generated from `run_seed`.
    pub fn simulation_trace_with_result_seed(&self, run_seed: u64) -> (outcome: Result<
        SimulationTrace,
        SimulationTraceError,
    >)
        ensures
            outcome matches Ok(trace) ==> self.traced_by(trace, Some(run_seed)),
            self.spec_completed_rounds().len() == 0 && self.spec_active_round() is None
                && self.spec_pending_proposal() is None ==> outcome is Ok,
    {
        self.build_simulation_trace(Some(run_seed))
    }

    /// The trace describes the application: its tournament, entrants, rounds
    /// in order, preview and current standings, under the seed given.
    pub open spec fn traced_by(&self, trace: SimulationTrace, run_seed: Option<u64>) -> bool {
        &&& trace.schema_version == 2
        &&& trace.simulation.run_seed == run_seed
        &&& match run_seed {
            Some(_) => trace.simulation.result_generator matches Some(name) && name@ == seeded_generator_label(),
            None => trace.simulation.result_generator is None,
        }
        &&& trace.tournament.tournament_id@ == self.spec_tournament().spec_id()
        &&& trace.tournament.state@ == state_label(self.spec_tournament().spec_state())
        &&& trace.tournament.match_format@ == format_label(self.spec_tournament().spec_match_format())
        &&& trace.tournament.table_count == self.spec_tournament().spec_table_count().spec_value()
        &&& trace.tournament.maximum_round_count == self.spec_tournament().spec_maximum_round_count().spec_value()
        &&& trace.entrants@.len() == self.spec_entrants().len()
        &&& forall|i: int| 0 <= i < self.spec_entrants().len() ==> {
            &&& (#[trigger] trace.entrants@[i]).entrant_id@ == self.spec_entrants()[i].entrant_id@
            &&& trace.entrants@[i].active == self.spec_active_ids().contains(self.spec_entrants()[i].entrant_id@)
        }
        &&& trace.completed_rounds@.len() == self.spec_completed_rounds().len()
        &&& forall|i: int| 0 <= i < self.spec_completed_rounds().len() ==> {
            &&& (#[trigger] trace.completed_rounds@[i]).round_number
                == self.spec_completed_rounds()[i].round_number.spec_value()
            &&& trace.completed_rounds@[i].results@.len() == self.spec_completed_rounds()[i].results@.len()
            &&& trace.completed_rounds@[i].scheduled_matches@.len()
                == self.spec_completed_rounds()[i].scheduled_matches@.len()
            &&& trace.completed_rounds@[i].standings_after_round is Some
        }
        &&& trace.active_round is Some == self.spec_active_round() is Some
        &&& trace.pending_pairing is Some == self.spec_pending_proposal() is Some
        &&& standings_traced(trace.current_standings@, self.spec_standings())
    }

    fn build_simulation_trace(&self, run_seed: Option<u64>) -> (outcome: Result<SimulationTrace, SimulationTraceError>)
        ensures
            outcome matches Ok(trace) ==> self.traced_by(trace, run_seed),
            self.spec_completed_rounds().len() == 0 && self.spec_active_round() is None
                && self.spec_pending_proposal() is None ==> outcome is Ok,
    {
        let rounds = self.completed_rounds.as_slice();
        let mut completed_rounds: Vec<RoundTrace> = Vec::new();
        let mut index: usize = 0;
        while index < rounds.len()
            invariant
                index <= rounds@.len(),
                rounds@ == self.spec_completed_rounds(),
                completed_rounds@.len() == index,
                forall|k: int| 0 <= k < index ==> {
                    &&& (#[trigger] completed_rounds@[k]).round_number == rounds@[k].round_number.spec_value()
                    &&& completed_rounds@[k].results@.len() == rounds@[k].results@.len()
                    &&& completed_rounds@[k].scheduled_matches@.len() == rounds@[k].scheduled_matches@.len()
                    &&& completed_rounds@[k].standings_after_round is Some
                },
            decreases rounds@.len() - index,
        {
            let history_before = vstd::slice::slice_subrange(rounds, 0, index);
            let history_after = vstd::slice::slice_subrange(rounds, 0, index + 1);
            let before = match calculate_standings(self.entrants.as_slice(), history_before) {
                Ok(before) => before,
                Err(error) => return Err(SimulationTraceError::Application(error)),
            };
            let after = match calculate_standings(self.entrants.as_slice(), history_after) {
                Ok(after) => after,
                Err(error) => return Err(SimulationTraceError::Application(error)),
            };
            let round = &rounds[index];
            let trace = round_trace(
                round.round_number.value(),
                &round.pairing_request,
                &round.proposal,
                &round.scheduled_matches,
                &round.results,
                &round.bye,
                before.as_slice(),
                Some(after.as_slice()),
            )?;
            completed_rounds.push(trace);
            index = index + 1;
        }
        let active_round = match &self.active_round {
            Some(round) => Some(
                round_trace(
                    round.round_number.value(),
                    &round.pairing_request,
                    &round.proposal,
                    &round.scheduled_matches,
                    &round.results,
                    &round.bye,
                    self.standings.as_slice(),
                    None,
                )?,
            ),
            None => None,
        };
        let pending_pairing = match &self.pending_pairing {
            Some(pending) => match pairing_calculation(&pending.request, &pending.proposal) {
                Ok(trace) => Some(trace),
                Err(error) => return Err(SimulationTraceError::Pairing(error)),
            },
            None => None,
        };
        let result_generator = match run_seed {
            Some(_) => Some(String::from_str("elo_match_outcome_with_generated_games_v2")),
            None => None,
        };
        let mut entrants: Vec<EntrantTrace> = Vec::new();
        let mut e: usize = 0;
        while e < self.entrants.len()
            invariant
                e <= self.entrants@.len(),
                entrants@.len() == e,
                forall|k: int| 0 <= k < e ==> {
                    &&& (#[trigger] entrants@[k]).entrant_id@ == self.entrants@[k].entrant_id@
                    &&& entrants@[k].active == self.spec_active_ids().contains(self.entrants@[k].entrant_id@)
                },
            decreases self.entrants@.len() - e,
        {
            entrants.push(entrant_trace(self, &self.entrants[e]));
            e = e + 1;
        }
        Ok(
            SimulationTrace {
                schema_version: 2,
                simulation: SimulationMetadataTrace { result_generator, run_seed },
                tournament: TournamentTrace {
                    tournament_id: String::from_str(self.tournament.id().as_str()),
                    state: state_text(self.tournament.state()),
                    match_format: format_text(self.tournament.match_format()),
                    table_count: self.tournament.table_count().value(),
                    maximum_round_count: self.tournament.maximum_round_count().value(),
                },
                entrants,
                completed_rounds,
                active_round,
                pending_pairing,
                current_standings: standings(self.standings.as_slice()),
            },
        )
    }
}

} // verus!
