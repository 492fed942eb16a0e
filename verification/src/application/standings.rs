//! Standings replayed from the completed rounds.
use vstd::prelude::*;

use crate::identity::{EntrantId, lemma_text_le_transitive, lemma_text_order_antisymmetric, text_lt};
use crate::pairing::algorithms::blossom_v1::PerformanceScore;
use crate::results::{GameScore, MatchResult, MatchSide};
use crate::scheduling::ScheduledMatch;

use super::scoring::{EloExpectationDeltaV1, actual_home_score, expected_home_score};
use super::standing_accumulator::{StandingAccumulator, point_total};
use super::{CompletedRound, TournamentApplicationError, TournamentEntrant};

verus! {

#[derive(Clone, Debug, PartialEq, Eq)]
pub struct ContestantStanding {
    pub entrant_id: EntrantId,
    pub performance_score: PerformanceScore,
    pub matches_played: u32,
    pub matches_won: u32,
    pub matches_lost: u32,
    pub games_won: u32,
    pub games_lost: u32,
    pub game_difference: i32,
    pub points_won: u32,
    pub points_lost: u32,
    pub point_difference: i32,
    pub opponent_score_sum: PerformanceScore,
    pub bye_count: u32,
}

impl ContestantStanding {
    /// A copy with the same contents.
    pub fn duplicate(&self) -> (copy: Self)
        ensures
            copy.entrant_id@ == self.entrant_id@,
            copy.performance_score == self.performance_score,
            copy.matches_played == self.matches_played,
            copy.matches_won == self.matches_won,
            copy.matches_lost == self.matches_lost,
            copy.games_won == self.games_won,
            copy.games_lost == self.games_lost,
            copy.game_difference == self.game_difference,
            copy.points_won == self.points_won,
            copy.points_lost == self.points_lost,
            copy.point_difference == self.point_difference,
            copy.opponent_score_sum == self.opponent_score_sum,
            copy.bye_count == self.bye_count,
    {
        ContestantStanding {
            entrant_id: self.entrant_id.duplicate(),
            performance_score: self.performance_score,
            matches_played: self.matches_played,
            matches_won: self.matches_won,
            matches_lost: self.matches_lost,
            games_won: self.games_won,
            games_lost: self.games_lost,
            game_difference: self.game_difference,
            points_won: self.points_won,
            points_lost: self.points_lost,
            point_difference: self.point_difference,
            opponent_score_sum: self.opponent_score_sum,
            bye_count: self.bye_count,
        }
    }
}

/// The accumulator's game and point differences fit an `i32`.
pub open spec fn differences_fit(accumulator: StandingAccumulator) -> bool {
    &&& i32::MIN <= accumulator.games_won - accumulator.games_lost <= i32::MAX
    &&& i32::MIN <= accumulator.points_won - accumulator.points_lost <= i32::MAX
}

/// The starting ELO of the last entrant with the id, 0 when none has it.
pub open spec fn last_elo(entrants: Seq<TournamentEntrant>, id: Seq<char>) -> u32
    decreases entrants.len(),
{
    if entrants.len() == 0 {
        0
    } else if entrants.last().entrant_id@ == id {
        entrants.last().starting_elo.0
    } else {
        last_elo(entrants.drop_last(), id)
    }
}

/// The first scheduled match with the id.
pub open spec fn scheduled_for(matches: Seq<ScheduledMatch>, match_id: Seq<char>) -> Option<ScheduledMatch>
    decreases matches.len(),
{
    if matches.len() == 0 {
        None
    } else if matches[0].match_id@ == match_id {
        Some(matches[0])
    } else {
        scheduled_for(matches.drop_first(), match_id)
    }
}

/// The home performance delta of a result: the actual home score minus the
/// expected one from the two entrants' starting ELO.
pub open spec fn home_delta(entrants: Seq<TournamentEntrant>, scheduled: ScheduledMatch, result: MatchResult) -> int {
    let winner = if result.spec_winner_id() == scheduled.home_entrant_id@ {
        MatchSide::Home
    } else {
        MatchSide::Away
    };
    actual_home_score(winner) - expected_home_score(
        last_elo(entrants, scheduled.home_entrant_id@),
        last_elo(entrants, scheduled.away_entrant_id@),
    )
}

/// What one result adds to the entrant's totals: performance, matches
/// played and matches won.
pub open spec fn result_share(
    entrants: Seq<TournamentEntrant>,
    matches: Seq<ScheduledMatch>,
    result: MatchResult,
    id: Seq<char>,
) -> (int, int, int) {
    match scheduled_for(matches, result.spec_match_id()) {
        Some(s) => {
            let delta = home_delta(entrants, s, result);
            let home_won = result.spec_winner_id() == s.home_entrant_id@;
            let as_home = id == s.home_entrant_id@;
            let as_away = id == s.away_entrant_id@;
            (
                (if as_home { delta } else { 0 }) + (if as_away { -delta } else { 0 }),
                (if as_home { 1int } else { 0 }) + (if as_away { 1int } else { 0 }),
                (if as_home && home_won { 1int } else { 0 }) + (if as_away && !home_won { 1int } else { 0 }),
            )
        },
        None => (0, 0, 0),
    }
}

/// The totals that the results add up to for the entrant.
pub open spec fn results_share(
    entrants: Seq<TournamentEntrant>,
    matches: Seq<ScheduledMatch>,
    results: Seq<MatchResult>,
    id: Seq<char>,
) -> (int, int, int)
    decreases results.len(),
{
    if results.len() == 0 {
        (0, 0, 0)
    } else {
        let earlier = results_share(entrants, matches, results.drop_last(), id);
        let last = result_share(entrants, matches, results.last(), id);
        (earlier.0 + last.0, earlier.1 + last.1, earlier.2 + last.2)
    }
}

/// The entrant's performance, matches played and matches won over the rounds.
pub open spec fn history_share(entrants: Seq<TournamentEntrant>, rounds: Seq<CompletedRound>, id: Seq<char>) -> (
    int,
    int,
    int,
)
    decreases rounds.len(),
{
    if rounds.len() == 0 {
        (0, 0, 0)
    } else {
        let earlier = history_share(entrants, rounds.drop_last(), id);
        let last = results_share(entrants, rounds.last().scheduled_matches@, rounds.last().results@, id);
        (earlier.0 + last.0, earlier.1 + last.1, earlier.2 + last.2)
    }
}

/// The byes of the entrant over the rounds.
pub open spec fn history_byes(rounds: Seq<CompletedRound>, id: Seq<char>) -> int
    decreases rounds.len(),
{
    if rounds.len() == 0 {
        0
    } else {
        history_byes(rounds.drop_last(), id) + if rounds.last().bye matches Some(b) && b@ == id {
            1int
        } else {
            0int
        }
    }
}

/// One side's points in each game, in game order.
pub open spec fn game_points(games: Seq<GameScore>, home: bool) -> Seq<u16> {
    games.map_values(|game: GameScore| if home { game.home_points.spec_value() } else { game.away_points.spec_value() })
}

/// What one result adds to the entrant's games won and lost and points won
/// and lost.
pub open spec fn result_games(matches: Seq<ScheduledMatch>, result: MatchResult, id: Seq<char>) -> (int, int, int, int) {
    match scheduled_for(matches, result.spec_match_id()) {
        Some(s) => {
            let home_games = result.spec_home_games_won() as int;
            let away_games = result.spec_away_games_won() as int;
            let home_points = point_total(game_points(result.spec_games(), true));
            let away_points = point_total(game_points(result.spec_games(), false));
            let as_home = id == s.home_entrant_id@;
            let as_away = id == s.away_entrant_id@;
            (
                (if as_home { home_games } else { 0 }) + (if as_away { away_games } else { 0 }),
                (if as_home { away_games } else { 0 }) + (if as_away { home_games } else { 0 }),
                (if as_home { home_points } else { 0 }) + (if as_away { away_points } else { 0 }),
                (if as_home { away_points } else { 0 }) + (if as_away { home_points } else { 0 }),
            )
        },
        None => (0, 0, 0, 0),
    }
}

/// The games and points that the results add up to for the entrant.
pub open spec fn results_games(matches: Seq<ScheduledMatch>, results: Seq<MatchResult>, id: Seq<char>) -> (
    int,
    int,
    int,
    int,
)
    decreases results.len(),
{
    if results.len() == 0 {
        (0, 0, 0, 0)
    } else {
        let earlier = results_games(matches, results.drop_last(), id);
        let last = result_games(matches, results.last(), id);
        (earlier.0 + last.0, earlier.1 + last.1, earlier.2 + last.2, earlier.3 + last.3)
    }
}

/// The entrant's games won and lost and points won and lost over the rounds.
pub open spec fn history_games(rounds: Seq<CompletedRound>, id: Seq<char>) -> (int, int, int, int)
    decreases rounds.len(),
{
    if rounds.len() == 0 {
        (0, 0, 0, 0)
    } else {
        let earlier = history_games(rounds.drop_last(), id);
        let last = results_games(rounds.last().scheduled_matches@, rounds.last().results@, id);
        (earlier.0 + last.0, earlier.1 + last.1, earlier.2 + last.2, earlier.3 + last.3)
    }
}

/// The replayed performance of the opponent that the entrant met in the
/// result, twice over when it met itself.
pub open spec fn result_opponent_score(
    entrants: Seq<TournamentEntrant>,
    rounds: Seq<CompletedRound>,
    matches: Seq<ScheduledMatch>,
    result: MatchResult,
    id: Seq<char>,
) -> int {
    match scheduled_for(matches, result.spec_match_id()) {
        Some(s) => (if id == s.home_entrant_id@ { history_share(entrants, rounds, s.away_entrant_id@).0 } else { 0 })
            + (if id == s.away_entrant_id@ { history_share(entrants, rounds, s.home_entrant_id@).0 } else { 0 }),
        None => 0,
    }
}

/// The replayed performance of the entrant's opponents over the results.
pub open spec fn results_opponent_score(
    entrants: Seq<TournamentEntrant>,
    rounds: Seq<CompletedRound>,
    matches: Seq<ScheduledMatch>,
    results: Seq<MatchResult>,
    id: Seq<char>,
) -> int
    decreases results.len(),
{
    if results.len() == 0 {
        0
    } else {
        results_opponent_score(entrants, rounds, matches, results.drop_last(), id) + result_opponent_score(
            entrants,
            rounds,
            matches,
            results.last(),
            id,
        )
    }
}

/// The opponent strength of the entrant: the replayed performance over all
/// `rounds` of every opponent it met in the rounds `done`.
pub open spec fn opponent_strength(
    entrants: Seq<TournamentEntrant>,
    rounds: Seq<CompletedRound>,
    done: Seq<CompletedRound>,
    id: Seq<char>,
) -> int
    decreases done.len(),
{
    if done.len() == 0 {
        0
    } else {
        opponent_strength(entrants, rounds, done.drop_last(), id) + results_opponent_score(
            entrants,
            rounds,
            done.last().scheduled_matches@,
            done.last().results@,
            id,
        )
    }
}

/// `a` ranks above `b`: higher performance, then more wins, then stronger
/// opponents, then higher starting ELO, then the smaller id.
pub open spec fn standing_precedes(entrants: Seq<TournamentEntrant>, a: ContestantStanding, b: ContestantStanding) -> bool {
    let (pa, pb) = (a.performance_score.spec_scaled(), b.performance_score.spec_scaled());
    let (oa, ob) = (a.opponent_score_sum.spec_scaled(), b.opponent_score_sum.spec_scaled());
    let (ea, eb) = (last_elo(entrants, a.entrant_id@), last_elo(entrants, b.entrant_id@));
    ||| pa > pb
    ||| (pa == pb && a.matches_won > b.matches_won)
    ||| (pa == pb && a.matches_won == b.matches_won && oa > ob)
    ||| (pa == pb && a.matches_won == b.matches_won && oa == ob && ea > eb)
    ||| (pa == pb && a.matches_won == b.matches_won && oa == ob && ea == eb && text_lt(a.entrant_id@, b.entrant_id@))
}

/// No standing ranks above one listed before it.
pub open spec fn standings_in_order(entrants: Seq<TournamentEntrant>, standings: Seq<ContestantStanding>) -> bool {
    forall|i: int, j: int| 0 <= i < j < standings.len() ==> !standing_precedes(
        entrants,
        #[trigger] standings[j],
        #[trigger] standings[i],
    )
}

/// The standing holds the entrant's replayed totals.
pub open spec fn standing_replays(entrants: Seq<TournamentEntrant>, rounds: Seq<CompletedRound>, standing: ContestantStanding) -> bool {
    let share = history_share(entrants, rounds, standing.entrant_id@);
    &&& standing.performance_score.spec_scaled() == share.0
    &&& standing.matches_played == share.1
    &&& standing.matches_won == share.2
    &&& standing.matches_won + standing.matches_lost == standing.matches_played
    &&& standing.bye_count == history_byes(rounds, standing.entrant_id@)
    &&& standing.game_difference == standing.games_won - standing.games_lost
    &&& standing.point_difference == standing.points_won - standing.points_lost
    &&& standing.opponent_score_sum.spec_scaled() == opponent_strength(entrants, rounds, rounds, standing.entrant_id@)
    &&& standing.games_won == history_games(rounds, standing.entrant_id@).0
    &&& standing.games_lost == history_games(rounds, standing.entrant_id@).1
    &&& standing.points_won == history_games(rounds, standing.entrant_id@).2
    &&& standing.points_lost == history_games(rounds, standing.entrant_id@).3
}

/// The standings are the replayed standings of the entrants: ranked in
/// order, one per registered entrant and for no one else, each holding the
/// entrant's replayed totals.
pub open spec fn standings_replayed(
    entrants: Seq<TournamentEntrant>,
    rounds: Seq<CompletedRound>,
    standings: Seq<ContestantStanding>,
) -> bool {
    &&& standings_in_order(entrants, standings)
    &&& forall|i: int, j: int| 0 <= i < j < standings.len() ==> (#[trigger] standings[i]).entrant_id@
        != (#[trigger] standings[j]).entrant_id@
    &&& forall|i: int| 0 <= i < standings.len() ==> registered(entrants, (#[trigger] standings[i]).entrant_id@)
    &&& forall|i: int| 0 <= i < entrants.len() ==> has_standing(standings, (#[trigger] entrants[i]).entrant_id@)
    &&& forall|i: int| 0 <= i < standings.len() ==> standing_replays(entrants, rounds, #[trigger] standings[i])
}

/// Some standing carries the id.
pub open spec fn has_standing(standings: Seq<ContestantStanding>, id: Seq<char>) -> bool {
    exists|j: int| 0 <= j < standings.len() && (#[trigger] standings[j]).entrant_id@ == id
}

/// Some entrant carries the id.
pub open spec fn registered(entrants: Seq<TournamentEntrant>, id: Seq<char>) -> bool {
    exists|i: int| 0 <= i < entrants.len() && (#[trigger] entrants[i]).entrant_id@ == id
}

proof fn lemma_precedes_transitive(
    entrants: Seq<TournamentEntrant>,
    a: ContestantStanding,
    b: ContestantStanding,
    c: ContestantStanding,
)
    requires
        standing_precedes(entrants, a, b),
        standing_precedes(entrants, b, c),
    ensures
        standing_precedes(entrants, a, c),
{
    lemma_text_order_antisymmetric(a.entrant_id@, b.entrant_id@);
    lemma_text_order_antisymmetric(b.entrant_id@, c.entrant_id@);
    if text_lt(a.entrant_id@, b.entrant_id@) && text_lt(b.entrant_id@, c.entrant_id@) {
        lemma_text_le_transitive(a.entrant_id@, b.entrant_id@, c.entrant_id@);
    }
}

proof fn lemma_precedes_asymmetric(entrants: Seq<TournamentEntrant>, a: ContestantStanding, b: ContestantStanding)
    ensures
        !(standing_precedes(entrants, a, b) && standing_precedes(entrants, b, a)),
{
    lemma_text_order_antisymmetric(a.entrant_id@, b.entrant_id@);
}

/// The starting ELO of the last entrant with the id.
fn elo_of(entrants: &[TournamentEntrant], id: &EntrantId) -> (elo: Option<u32>)
    ensures
        elo matches Some(value) ==> registered(entrants@, id@) && value == last_elo(entrants@, id@),
        elo is None ==> !registered(entrants@, id@),
{
    let mut i: usize = entrants.len();
    proof {
        assert(entrants@.subrange(0, i as int) =~= entrants@);
    }
    while i > 0
        invariant
            i <= entrants@.len(),
            forall|j: int| i <= j < entrants@.len() ==> (#[trigger] entrants@[j]).entrant_id@ != id@,
            last_elo(entrants@, id@) == last_elo(entrants@.subrange(0, i as int), id@),
        decreases i,
    {
        proof {
            assert(entrants@.subrange(0, i as int).drop_last() =~= entrants@.subrange(0, i - 1));
        }
        if entrants[i - 1].entrant_id.same_as(id) {
            return Some(entrants[i - 1].starting_elo.value());
        }
        i = i - 1;
    }
    None
}

/// The first scheduled match with the id.
fn find_scheduled<'a>(matches: &'a Vec<ScheduledMatch>, match_id: &crate::identity::MatchId) -> (found: Option<
    &'a ScheduledMatch,
>)
    ensures
        match found {
            Some(s) => scheduled_for(matches@, match_id@) == Some(*s),
            None => scheduled_for(matches@, match_id@) is None,
        },
{
    let mut i: usize = 0;
    proof {
        assert(matches@.subrange(0, matches@.len() as int) =~= matches@);
    }
    while i < matches.len()
        invariant
            i <= matches@.len(),
            scheduled_for(matches@, match_id@) == scheduled_for(matches@.subrange(i as int, matches@.len() as int), match_id@),
        decreases matches@.len() - i,
    {
        proof {
            assert(matches@.subrange(i as int, matches@.len() as int).drop_first() =~= matches@.subrange(
                i + 1,
                matches@.len() as int,
            ));
        }
        if matches[i].match_id.same_as(match_id) {
            return Some(&matches[i]);
        }
        i = i + 1;
    }
    None
}

/// The index of the accumulator of the entrant.
fn accumulator_index(accumulators: &Vec<StandingAccumulator>, id: &EntrantId) -> (index: Option<usize>)
    ensures
        index matches Some(i) ==> i < accumulators@.len() && accumulators@[i as int].entrant_id@ == id@,
        index is None ==> forall|i: int| 0 <= i < accumulators@.len() ==> (#[trigger] accumulators@[i]).entrant_id@ != id@,
{
    let mut i: usize = 0;
    while i < accumulators.len()
        invariant
            i <= accumulators@.len(),
            forall|j: int| 0 <= j < i ==> (#[trigger] accumulators@[j]).entrant_id@ != id@,
        decreases accumulators@.len() - i,
    {
        if accumulators[i].entrant_id.same_as(id) {
            return Some(i);
        }
        i = i + 1;
    }
    None
}

fn unknown_entrant(entrant_id: &EntrantId) -> (error: TournamentApplicationError)
    ensures
        error matches TournamentApplicationError::UnknownEntrantInRound { entrant_id: id } && id@ == entrant_id@,
{
    TournamentApplicationError::UnknownEntrantInRound { entrant_id: entrant_id.duplicate() }
}


/// The accumulator holds the entrant's totals over the finished rounds
/// `done`, the results `partial` of the current round with matches
/// `matches`, and the byes of `bye_rounds`.
pub open spec fn tracks(
    entrants: Seq<TournamentEntrant>,
    done: Seq<CompletedRound>,
    matches: Seq<ScheduledMatch>,
    partial: Seq<MatchResult>,
    bye_rounds: Seq<CompletedRound>,
    accumulator: StandingAccumulator,
) -> bool {
    let id = accumulator.entrant_id@;
    let before = history_share(entrants, done, id);
    let current = results_share(entrants, matches, partial, id);
    &&& accumulator.performance_score.spec_scaled() == before.0 + current.0
    &&& accumulator.matches_played == before.1 + current.1
    &&& accumulator.matches_won == before.2 + current.2
    &&& accumulator.matches_won + accumulator.matches_lost == accumulator.matches_played
    &&& accumulator.bye_count == history_byes(bye_rounds, id)
    &&& accumulator.opponent_score_sum.spec_scaled() == 0
    &&& {
        let games_before = history_games(done, id);
        let games_now = results_games(matches, partial, id);
        &&& accumulator.games_won == games_before.0 + games_now.0
        &&& accumulator.games_lost == games_before.1 + games_now.1
        &&& accumulator.points_won == games_before.2 + games_now.2
        &&& accumulator.points_lost == games_before.3 + games_now.3
    }
}

/// The accumulators carry distinct ids.
pub open spec fn distinct_ids(accumulators: Seq<StandingAccumulator>) -> bool {
    forall|i: int, j: int| 0 <= i < j < accumulators.len() ==> (#[trigger] accumulators[i]).entrant_id@
        != (#[trigger] accumulators[j]).entrant_id@
}

/// Records a result on the accumulator at `index`, the others untouched.
fn record_result_at(
    accumulators: &mut Vec<StandingAccumulator>,
    index: usize,
    games_won: u8,
    games_lost: u8,
    points_won: &Vec<u16>,
    points_lost: &Vec<u16>,
    won: bool,
    delta: PerformanceScore,
) -> (outcome: Result<(), TournamentApplicationError>)
    requires
        index < old(accumulators)@.len(),
    ensures
        final(accumulators)@.len() == old(accumulators)@.len(),
        forall|j: int| 0 <= j < old(accumulators)@.len() && j != index ==> final(accumulators)@[j] == old(accumulators)@[j],
        final(accumulators)@[index as int].entrant_id == old(accumulators)@[index as int].entrant_id,
        outcome matches Err(e) ==> e is StandingOverflow,
        ({
            let before = old(accumulators)@[index as int];
            &&& before.matches_played + 1 <= u32::MAX
            &&& before.matches_won + (if won { 1int } else { 0int }) <= u32::MAX
            &&& before.matches_lost + (if won { 0int } else { 1int }) <= u32::MAX
            &&& before.games_won + games_won <= u32::MAX
            &&& before.games_lost + games_lost <= u32::MAX
            &&& before.points_won + point_total(points_won@) <= u32::MAX
            &&& before.points_lost + point_total(points_lost@) <= u32::MAX
            &&& i64::MIN <= before.performance_score.spec_scaled() + delta.spec_scaled() <= i64::MAX
        }) ==> outcome is Ok,
        outcome is Ok ==> {
            let before = old(accumulators)@[index as int];
            let after = final(accumulators)@[index as int];
            &&& after.matches_played == before.matches_played + 1
            &&& after.matches_won == before.matches_won + if won { 1int } else { 0int }
            &&& after.matches_lost == before.matches_lost + if won { 0int } else { 1int }
            &&& after.performance_score.spec_scaled() == before.performance_score.spec_scaled() + delta.spec_scaled()
            &&& after.bye_count == before.bye_count
            &&& after.opponent_score_sum == before.opponent_score_sum
            &&& after.games_won == before.games_won + games_won
            &&& after.games_lost == before.games_lost + games_lost
            &&& after.points_won == before.points_won + point_total(points_won@)
            &&& after.points_lost == before.points_lost + point_total(points_lost@)
        },
{
    let mut accumulator = accumulators.remove(index);
    let outcome = accumulator.record_result(games_won, games_lost, points_won, points_lost, won, delta);
    accumulators.insert(index, accumulator);
    outcome
}

/// Records a bye on the accumulator at `index`, the others untouched.
fn record_bye_at(accumulators: &mut Vec<StandingAccumulator>, index: usize) -> (outcome: Result<(), TournamentApplicationError>)
    requires
        index < old(accumulators)@.len(),
    ensures
        final(accumulators)@.len() == old(accumulators)@.len(),
        forall|j: int| 0 <= j < old(accumulators)@.len() && j != index ==> final(accumulators)@[j] == old(accumulators)@[j],
        final(accumulators)@[index as int].entrant_id == old(accumulators)@[index as int].entrant_id,
        outcome matches Err(e) ==> e is StandingOverflow,
        old(accumulators)@[index as int].bye_count < u32::MAX ==> outcome is Ok,
        outcome is Ok ==> {
            let before = old(accumulators)@[index as int];
            let after = final(accumulators)@[index as int];
            &&& after.bye_count == before.bye_count + 1
            &&& after.matches_played == before.matches_played
            &&& after.matches_won == before.matches_won
            &&& after.matches_lost == before.matches_lost
            &&& after.performance_score == before.performance_score
            &&& after.games_won == before.games_won
            &&& after.games_lost == before.games_lost
            &&& after.points_won == before.points_won
            &&& after.points_lost == before.points_lost
            &&& after.opponent_score_sum == before.opponent_score_sum
            &&& after.games_won == before.games_won
            &&& after.games_lost == before.games_lost
            &&& after.points_won == before.points_won
            &&& after.points_lost == before.points_lost
        },
{
    let mut accumulator = accumulators.remove(index);
    let outcome = accumulator.record_bye();
    accumulators.insert(index, accumulator);
    outcome
}

/// Adds an opponent score on the accumulator at `index`, the others untouched.
fn add_opponent_at(accumulators: &mut Vec<StandingAccumulator>, index: usize, score: PerformanceScore) -> (outcome:
    Result<(), TournamentApplicationError>)
    requires
        index < old(accumulators)@.len(),
    ensures
        final(accumulators)@.len() == old(accumulators)@.len(),
        forall|j: int| 0 <= j < old(accumulators)@.len() && j != index ==> final(accumulators)@[j] == old(accumulators)@[j],
        outcome matches Err(e) ==> e is StandingOverflow,
        outcome is Ok ==> final(accumulators)@[index as int].opponent_score_sum.spec_scaled() == old(
            accumulators,
        )@[index as int].opponent_score_sum.spec_scaled() + score.spec_scaled(),
        i64::MIN <= old(accumulators)@[index as int].opponent_score_sum.spec_scaled() + score.spec_scaled() <= i64::MAX
            ==> outcome is Ok,
        ({
            let before = old(accumulators)@[index as int];
            let after = final(accumulators)@[index as int];
            &&& after.entrant_id == before.entrant_id
            &&& after.bye_count == before.bye_count
            &&& after.matches_played == before.matches_played
            &&& after.matches_won == before.matches_won
            &&& after.matches_lost == before.matches_lost
            &&& after.performance_score == before.performance_score
            &&& after.games_won == before.games_won
            &&& after.games_lost == before.games_lost
            &&& after.points_won == before.points_won
            &&& after.points_lost == before.points_lost
        }),
{
    let mut accumulator = accumulators.remove(index);
    let outcome = accumulator.add_opponent_score(score);
    accumulators.insert(index, accumulator);
    outcome
}

/// The points of one side in every game of the result.
fn side_points(result: &MatchResult, home: bool) -> (points: Vec<u16>)
    ensures
        points@ == game_points(result.spec_games(), home),
{
    let games = result.games();
    let mut points: Vec<u16> = Vec::new();
    let mut i: usize = 0;
    while i < games.len()
        invariant
            i <= games@.len(),
            games@ == result.spec_games(),
            points@.len() == i,
            forall|j: int| 0 <= j < i ==> #[trigger] points@[j] == (if home {
                games@[j].home_points.spec_value()
            } else {
                games@[j].away_points.spec_value()
            }),
        decreases games@.len() - i,
    {
        if home {
            points.push(games[i].home_points.value());
        } else {
            points.push(games[i].away_points.value());
        }
        i = i + 1;
    }
    proof {
        assert(points@ =~= game_points(result.spec_games(), home));
    }
    points
}

/// Replays one result: both entrants get the match, the winner the win,
/// and each side its performance delta.
fn replay_result(
    entrants: &[TournamentEntrant],
    matches: &Vec<ScheduledMatch>,
    result: &MatchResult,
    accumulators: &mut Vec<StandingAccumulator>,
) -> (outcome: Result<(), TournamentApplicationError>)
    requires
        distinct_ids(old(accumulators)@),
        covers_entrants(entrants@, old(accumulators)@),
    ensures
        final(accumulators)@.len() == old(accumulators)@.len(),
        forall|e: int| 0 <= e < old(accumulators)@.len() ==> (#[trigger] final(accumulators)@[e]).entrant_id == old(accumulators)@[e].entrant_id,
        outcome matches Err(e) ==> e is InvalidRoundHistory || e is UnknownEntrantInRound || e is StandingOverflow,
        outcome matches Err(e) && !(e is StandingOverflow) ==> !result_consistent(entrants@, matches@, *result),
        result_consistent(entrants@, matches@, *result) && (forall|e: int| 0 <= e < old(accumulators)@.len() ==> result_fits(
            entrants@,
            matches@,
            *result,
            #[trigger] old(accumulators)@[e],
        )) ==> outcome is Ok,
        outcome is Ok ==> forall|e: int| 0 <= e < old(accumulators)@.len() ==> {
            let before = old(accumulators)@[e];
            let after = #[trigger] final(accumulators)@[e];
            let share = result_share(entrants@, matches@, *result, before.entrant_id@);
            &&& after.performance_score.spec_scaled() == before.performance_score.spec_scaled() + share.0
            &&& after.matches_played == before.matches_played + share.1
            &&& after.matches_won == before.matches_won + share.2
            &&& after.matches_won + after.matches_lost == before.matches_won + before.matches_lost + share.1
            &&& after.bye_count == before.bye_count
            &&& after.opponent_score_sum == before.opponent_score_sum
            &&& {
                let games = result_games(matches@, *result, before.entrant_id@);
                &&& after.games_won == before.games_won + games.0
                &&& after.games_lost == before.games_lost + games.1
                &&& after.points_won == before.points_won + games.2
                &&& after.points_lost == before.points_lost + games.3
            }
        },
{
    let ghost start = accumulators@;
    let scheduled = match find_scheduled(matches, result.match_id()) {
        Some(scheduled) => scheduled,
        None => {
            return Err(TournamentApplicationError::InvalidRoundHistory { match_id: result.match_id().duplicate() });
        },
    };
    let home_elo = match elo_of(entrants, &scheduled.home_entrant_id) {
        Some(elo) => elo,
        None => return Err(unknown_entrant(&scheduled.home_entrant_id)),
    };
    let away_elo = match elo_of(entrants, &scheduled.away_entrant_id) {
        Some(elo) => elo,
        None => return Err(unknown_entrant(&scheduled.away_entrant_id)),
    };
    let winner = if result.winner_id().same_as(&scheduled.home_entrant_id) {
        MatchSide::Home
    } else if result.winner_id().same_as(&scheduled.away_entrant_id) {
        MatchSide::Away
    } else {
        return Err(unknown_entrant(result.winner_id()));
    };
    let delta = EloExpectationDeltaV1::calculate(
        crate::pairing::EloRating::new(home_elo),
        crate::pairing::EloRating::new(away_elo),
        winner,
    );
    let home_index = match accumulator_index(accumulators, &scheduled.home_entrant_id) {
        Some(index) => index,
        None => {
            proof {
                if registered(entrants@, scheduled.home_entrant_id@) {
                    lemma_registered_has_accumulator(entrants@, accumulators@, scheduled.home_entrant_id@);
                }
            }
            return Err(unknown_entrant(&scheduled.home_entrant_id));
        },
    };
    let away_index = match accumulator_index(accumulators, &scheduled.away_entrant_id) {
        Some(index) => index,
        None => {
            proof {
                if registered(entrants@, scheduled.away_entrant_id@) {
                    lemma_registered_has_accumulator(entrants@, accumulators@, scheduled.away_entrant_id@);
                }
            }
            return Err(unknown_entrant(&scheduled.away_entrant_id));
        },
    };
    let home_points = side_points(result, true);
    let away_points = side_points(result, false);
    let home_won = match winner {
        MatchSide::Home => true,
        MatchSide::Away => false,
    };
    proof {
        let s = *scheduled;
        assert(scheduled_for(matches@, result.spec_match_id()) == Some(s));
        if result_consistent(entrants@, matches@, *result) {
            assert(s.home_entrant_id@ != s.away_entrant_id@);
            assert(home_index != away_index);
            assert(result_share(entrants@, matches@, *result, s.home_entrant_id@).0 == delta.home.spec_scaled());
            assert(result_share(entrants@, matches@, *result, s.away_entrant_id@).0 == delta.away.spec_scaled());
        }
    }
    record_result_at(
        accumulators,
        home_index,
        result.home_games_won().value(),
        result.away_games_won().value(),
        &home_points,
        &away_points,
        home_won,
        delta.home,
    )?;
    let ghost middle = accumulators@;
    record_result_at(
        accumulators,
        away_index,
        result.away_games_won().value(),
        result.home_games_won().value(),
        &away_points,
        &home_points,
        !home_won,
        delta.away,
    )?;
    proof {
        let s = *scheduled;
        assert(scheduled_for(matches@, result.spec_match_id()) == Some(s));
        let d = home_delta(entrants@, s, *result);
        assert(delta.home.spec_scaled() == d);
        assert forall|e: int| 0 <= e < start.len() implies {
            let before = start[e];
            let after = #[trigger] accumulators@[e];
            let share = result_share(entrants@, matches@, *result, before.entrant_id@);
            &&& after.performance_score.spec_scaled() == before.performance_score.spec_scaled() + share.0
            &&& after.matches_played == before.matches_played + share.1
            &&& after.matches_won == before.matches_won + share.2
            &&& after.matches_won + after.matches_lost == before.matches_won + before.matches_lost + share.1
            &&& after.bye_count == before.bye_count
            &&& after.opponent_score_sum == before.opponent_score_sum
            &&& {
                let games = result_games(matches@, *result, before.entrant_id@);
                &&& after.games_won == before.games_won + games.0
                &&& after.games_lost == before.games_lost + games.1
                &&& after.points_won == before.points_won + games.2
                &&& after.points_lost == before.points_lost + games.3
            }
        } by {
            let id = start[e].entrant_id@;
            if e != home_index as int {
                assert(id != s.home_entrant_id@);
            }
            if e != away_index as int {
                assert(id != s.away_entrant_id@);
            }
            if home_index == away_index {
                assert(s.home_entrant_id@ == s.away_entrant_id@);
            } else {
                assert(s.home_entrant_id@ != s.away_entrant_id@);
            }
        }
    }
    Ok(())
}


/// Every accumulator tracks the rounds `done` completely.
pub open spec fn all_track(entrants: Seq<TournamentEntrant>, done: Seq<CompletedRound>, accumulators: Seq<StandingAccumulator>) -> bool {
    forall|e: int| 0 <= e < accumulators.len() ==> tracks(
        entrants,
        done,
        Seq::empty(),
        Seq::empty(),
        done,
        #[trigger] accumulators[e],
    )
}

/// Replays round `r`: its bye, then its results in order.
fn replay_round(
    entrants: &[TournamentEntrant],
    rounds: &[CompletedRound],
    r: usize,
    accumulators: &mut Vec<StandingAccumulator>,
) -> (outcome: Result<(), TournamentApplicationError>)
    requires
        r < rounds@.len(),
        distinct_ids(old(accumulators)@),
        all_track(entrants@, rounds@.subrange(0, r as int), old(accumulators)@),
        covers_entrants(entrants@, old(accumulators)@),
    ensures
        final(accumulators)@.len() == old(accumulators)@.len(),
        forall|e: int| 0 <= e < old(accumulators)@.len() ==> (#[trigger] final(accumulators)@[e]).entrant_id == old(accumulators)@[e].entrant_id,
        distinct_ids(final(accumulators)@),
        outcome matches Err(e) ==> e is InvalidRoundHistory || e is UnknownEntrantInRound || e is StandingOverflow,
        outcome matches Err(e) && !(e is StandingOverflow) ==> !round_consistent(entrants@, rounds@[r as int]),
        round_consistent(entrants@, rounds@[r as int]) && round_replay_fits(entrants@, rounds@, r as int)
            && (forall|e: int| 0 <= e < old(accumulators)@.len() ==> registered(entrants@, (#[trigger] old(accumulators)@[e]).entrant_id@))
            ==> outcome is Ok,
        outcome is Ok ==> all_track(entrants@, rounds@.subrange(0, r + 1), final(accumulators)@),
{
    let ghost start = accumulators@;
    let ghost done = rounds@.subrange(0, r as int);
    let ghost upto = rounds@.subrange(0, r + 1);
    let round = &rounds[r];
    proof {
        assert(upto.drop_last() =~= done);
        assert(upto.last() == *round);
    }
    match &round.bye {
        Some(bye) => {
            let index = match accumulator_index(accumulators, bye) {
                Some(index) => index,
                None => {
                    proof {
                        if registered(entrants@, bye@) {
                            lemma_registered_has_accumulator(entrants@, accumulators@, bye@);
                        }
                    }
                    return Err(unknown_entrant(bye));
                },
            };
            proof {
                if round_consistent(entrants@, rounds@[r as int]) && round_replay_fits(entrants@, rounds@, r as int)
                    && (forall|e: int| 0 <= e < start.len() ==> registered(entrants@, (#[trigger] start[e]).entrant_id@)) {
                    let id = bye@;
                    let i = choose|i: int| 0 <= i < entrants@.len() && (#[trigger] entrants@[i]).entrant_id@ == id;
                    assert(replayed_totals_fit(entrants@, rounds@, r as int, 0, entrants@[i].entrant_id@));
                    assert(tracks(entrants@, done, Seq::empty(), Seq::empty(), done, start[index as int]));
                }
            }
            record_bye_at(accumulators, index)?;
        },
        None => {},
    }
    proof {
        lemma_ids_kept_cover(entrants@, start, accumulators@);

        assert forall|e: int| 0 <= e < accumulators@.len() implies tracks(
            entrants@,
            done,
            round.scheduled_matches@,
            Seq::empty(),
            upto,
            #[trigger] accumulators@[e],
        ) by {
            assert(tracks(entrants@, done, Seq::empty(), Seq::empty(), done, start[e]));
            assert(accumulators@[e].entrant_id == start[e].entrant_id);
        }
        assert forall|i: int, j: int| 0 <= i < j < accumulators@.len() implies (#[trigger] accumulators@[i]).entrant_id@
            != (#[trigger] accumulators@[j]).entrant_id@ by {
            assert(accumulators@[i].entrant_id == start[i].entrant_id);
            assert(accumulators@[j].entrant_id == start[j].entrant_id);
        }
    }
    let results = &round.results;
    let ghost good = round_consistent(entrants@, rounds@[r as int]) && round_replay_fits(entrants@, rounds@, r as int)
        && (forall|e: int| 0 <= e < start.len() ==> registered(entrants@, (#[trigger] start[e]).entrant_id@));
    let mut k: usize = 0;
    while k < results.len()
        invariant
            good == (round_consistent(entrants@, rounds@[r as int]) && round_replay_fits(entrants@, rounds@, r as int)
                && (forall|e: int| 0 <= e < start.len() ==> registered(entrants@, (#[trigger] start[e]).entrant_id@))),
            r < rounds@.len(),
            done == rounds@.subrange(0, r as int),
            k <= results@.len(),
            start == old(accumulators)@,
            accumulators@.len() == start.len(),
            forall|e: int| 0 <= e < start.len() ==> (#[trigger] accumulators@[e]).entrant_id == start[e].entrant_id,
            distinct_ids(accumulators@),
            covers_entrants(entrants@, accumulators@),
            *round == rounds@[r as int],
            results == &round.results,
            forall|e: int| 0 <= e < accumulators@.len() ==> tracks(
                entrants@,
                done,
                round.scheduled_matches@,
                results@.subrange(0, k as int),
                upto,
                #[trigger] accumulators@[e],
            ),
        decreases results@.len() - k,
    {
        let ghost before = accumulators@;
        proof {
            if good {
                let prefix = results@.subrange(0, k + 1);
                assert(prefix.drop_last() =~= results@.subrange(0, k as int));
                assert(prefix.last() == results@[k as int]);
                assert forall|e: int| 0 <= e < accumulators@.len() implies result_fits(
                    entrants@,
                    round.scheduled_matches@,
                    results@[k as int],
                    #[trigger] accumulators@[e],
                ) by {
                    let id = accumulators@[e].entrant_id@;
                    assert(registered(entrants@, start[e].entrant_id@));
                    let i = choose|i: int| 0 <= i < entrants@.len() && (#[trigger] entrants@[i]).entrant_id@ == id;
                    assert(replayed_totals_fit(entrants@, rounds@, r as int, k + 1, entrants@[i].entrant_id@));
                    assert(tracks(
                        entrants@,
                        done,
                        round.scheduled_matches@,
                        results@.subrange(0, k as int),
                        upto,
                        accumulators@[e],
                    ));
                }
                assert(result_consistent(entrants@, round.scheduled_matches@, round.results@[k as int]));
            }
        }
        replay_result(entrants, &round.scheduled_matches, &results[k], accumulators)?;
        proof {
            lemma_ids_kept_cover(entrants@, before, accumulators@);
            let prefix = results@.subrange(0, k + 1);
            assert(prefix.drop_last() =~= results@.subrange(0, k as int));
            assert(prefix.last() == results@[k as int]);
            assert forall|e: int| 0 <= e < accumulators@.len() implies tracks(
                entrants@,
                done,
                round.scheduled_matches@,
                prefix,
                upto,
                #[trigger] accumulators@[e],
            ) by {
                assert(tracks(entrants@, done, round.scheduled_matches@, results@.subrange(0, k as int), upto, before[e]));
            }
            assert forall|i: int, j: int| 0 <= i < j < accumulators@.len() implies (#[trigger] accumulators@[i]).entrant_id@
                != (#[trigger] accumulators@[j]).entrant_id@ by {
                assert(accumulators@[i].entrant_id == before[i].entrant_id);
                assert(accumulators@[j].entrant_id == before[j].entrant_id);
            }
        }
        k = k + 1;
    }
    proof {
        assert(results@.subrange(0, results@.len() as int) =~= results@);
        assert forall|e: int| 0 <= e < accumulators@.len() implies tracks(
            entrants@,
            upto,
            Seq::empty(),
            Seq::empty(),
            upto,
            #[trigger] accumulators@[e],
        ) by {
            assert(tracks(entrants@, done, round.scheduled_matches@, results@, upto, accumulators@[e]));
        }
    }
    Ok(())
}

/// Some accumulator carries the id.
pub open spec fn has_accumulator(accumulators: Seq<StandingAccumulator>, id: Seq<char>) -> bool {
    exists|e: int| 0 <= e < accumulators.len() && (#[trigger] accumulators[e]).entrant_id@ == id
}

/// Adding the result to the accumulator keeps every total within its type.
pub open spec fn result_fits(
    entrants: Seq<TournamentEntrant>,
    matches: Seq<ScheduledMatch>,
    result: MatchResult,
    accumulator: StandingAccumulator,
) -> bool {
    let share = result_share(entrants, matches, result, accumulator.entrant_id@);
    let games = result_games(matches, result, accumulator.entrant_id@);
    &&& accumulator.matches_played + share.1 <= u32::MAX
    &&& accumulator.matches_won + share.2 <= u32::MAX
    &&& accumulator.matches_lost + share.1 - share.2 <= u32::MAX
    &&& accumulator.games_won + games.0 <= u32::MAX
    &&& accumulator.games_lost + games.1 <= u32::MAX
    &&& accumulator.points_won + games.2 <= u32::MAX
    &&& accumulator.points_lost + games.3 <= u32::MAX
    &&& i64::MIN <= accumulator.performance_score.spec_scaled() + share.0 <= i64::MAX
}

/// The entrant's totals after the bye and the first `k` results of round
/// `r` fit their types: matches played, games and points won and lost and
/// byes in a `u32`, performance in an `i64`.
pub open spec fn replayed_totals_fit(
    entrants: Seq<TournamentEntrant>,
    rounds: Seq<CompletedRound>,
    r: int,
    k: int,
    id: Seq<char>,
) -> bool {
    let done = rounds.subrange(0, r);
    let round = rounds[r];
    let partial = round.results@.subrange(0, k);
    let before = history_share(entrants, done, id);
    let current = results_share(entrants, round.scheduled_matches@, partial, id);
    let games_before = history_games(done, id);
    let games_now = results_games(round.scheduled_matches@, partial, id);
    &&& before.1 + current.1 <= u32::MAX
    &&& i64::MIN <= before.0 + current.0 <= i64::MAX
    &&& games_before.0 + games_now.0 <= u32::MAX
    &&& games_before.1 + games_now.1 <= u32::MAX
    &&& games_before.2 + games_now.2 <= u32::MAX
    &&& games_before.3 + games_now.3 <= u32::MAX
    &&& history_byes(rounds.subrange(0, r + 1), id) <= u32::MAX
}

/// Every registered entrant's totals fit their types at every step of the
/// replay of round `r`.
pub open spec fn round_replay_fits(entrants: Seq<TournamentEntrant>, rounds: Seq<CompletedRound>, r: int) -> bool {
    forall|k: int, i: int|
        0 <= k <= rounds[r].results@.len() && 0 <= i < entrants.len() ==> #[trigger] replayed_totals_fit(
            entrants,
            rounds,
            r,
            k,
            entrants[i].entrant_id@,
        )
}

/// The entrant's opponent strength after the first `k` results of round
/// `r` fits an `i64`.
pub open spec fn opponent_total_fits(
    entrants: Seq<TournamentEntrant>,
    rounds: Seq<CompletedRound>,
    r: int,
    k: int,
    id: Seq<char>,
) -> bool {
    let total = opponent_strength(entrants, rounds, rounds.subrange(0, r), id) + results_opponent_score(
        entrants,
        rounds,
        rounds[r].scheduled_matches@,
        rounds[r].results@.subrange(0, k),
        id,
    );
    i64::MIN <= total <= i64::MAX
}

/// Every registered entrant's opponent strength fits an `i64` at every step
/// of its summation over round `r`.
pub open spec fn round_opponents_fit(entrants: Seq<TournamentEntrant>, rounds: Seq<CompletedRound>, r: int) -> bool {
    forall|k: int, i: int|
        0 <= k <= rounds[r].results@.len() && 0 <= i < entrants.len() ==> #[trigger] opponent_total_fits(
            entrants,
            rounds,
            r,
            k,
            entrants[i].entrant_id@,
        )
}

/// Every total of the replay fits its type: each registered entrant's
/// counts, games, points, byes and performance at every step of every round,
/// its opponent strength at every step of its summation, and its game and
/// point differences over the whole history in an `i32`.
pub open spec fn replay_fits(entrants: Seq<TournamentEntrant>, rounds: Seq<CompletedRound>) -> bool {
    &&& forall|r: int| 0 <= r < rounds.len() ==> #[trigger] round_replay_fits(entrants, rounds, r)
    &&& forall|r: int| 0 <= r < rounds.len() ==> #[trigger] round_opponents_fit(entrants, rounds, r)
    &&& forall|i: int| 0 <= i < entrants.len() ==> {
        let games = history_games(rounds, (#[trigger] entrants[i]).entrant_id@);
        &&& i32::MIN <= games.0 - games.1 <= i32::MAX
        &&& i32::MIN <= games.2 - games.3 <= i32::MAX
    }
}

/// Every registered entrant has an accumulator.
pub open spec fn covers_entrants(entrants: Seq<TournamentEntrant>, accumulators: Seq<StandingAccumulator>) -> bool {
    forall|i: int| 0 <= i < entrants.len() ==> has_accumulator(accumulators, (#[trigger] entrants[i]).entrant_id@)
}

/// The result names a match scheduled in its round between two different
/// registered entrants, and its winner is one of them.
pub open spec fn result_consistent(entrants: Seq<TournamentEntrant>, matches: Seq<ScheduledMatch>, result: MatchResult) -> bool {
    match scheduled_for(matches, result.spec_match_id()) {
        Some(scheduled) => {
            &&& registered(entrants, scheduled.home_entrant_id@)
            &&& registered(entrants, scheduled.away_entrant_id@)
            &&& scheduled.home_entrant_id@ != scheduled.away_entrant_id@
            &&& (result.spec_winner_id() == scheduled.home_entrant_id@ || result.spec_winner_id()
                == scheduled.away_entrant_id@)
        },
        None => false,
    }
}

/// The round's bye, if any, goes to a registered entrant and each of its
/// results is consistent.
pub open spec fn round_consistent(entrants: Seq<TournamentEntrant>, round: CompletedRound) -> bool {
    &&& (round.bye matches Some(bye) ==> registered(entrants, bye@))
    &&& forall|k: int| 0 <= k < round.results@.len() ==> result_consistent(
        entrants,
        round.scheduled_matches@,
        #[trigger] round.results@[k],
    )
}

/// Every completed round is consistent with the registered entrants.
pub open spec fn history_consistent(entrants: Seq<TournamentEntrant>, rounds: Seq<CompletedRound>) -> bool {
    forall|r: int| 0 <= r < rounds.len() ==> round_consistent(entrants, #[trigger] rounds[r])
}

/// Accumulators that keep their ids position by position keep covering
/// the entrants.
proof fn lemma_ids_kept_cover(
    entrants: Seq<TournamentEntrant>,
    before: Seq<StandingAccumulator>,
    after: Seq<StandingAccumulator>,
)
    requires
        covers_entrants(entrants, before),
        after.len() == before.len(),
        forall|e: int| 0 <= e < before.len() ==> (#[trigger] after[e]).entrant_id == before[e].entrant_id,
    ensures
        covers_entrants(entrants, after),
{
    assert forall|i: int| 0 <= i < entrants.len() implies has_accumulator(after, (#[trigger] entrants[i]).entrant_id@) by {
        let e = choose|e: int| 0 <= e < before.len() && (#[trigger] before[e]).entrant_id@ == entrants[i].entrant_id@;
        assert(after[e].entrant_id == before[e].entrant_id);
    }
}

/// A registered entrant is found among covering accumulators.
proof fn lemma_registered_has_accumulator(
    entrants: Seq<TournamentEntrant>,
    accumulators: Seq<StandingAccumulator>,
    id: Seq<char>,
)
    requires
        covers_entrants(entrants, accumulators),
        registered(entrants, id),
    ensures
        has_accumulator(accumulators, id),
{
    let i = choose|i: int| 0 <= i < entrants.len() && (#[trigger] entrants[i]).entrant_id@ == id;
    assert(has_accumulator(accumulators, entrants[i].entrant_id@));
}

/// One fresh accumulator per distinct entrant id, in first-seen order.
fn initial_accumulators(entrants: &[TournamentEntrant]) -> (accumulators: Vec<StandingAccumulator>)
    ensures
        distinct_ids(accumulators@),
        all_track(entrants@, Seq::empty(), accumulators@),
        forall|e: int| 0 <= e < accumulators@.len() ==> registered(entrants@, (#[trigger] accumulators@[e]).entrant_id@),
        forall|i: int| 0 <= i < entrants@.len() ==> has_accumulator(accumulators@, (#[trigger] entrants@[i]).entrant_id@),
        forall|e: int| 0 <= e < accumulators@.len() ==> differences_fit(#[trigger] accumulators@[e]),
{
    let mut accumulators: Vec<StandingAccumulator> = Vec::new();
    let mut i: usize = 0;
    while i < entrants.len()
        invariant
            i <= entrants@.len(),
            forall|e: int| 0 <= e < accumulators@.len() ==> differences_fit(#[trigger] accumulators@[e]),
            distinct_ids(accumulators@),
            all_track(entrants@, Seq::empty(), accumulators@),
            forall|e: int| 0 <= e < accumulators@.len() ==> registered(entrants@, (#[trigger] accumulators@[e]).entrant_id@),
            forall|j: int| 0 <= j < i ==> has_accumulator(accumulators@, (#[trigger] entrants@[j]).entrant_id@),
        decreases entrants@.len() - i,
    {
        match accumulator_index(&accumulators, &entrants[i].entrant_id) {
            Some(found) => {
                proof {
                    assert(accumulators@[found as int].entrant_id@ == entrants@[i as int].entrant_id@);
                }
            },
            None => {
                let ghost before = accumulators@;
                accumulators.push(StandingAccumulator::new(entrants[i].entrant_id.duplicate()));
                proof {
                    assert(accumulators@[before.len() as int].entrant_id@ == entrants@[i as int].entrant_id@);
                    assert forall|j: int| 0 <= j < i + 1 implies has_accumulator(accumulators@, (#[trigger] entrants@[j]).entrant_id@) by {
                        if j < i {
                            let e = choose|e: int| 0 <= e < before.len() && (#[trigger] before[e]).entrant_id@
                                == entrants@[j].entrant_id@;
                            assert(accumulators@[e] == before[e]);
                        } else {
                            assert(accumulators@[before.len() as int].entrant_id@ == entrants@[j].entrant_id@);
                        }
                    }
                    assert(registered(entrants@, entrants@[i as int].entrant_id@));
                }
            },
        }
        i = i + 1;
    }
    accumulators
}

proof fn lemma_opponent_result_step(
    entrants: Seq<TournamentEntrant>,
    rounds: Seq<CompletedRound>,
    matches: Seq<ScheduledMatch>,
    results: Seq<MatchResult>,
    k: int,
    id: Seq<char>,
)
    requires
        0 <= k < results.len(),
    ensures
        results_opponent_score(entrants, rounds, matches, results.subrange(0, k + 1), id) == results_opponent_score(
            entrants,
            rounds,
            matches,
            results.subrange(0, k),
            id,
        ) + result_opponent_score(entrants, rounds, matches, results[k], id),
{
    assert(results.subrange(0, k + 1).drop_last() =~= results.subrange(0, k));
}

proof fn lemma_opponent_round_step(
    entrants: Seq<TournamentEntrant>,
    rounds: Seq<CompletedRound>,
    r: int,
    id: Seq<char>,
)
    requires
        0 <= r < rounds.len(),
    ensures
        opponent_strength(entrants, rounds, rounds.subrange(0, r + 1), id) == opponent_strength(
            entrants,
            rounds,
            rounds.subrange(0, r),
            id,
        ) + results_opponent_score(entrants, rounds, rounds[r].scheduled_matches@, rounds[r].results@, id),
{
    assert(rounds.subrange(0, r + 1).drop_last() =~= rounds.subrange(0, r));
}

/// Adds to each entrant the performance scores of the opponents it met.
fn add_opponent_strength(
    rounds: &[CompletedRound],
    accumulators: &mut Vec<StandingAccumulator>,
    Ghost(entrants): Ghost<Seq<TournamentEntrant>>,
) -> (outcome: Result<(), TournamentApplicationError>)
    requires
        all_track(entrants, rounds@, old(accumulators)@),
        distinct_ids(old(accumulators)@),
        covers_entrants(entrants, old(accumulators)@),
    ensures
        outcome matches Err(e) && !(e is StandingOverflow) ==> !history_consistent(entrants, rounds@),
        history_consistent(entrants, rounds@) && (forall|r: int| 0 <= r < rounds@.len() ==> #[trigger] round_opponents_fit(
            entrants,
            rounds@,
            r,
        )) && (forall|e: int| 0 <= e < old(accumulators)@.len() ==> registered(entrants, (#[trigger] old(accumulators)@[e]).entrant_id@))
            ==> outcome is Ok,
        outcome is Ok ==> forall|e: int| 0 <= e < old(accumulators)@.len() ==> (#[trigger] final(accumulators)@[e]).opponent_score_sum.spec_scaled()
            == opponent_strength(entrants, rounds@, rounds@, old(accumulators)@[e].entrant_id@),
        final(accumulators)@.len() == old(accumulators)@.len(),
        forall|e: int| 0 <= e < old(accumulators)@.len() ==> {
            let before = old(accumulators)@[e];
            let after = #[trigger] final(accumulators)@[e];
            &&& after.entrant_id == before.entrant_id
            &&& after.bye_count == before.bye_count
            &&& after.matches_played == before.matches_played
            &&& after.matches_won == before.matches_won
            &&& after.matches_lost == before.matches_lost
            &&& after.performance_score == before.performance_score
            &&& after.games_won == before.games_won
            &&& after.games_lost == before.games_lost
            &&& after.points_won == before.points_won
            &&& after.points_lost == before.points_lost
        },
        outcome matches Err(e) ==> e is InvalidRoundHistory || e is UnknownEntrantInRound || e is StandingOverflow,
        rounds@.len() == 0 ==> outcome is Ok && final(accumulators)@ == old(accumulators)@,
{
    let ghost start = accumulators@;
    let mut scores: Vec<PerformanceScore> = Vec::new();
    let mut i: usize = 0;
    while i < accumulators.len()
        invariant
            i <= accumulators@.len(),
            scores@.len() == i,
            accumulators@ == start,
            forall|j: int| 0 <= j < i ==> #[trigger] scores@[j] == start[j].performance_score,
        decreases accumulators@.len() - i,
    {
        scores.push(accumulators[i].performance_score());
        i = i + 1;
    }
    let mut r: usize = 0;
    proof {
        assert(rounds@.subrange(0, 0) =~= Seq::<CompletedRound>::empty());
        assert forall|e: int| 0 <= e < start.len() implies (#[trigger] start[e]).performance_score.spec_scaled()
            == history_share(entrants, rounds@, start[e].entrant_id@).0 && start[e].opponent_score_sum.spec_scaled() == 0 by {
            assert(tracks(entrants, rounds@, Seq::empty(), Seq::empty(), rounds@, start[e]));
        }
    }
    let ghost good = history_consistent(entrants, rounds@) && (forall|r: int| 0 <= r < rounds@.len() ==> #[trigger] round_opponents_fit(
        entrants,
        rounds@,
        r,
    )) && (forall|e: int| 0 <= e < start.len() ==> registered(entrants, (#[trigger] start[e]).entrant_id@));
    while r < rounds.len()
        invariant
            good == (history_consistent(entrants, rounds@) && (forall|r: int| 0 <= r < rounds@.len() ==> #[trigger] round_opponents_fit(
                entrants,
                rounds@,
                r,
            )) && (forall|e: int| 0 <= e < start.len() ==> registered(entrants, (#[trigger] start[e]).entrant_id@))),
            r <= rounds@.len(),
            start == old(accumulators)@,
            rounds@.len() == 0 ==> accumulators@ == start,
            distinct_ids(start),
            covers_entrants(entrants, start),
            forall|j: int| 0 <= j < start.len() ==> #[trigger] scores@[j] == start[j].performance_score,
            forall|e: int| 0 <= e < start.len() ==> (#[trigger] start[e]).performance_score.spec_scaled()
                == history_share(entrants, rounds@, start[e].entrant_id@).0,
            forall|e: int| 0 <= e < start.len() ==> (#[trigger] accumulators@[e]).opponent_score_sum.spec_scaled()
                == opponent_strength(entrants, rounds@, rounds@.subrange(0, r as int), start[e].entrant_id@),
            scores@.len() == start.len(),
            accumulators@.len() == start.len(),
            forall|e: int| 0 <= e < start.len() ==> {
                let before = start[e];
                let after = #[trigger] accumulators@[e];
                &&& after.entrant_id == before.entrant_id
                &&& after.bye_count == before.bye_count
                &&& after.matches_played == before.matches_played
                &&& after.matches_won == before.matches_won
                &&& after.matches_lost == before.matches_lost
                &&& after.performance_score == before.performance_score
                &&& after.games_won == before.games_won
                &&& after.games_lost == before.games_lost
                &&& after.points_won == before.points_won
                &&& after.points_lost == before.points_lost
            },
        decreases rounds@.len() - r,
    {
        let round = &rounds[r];
        let mut k: usize = 0;
        proof {
            assert(round.results@.subrange(0, 0) =~= Seq::<MatchResult>::empty());
        }
        while k < round.results.len()
            invariant
                good == (history_consistent(entrants, rounds@) && (forall|r: int| 0 <= r < rounds@.len() ==> #[trigger] round_opponents_fit(
                    entrants,
                    rounds@,
                    r,
                )) && (forall|e: int| 0 <= e < start.len() ==> registered(entrants, (#[trigger] start[e]).entrant_id@))),
                k <= round.results@.len(),
                r < rounds@.len(),
                *round == rounds@[r as int],
                start == old(accumulators)@,
                distinct_ids(start),
                covers_entrants(entrants, start),
                forall|j: int| 0 <= j < start.len() ==> #[trigger] scores@[j] == start[j].performance_score,
                forall|e: int| 0 <= e < start.len() ==> (#[trigger] start[e]).performance_score.spec_scaled()
                    == history_share(entrants, rounds@, start[e].entrant_id@).0,
                forall|e: int| 0 <= e < start.len() ==> (#[trigger] accumulators@[e]).opponent_score_sum.spec_scaled()
                    == opponent_strength(entrants, rounds@, rounds@.subrange(0, r as int), start[e].entrant_id@)
                    + results_opponent_score(
                    entrants,
                    rounds@,
                    round.scheduled_matches@,
                    round.results@.subrange(0, k as int),
                    start[e].entrant_id@,
                ),
                scores@.len() == start.len(),
                accumulators@.len() == start.len(),
                forall|e: int| 0 <= e < start.len() ==> {
                    let before = start[e];
                    let after = #[trigger] accumulators@[e];
                    &&& after.entrant_id == before.entrant_id
                    &&& after.bye_count == before.bye_count
                    &&& after.matches_played == before.matches_played
                    &&& after.matches_won == before.matches_won
                    &&& after.matches_lost == before.matches_lost
                    &&& after.performance_score == before.performance_score
                    &&& after.games_won == before.games_won
                    &&& after.games_lost == before.games_lost
                    &&& after.points_won == before.points_won
                    &&& after.points_lost == before.points_lost
                },
            decreases round.results@.len() - k,
        {
            let result = &round.results[k];
            let scheduled = match find_scheduled(&round.scheduled_matches, result.match_id()) {
                Some(scheduled) => scheduled,
                None => {
                    return Err(
                        TournamentApplicationError::InvalidRoundHistory { match_id: result.match_id().duplicate() },
                    );
                },
            };
            let home = match accumulator_index(accumulators, &scheduled.home_entrant_id) {
                Some(index) => index,
                None => {
                    proof {
                        if history_consistent(entrants, rounds@) {
                            assert(round_consistent(entrants, rounds@[r as int]));
                            assert(result_consistent(entrants, round.scheduled_matches@, round.results@[k as int]));
                            lemma_registered_has_accumulator(entrants, start, scheduled.home_entrant_id@);
                            let e = choose|e: int|
                                0 <= e < start.len() && (#[trigger] start[e]).entrant_id@ == scheduled.home_entrant_id@;
                            assert(accumulators@[e].entrant_id == start[e].entrant_id);
                        }
                    }
                    return Err(unknown_entrant(&scheduled.home_entrant_id));
                },
            };
            let away = match accumulator_index(accumulators, &scheduled.away_entrant_id) {
                Some(index) => index,
                None => {
                    proof {
                        if history_consistent(entrants, rounds@) {
                            assert(round_consistent(entrants, rounds@[r as int]));
                            assert(result_consistent(entrants, round.scheduled_matches@, round.results@[k as int]));
                            lemma_registered_has_accumulator(entrants, start, scheduled.away_entrant_id@);
                            let e = choose|e: int|
                                0 <= e < start.len() && (#[trigger] start[e]).entrant_id@ == scheduled.away_entrant_id@;
                            assert(accumulators@[e].entrant_id == start[e].entrant_id);
                        }
                    }
                    return Err(unknown_entrant(&scheduled.away_entrant_id));
                },
            };
            let away_score = scores[away];
            let home_score = scores[home];
            let ghost before = accumulators@;
            proof {
                let s = *scheduled;
                assert(scheduled_for(round.scheduled_matches@, result.spec_match_id()) == Some(s));
                assert(round.results@[k as int] == *result);
                if good {
                    assert(round_consistent(entrants, rounds@[r as int]));
                    assert(result_consistent(entrants, round.scheduled_matches@, round.results@[k as int]));
                    assert(round_opponents_fit(entrants, rounds@, r as int));
                    assert(start[away as int].entrant_id@ == s.away_entrant_id@);
                    assert(start[home as int].entrant_id@ == s.home_entrant_id@);
                    assert(home != away);
                    lemma_opponent_result_step(entrants, rounds@, round.scheduled_matches@, round.results@, k as int, s.home_entrant_id@);
                    lemma_opponent_result_step(entrants, rounds@, round.scheduled_matches@, round.results@, k as int, s.away_entrant_id@);
                    assert(registered(entrants, start[home as int].entrant_id@));
                    assert(registered(entrants, start[away as int].entrant_id@));
                    let hi = choose|i: int| 0 <= i < entrants.len() && (#[trigger] entrants[i]).entrant_id@ == s.home_entrant_id@;
                    let ai = choose|i: int| 0 <= i < entrants.len() && (#[trigger] entrants[i]).entrant_id@ == s.away_entrant_id@;
                    assert(opponent_total_fits(entrants, rounds@, r as int, k + 1, entrants[hi].entrant_id@));
                    assert(opponent_total_fits(entrants, rounds@, r as int, k + 1, entrants[ai].entrant_id@));
                }
            }
            add_opponent_at(accumulators, home, away_score)?;
            let ghost middle = accumulators@;
            proof {
                if good {
                    assert(middle[away as int] == before[away as int]);
                }
            }
            add_opponent_at(accumulators, away, home_score)?;
            proof {
                let s = *scheduled;
                assert(scheduled_for(round.scheduled_matches@, result.spec_match_id()) == Some(s));
                assert(round.results@[k as int] == *result);
                assert forall|e: int| 0 <= e < start.len() implies (#[trigger] accumulators@[e]).opponent_score_sum.spec_scaled()
                    == opponent_strength(entrants, rounds@, rounds@.subrange(0, r as int), start[e].entrant_id@)
                    + results_opponent_score(
                    entrants,
                    rounds@,
                    round.scheduled_matches@,
                    round.results@.subrange(0, k + 1),
                    start[e].entrant_id@,
                ) by {
                    let id = start[e].entrant_id@;
                    lemma_opponent_result_step(entrants, rounds@, round.scheduled_matches@, round.results@, k as int, id);
                    assert(start[away as int].entrant_id@ == s.away_entrant_id@);
                    assert(start[home as int].entrant_id@ == s.home_entrant_id@);
                    if e != home as int {
                        assert(id != s.home_entrant_id@);
                    }
                    if e != away as int {
                        assert(id != s.away_entrant_id@);
                    }
                    if e != home as int && e != away as int {
                        assert(accumulators@[e] == middle[e]);
                        assert(middle[e] == before[e]);
                    }
                }
            }
            k = k + 1;
        }
        proof {
            assert(round.results@.subrange(0, round.results@.len() as int) =~= round.results@);
            assert forall|e: int| 0 <= e < start.len() implies (#[trigger] accumulators@[e]).opponent_score_sum.spec_scaled()
                == opponent_strength(entrants, rounds@, rounds@.subrange(0, r + 1), start[e].entrant_id@) by {
                lemma_opponent_round_step(entrants, rounds@, r as int, start[e].entrant_id@);
            }
        }
        r = r + 1;
    }
    proof {
        assert(rounds@.subrange(0, rounds@.len() as int) =~= rounds@);
    }
    Ok(())
}

/// Whether `a` ranks above `b`.
fn ranks_above(entrants: &[TournamentEntrant], a: &ContestantStanding, b: &ContestantStanding) -> (above: bool)
    ensures
        above == standing_precedes(entrants@, *a, *b),
{
    let pa = a.performance_score.scaled_value();
    let pb = b.performance_score.scaled_value();
    if pa != pb {
        return pa > pb;
    }
    if a.matches_won != b.matches_won {
        return a.matches_won > b.matches_won;
    }
    let oa = a.opponent_score_sum.scaled_value();
    let ob = b.opponent_score_sum.scaled_value();
    if oa != ob {
        return oa > ob;
    }
    let ea = match elo_of(entrants, &a.entrant_id) {
        Some(elo) => elo,
        None => 0,
    };
    let eb = match elo_of(entrants, &b.entrant_id) {
        Some(elo) => elo,
        None => 0,
    };
    proof {
        if !registered(entrants@, a.entrant_id@) {
            lemma_unregistered_elo(entrants@, a.entrant_id@);
        }
        if !registered(entrants@, b.entrant_id@) {
            lemma_unregistered_elo(entrants@, b.entrant_id@);
        }
    }
    if ea != eb {
        return ea > eb;
    }
    a.entrant_id.precedes(&b.entrant_id)
}

proof fn lemma_unregistered_elo(entrants: Seq<TournamentEntrant>, id: Seq<char>)
    requires
        !registered(entrants, id),
    ensures
        last_elo(entrants, id) == 0,
    decreases entrants.len(),
{
    if entrants.len() > 0 {
        assert(entrants.last() == entrants[entrants.len() - 1]);
        assert forall|i: int| 0 <= i < entrants.drop_last().len() implies (#[trigger] entrants.drop_last()[i]).entrant_id@ != id by {
            assert(entrants.drop_last()[i] == entrants[i]);
        }
        lemma_unregistered_elo(entrants.drop_last(), id);
    }
}

/// Replays the completed rounds: byes, results with their Elo performance
/// deltas, then the opponents' scores, and ranks the entrants by
/// performance, wins, opponent strength, starting ELO and id.
pub fn calculate_standings(entrants: &[TournamentEntrant], rounds: &[CompletedRound]) -> (outcome: Result<
    Vec<ContestantStanding>,
    TournamentApplicationError,
>)
    ensures
        outcome matches Ok(standings) ==> {
            &&& standings_in_order(entrants@, standings@)
            &&& forall|i: int, j: int| 0 <= i < j < standings@.len() ==> (#[trigger] standings@[i]).entrant_id@
                != (#[trigger] standings@[j]).entrant_id@
            &&& forall|i: int| 0 <= i < standings@.len() ==> registered(entrants@, (#[trigger] standings@[i]).entrant_id@)
            &&& forall|i: int| 0 <= i < entrants@.len() ==> has_standing(standings@, (#[trigger] entrants@[i]).entrant_id@)
            &&& forall|i: int| 0 <= i < standings@.len() ==> standing_replays(entrants@, rounds@, #[trigger] standings@[i])
        },
        outcome matches Err(e) ==> e is InvalidRoundHistory || e is UnknownEntrantInRound || e is StandingOverflow,
        outcome matches Err(e) && !(e is StandingOverflow) ==> !history_consistent(entrants@, rounds@),
        rounds@.len() == 0 ==> outcome is Ok,
        history_consistent(entrants@, rounds@) && replay_fits(entrants@, rounds@) ==> outcome is Ok,
        outcome matches Ok(standings) ==> standings_replayed(entrants@, rounds@, standings@),
{
    let mut accumulators = initial_accumulators(entrants);
    let ghost initial = accumulators@;
    let ghost good = history_consistent(entrants@, rounds@) && replay_fits(entrants@, rounds@);
    let mut r: usize = 0;
    proof {
        assert(rounds@.subrange(0, 0) =~= Seq::<CompletedRound>::empty());
    }
    while r < rounds.len()
        invariant
            good == (history_consistent(entrants@, rounds@) && replay_fits(entrants@, rounds@)),
            forall|e: int| 0 <= e < initial.len() ==> registered(entrants@, (#[trigger] initial[e]).entrant_id@),
            r <= rounds@.len(),
            accumulators@.len() == initial.len(),
            forall|e: int| 0 <= e < initial.len() ==> (#[trigger] accumulators@[e]).entrant_id == initial[e].entrant_id,
            distinct_ids(accumulators@),
            all_track(entrants@, rounds@.subrange(0, r as int), accumulators@),
            rounds@.len() == 0 ==> accumulators@ == initial,
            covers_entrants(entrants@, accumulators@),
        decreases rounds@.len() - r,
    {
        let ghost before = accumulators@;
        proof {
            if good {
                assert(round_consistent(entrants@, rounds@[r as int]));
                assert(round_replay_fits(entrants@, rounds@, r as int));
                assert forall|e: int| 0 <= e < before.len() implies registered(entrants@, (#[trigger] before[e]).entrant_id@) by {
                    assert(before[e].entrant_id == initial[e].entrant_id);
                }
            }
        }
        replay_round(entrants, rounds, r, &mut accumulators)?;
        proof {
            lemma_ids_kept_cover(entrants@, before, accumulators@);
            assert forall|e: int| 0 <= e < initial.len() implies (#[trigger] accumulators@[e]).entrant_id == initial[e].entrant_id by {
                assert(accumulators@[e].entrant_id == before[e].entrant_id);
            }
        }
        r = r + 1;
    }
    proof {
        assert(rounds@.subrange(0, rounds@.len() as int) =~= rounds@);
    }
    let ghost replayed = accumulators@;
    proof {
        if good {
            assert forall|e: int| 0 <= e < replayed.len() implies registered(entrants@, (#[trigger] replayed[e]).entrant_id@) by {
                assert(replayed[e].entrant_id == initial[e].entrant_id);
            }
            assert forall|r: int| 0 <= r < rounds@.len() implies #[trigger] round_opponents_fit(entrants@, rounds@, r) by {
                assert(round_opponents_fit(entrants@, rounds@, r));
            }
        }
    }
    add_opponent_strength(rounds, &mut accumulators, Ghost(entrants@))?;
    proof {
        if good {
            assert forall|e: int| 0 <= e < accumulators@.len() implies differences_fit(#[trigger] accumulators@[e]) by {
                let id = replayed[e].entrant_id@;
                assert(registered(entrants@, initial[e].entrant_id@));
                assert(replayed[e].entrant_id == initial[e].entrant_id);
                let i = choose|i: int| 0 <= i < entrants@.len() && (#[trigger] entrants@[i]).entrant_id@ == id;
                assert(tracks(entrants@, rounds@, Seq::empty(), Seq::empty(), rounds@, replayed[e]));
                let games = history_games(rounds@, entrants@[i].entrant_id@);
                assert(i32::MIN <= games.0 - games.1 <= i32::MAX);
            }
        }
    }
    finish_and_rank(entrants, rounds, accumulators, Ghost(initial), Ghost(replayed))
}

/// Finishes every accumulator and sorts the standings.
fn finish_and_rank(
    entrants: &[TournamentEntrant],
    rounds: &[CompletedRound],
    accumulators: Vec<StandingAccumulator>,
    Ghost(initial): Ghost<Seq<StandingAccumulator>>,
    Ghost(replayed): Ghost<Seq<StandingAccumulator>>,
) -> (outcome: Result<Vec<ContestantStanding>, TournamentApplicationError>)
    requires
        accumulators@.len() == initial.len() == replayed.len(),
        distinct_ids(initial),
        forall|e: int| 0 <= e < initial.len() ==> registered(entrants@, (#[trigger] initial[e]).entrant_id@),
        forall|i: int| 0 <= i < entrants@.len() ==> has_accumulator(initial, (#[trigger] entrants@[i]).entrant_id@),
        forall|e: int| 0 <= e < initial.len() ==> (#[trigger] replayed[e]).entrant_id == initial[e].entrant_id,
        all_track(entrants@, rounds@, replayed),
        forall|e: int| 0 <= e < accumulators@.len() ==> (#[trigger] accumulators@[e]).opponent_score_sum.spec_scaled()
            == opponent_strength(entrants@, rounds@, rounds@, replayed[e].entrant_id@),
        forall|e: int| 0 <= e < replayed.len() ==> {
            let before = replayed[e];
            let after = #[trigger] accumulators@[e];
            &&& after.entrant_id == before.entrant_id
            &&& after.bye_count == before.bye_count
            &&& after.matches_played == before.matches_played
            &&& after.matches_won == before.matches_won
            &&& after.matches_lost == before.matches_lost
            &&& after.performance_score == before.performance_score
            &&& after.games_won == before.games_won
            &&& after.games_lost == before.games_lost
            &&& after.points_won == before.points_won
            &&& after.points_lost == before.points_lost
        },
    ensures
        outcome matches Ok(standings) ==> {
            &&& standings_in_order(entrants@, standings@)
            &&& forall|i: int, j: int| 0 <= i < j < standings@.len() ==> (#[trigger] standings@[i]).entrant_id@
                != (#[trigger] standings@[j]).entrant_id@
            &&& forall|i: int| 0 <= i < standings@.len() ==> registered(entrants@, (#[trigger] standings@[i]).entrant_id@)
            &&& forall|i: int| 0 <= i < entrants@.len() ==> has_standing(standings@, (#[trigger] entrants@[i]).entrant_id@)
            &&& forall|i: int| 0 <= i < standings@.len() ==> standing_replays(entrants@, rounds@, #[trigger] standings@[i])
        },
        outcome matches Err(e) ==> e is StandingOverflow,
        (forall|e: int| 0 <= e < accumulators@.len() ==> differences_fit(#[trigger] accumulators@[e])) ==> outcome is Ok,
{
    let ghost all = accumulators@;
    let ghost all_fit = forall|e: int| 0 <= e < accumulators@.len() ==> differences_fit(#[trigger] accumulators@[e]);
    let mut finished: Vec<ContestantStanding> = Vec::new();
    for accumulator in iter: accumulators.into_iter()
        invariant
            iter.seq() == all,
            all.len() == initial.len() == replayed.len(),
            all_track(entrants@, rounds@, replayed),
            forall|e: int| 0 <= e < replayed.len() ==> {
                let before = replayed[e];
                let after = #[trigger] all[e];
                &&& after.entrant_id == before.entrant_id
                &&& after.bye_count == before.bye_count
                &&& after.matches_played == before.matches_played
                &&& after.matches_won == before.matches_won
                &&& after.matches_lost == before.matches_lost
                &&& after.performance_score == before.performance_score
                &&& after.games_won == before.games_won
                &&& after.games_lost == before.games_lost
                &&& after.points_won == before.points_won
                &&& after.points_lost == before.points_lost
            },
            finished@.len() == iter.index(),
            all_fit == forall|e: int| 0 <= e < all.len() ==> differences_fit(#[trigger] all[e]),
            forall|e: int| 0 <= e < all.len() ==> (#[trigger] all[e]).opponent_score_sum.spec_scaled()
                == opponent_strength(entrants@, rounds@, rounds@, replayed[e].entrant_id@),
            forall|e: int| 0 <= e < finished@.len() ==> (#[trigger] finished@[e]).entrant_id == all[e].entrant_id,
            forall|e: int| 0 <= e < finished@.len() ==> standing_replays(entrants@, rounds@, #[trigger] finished@[e]),
    {
        let ghost e = iter.index() as int;
        proof {
            assert(all[e] == accumulator);
            assert(tracks(entrants@, rounds@, Seq::empty(), Seq::empty(), rounds@, replayed[e]));
        }
        let standing = accumulator.finish()?;
        finished.push(standing);
    }
    proof {
        assert forall|i: int, j: int| 0 <= i < j < finished@.len() implies (#[trigger] finished@[i]).entrant_id@
            != (#[trigger] finished@[j]).entrant_id@ by {
            assert(initial[i].entrant_id@ != initial[j].entrant_id@);
        }
    }
    let sorted = sort_standings(entrants, finished);
    proof {
        assert forall|t: int| 0 <= t < sorted@.len() implies registered(entrants@, (#[trigger] sorted@[t]).entrant_id@)
            && standing_replays(entrants@, rounds@, sorted@[t]) by {
            assert(finished@.contains(sorted@[t]));
            let e = choose|e: int| 0 <= e < finished@.len() && finished@[e] == sorted@[t];
            assert(finished@[e].entrant_id == initial[e].entrant_id);
            assert(registered(entrants@, initial[e].entrant_id@));
        }
        assert forall|i: int| 0 <= i < entrants@.len() implies has_standing(sorted@, (#[trigger] entrants@[i]).entrant_id@) by {
            assert(has_accumulator(initial, entrants@[i].entrant_id@));
            let e = choose|e: int| 0 <= e < initial.len() && (#[trigger] initial[e]).entrant_id@ == entrants@[i].entrant_id@;
            assert(finished@[e].entrant_id == initial[e].entrant_id);
            assert(sorted@.contains(finished@[e]));
            let t = choose|t: int| 0 <= t < sorted@.len() && sorted@[t] == finished@[e];
            assert(sorted@[t].entrant_id@ == entrants@[i].entrant_id@);
        }
    }
    Ok(sorted)
}

/// Inserts the standing after every standing that does not rank below it.
fn insert_ranked(entrants: &[TournamentEntrant], sorted: &mut Vec<ContestantStanding>, standing: ContestantStanding) -> (position:
    usize)
    requires
        standings_in_order(entrants@, old(sorted)@),
    ensures
        position <= old(sorted)@.len(),
        final(sorted)@ == old(sorted)@.insert(position as int, standing),
        standings_in_order(entrants@, final(sorted)@),
{
    let mut position: usize = 0;
    while position < sorted.len() && !ranks_above(entrants, &standing, &sorted[position])
        invariant
            position <= sorted@.len(),
            forall|q: int| 0 <= q < position ==> !standing_precedes(entrants@, standing, #[trigger] sorted@[q]),
        decreases sorted@.len() - position,
    {
        position = position + 1;
    }
    let ghost before = sorted@;
    let ghost inserted = standing;
    sorted.insert(position, standing);
    proof {
        let p = position as int;
        assert forall|i: int, j: int| 0 <= i < j < sorted@.len() implies !standing_precedes(
            entrants@,
            #[trigger] sorted@[j],
            #[trigger] sorted@[i],
        ) by {
            let ent = entrants@;
            if j < p {
                assert(sorted@[i] == before[i] && sorted@[j] == before[j]);
            } else if j == p {
                assert(sorted@[i] == before[i]);
            } else if i == p {
                assert(sorted@[j] == before[j - 1]);
                if standing_precedes(ent, sorted@[j], sorted@[i]) {
                    assert(standing_precedes(ent, inserted, before[p]));
                    if j - 1 > p {
                        assert(!standing_precedes(ent, before[j - 1], before[p]));
                        lemma_precedes_transitive(ent, before[j - 1], inserted, before[p]);
                    } else {
                        lemma_precedes_asymmetric(ent, inserted, before[p]);
                    }
                }
            } else if i < p {
                assert(sorted@[i] == before[i] && sorted@[j] == before[j - 1]);
            } else {
                assert(sorted@[i] == before[i - 1] && sorted@[j] == before[j - 1]);
            }
        }
    }
    position
}

/// The standings ranked, each kept as it was; distinct ids stay distinct.
fn sort_standings(entrants: &[TournamentEntrant], standings: Vec<ContestantStanding>) -> (sorted: Vec<ContestantStanding>)
    requires
        forall|i: int, j: int| 0 <= i < j < standings@.len() ==> (#[trigger] standings@[i]).entrant_id@
            != (#[trigger] standings@[j]).entrant_id@,
    ensures
        sorted@.len() == standings@.len(),
        standings_in_order(entrants@, sorted@),
        forall|t: int| 0 <= t < sorted@.len() ==> standings@.contains(#[trigger] sorted@[t]),
        forall|e: int| 0 <= e < standings@.len() ==> sorted@.contains(#[trigger] standings@[e]),
        forall|i: int, j: int| 0 <= i < j < sorted@.len() ==> (#[trigger] sorted@[i]).entrant_id@
            != (#[trigger] sorted@[j]).entrant_id@,
{
    let ghost all = standings@;
    let mut sorted: Vec<ContestantStanding> = Vec::new();
    proof {
        assert(all.subrange(0, 0) =~= Seq::<ContestantStanding>::empty());
    }
    for standing in iter: standings.into_iter()
        invariant
            iter.seq() == all,
            forall|i: int, j: int| 0 <= i < j < all.len() ==> (#[trigger] all[i]).entrant_id@ != (#[trigger] all[j]).entrant_id@,
            sorted@.len() == iter.index(),
            standings_in_order(entrants@, sorted@),
            forall|t: int| 0 <= t < sorted@.len() ==> all.subrange(0, iter.index() as int).contains(#[trigger] sorted@[t]),
            forall|e: int| 0 <= e < iter.index() ==> sorted@.contains(#[trigger] all[e]),
            forall|i: int, j: int| 0 <= i < j < sorted@.len() ==> (#[trigger] sorted@[i]).entrant_id@
                != (#[trigger] sorted@[j]).entrant_id@,
    {
        let ghost k = iter.index() as int;
        let ghost before = sorted@;
        let ghost item = standing;
        proof {
            assert(all[k] == item);
        }
        let position = insert_ranked(entrants, &mut sorted, standing);
        proof {
            let p = position as int;
            assert forall|t: int| 0 <= t < sorted@.len() implies all.subrange(0, k + 1).contains(#[trigger] sorted@[t]) by {
                let older = all.subrange(0, k);
                let newer = all.subrange(0, k + 1);
                if t < p {
                    assert(sorted@[t] == before[t]);
                    assert(older.contains(before[t]));
                    let e = choose|e: int| 0 <= e < older.len() && older[e] == before[t];
                    assert(newer[e] == older[e]);
                } else if t > p {
                    assert(sorted@[t] == before[t - 1]);
                    assert(older.contains(before[t - 1]));
                    let e = choose|e: int| 0 <= e < older.len() && older[e] == before[t - 1];
                    assert(newer[e] == older[e]);
                } else {
                    assert(sorted@[t] == all[k]);
                    assert(newer[k] == all[k]);
                }
            }
            assert forall|e: int| 0 <= e < k + 1 implies sorted@.contains(#[trigger] all[e]) by {
                if e < k {
                    assert(before.contains(all[e]));
                    let t = choose|t: int| 0 <= t < before.len() && before[t] == all[e];
                    if t < p {
                        assert(sorted@[t] == before[t]);
                    } else {
                        assert(sorted@[t + 1] == before[t]);
                    }
                } else {
                    assert(sorted@[p] == all[e]);
                }
            }
            assert forall|t: int| 0 <= t < before.len() implies (#[trigger] before[t]).entrant_id@ != item.entrant_id@ by {
                let older = all.subrange(0, k);
                assert(older.contains(before[t]));
                let e = choose|e: int| 0 <= e < older.len() && older[e] == before[t];
                assert(all[e] == before[t]);
            }
            assert forall|i: int, j: int| 0 <= i < j < sorted@.len() implies (#[trigger] sorted@[i]).entrant_id@
                != (#[trigger] sorted@[j]).entrant_id@ by {
                if j < p {
                    assert(sorted@[i] == before[i] && sorted@[j] == before[j]);
                } else if j == p {
                    assert(sorted@[i] == before[i]);
                } else if i == p {
                    assert(sorted@[j] == before[j - 1]);
                } else if i < p {
                    assert(sorted@[i] == before[i] && sorted@[j] == before[j - 1]);
                } else {
                    assert(sorted@[i] == before[i - 1] && sorted@[j] == before[j - 1]);
                }
            }
        }
    }
    proof {
        assert(all.subrange(0, all.len() as int) =~= all);
    }
    sorted
}

} // verus!
