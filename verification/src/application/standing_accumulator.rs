use vstd::prelude::*;

use crate::identity::EntrantId;
use crate::pairing::algorithms::blossom_v1::PerformanceScore;

use super::{ContestantStanding, TournamentApplicationError};

verus! {

/// The running totals of one entrant while the rounds are replayed.
pub struct StandingAccumulator {
    pub entrant_id: EntrantId,
    pub performance_score: PerformanceScore,
    pub matches_played: u32,
    pub matches_won: u32,
    pub matches_lost: u32,
    pub games_won: u32,
    pub games_lost: u32,
    pub points_won: u32,
    pub points_lost: u32,
    pub opponent_score_sum: PerformanceScore,
    pub bye_count: u32,
}

/// The sum of the values.
pub open spec fn point_total(values: Seq<u16>) -> int
    decreases values.len(),
{
    if values.len() == 0 {
        0
    } else {
        point_total(values.drop_last()) + values.last()
    }
}

/// The overflow error of the named total.
pub open spec fn overflow_error(component: &'static str) -> TournamentApplicationError {
    TournamentApplicationError::StandingOverflow { component }
}

impl StandingAccumulator {
    /// All totals zero.
    pub fn new(entrant_id: EntrantId) -> (accumulator: Self)
        ensures
            accumulator.entrant_id@ == entrant_id@,
            accumulator.performance_score.spec_scaled() == 0,
            accumulator.matches_played == 0,
            accumulator.matches_won == 0,
            accumulator.matches_lost == 0,
            accumulator.games_won == 0,
            accumulator.games_lost == 0,
            accumulator.points_won == 0,
            accumulator.points_lost == 0,
            accumulator.opponent_score_sum.spec_scaled() == 0,
            accumulator.bye_count == 0,
    {
        StandingAccumulator {
            entrant_id,
            performance_score: PerformanceScore::zero(),
            matches_played: 0,
            matches_won: 0,
            matches_lost: 0,
            games_won: 0,
            games_lost: 0,
            points_won: 0,
            points_lost: 0,
            opponent_score_sum: PerformanceScore::zero(),
            bye_count: 0,
        }
    }

    pub fn performance_score(&self) -> (score: PerformanceScore)
        ensures
            score == self.performance_score,
    {
        self.performance_score
    }

    /// One more bye.
    pub fn record_bye(&mut self) -> (outcome: Result<(), TournamentApplicationError>)
        ensures
            old(self).bye_count < u32::MAX ==> outcome is Ok && final(self).bye_count == old(self).bye_count + 1,
            old(self).bye_count == u32::MAX ==> (outcome matches Err(e) && e == overflow_error("bye count")),
            final(self).entrant_id == old(self).entrant_id,
            final(self).performance_score == old(self).performance_score,
            final(self).matches_played == old(self).matches_played,
            final(self).matches_won == old(self).matches_won,
            final(self).matches_lost == old(self).matches_lost,
            final(self).games_won == old(self).games_won,
            final(self).games_lost == old(self).games_lost,
            final(self).points_won == old(self).points_won,
            final(self).points_lost == old(self).points_lost,
            final(self).opponent_score_sum == old(self).opponent_score_sum,
    {
        self.bye_count = checked_add(self.bye_count, 1, "bye count")?;
        Ok(())
    }

    /// One more match: played, won or lost, its games and points, and its
    /// performance delta. Fails on the first total that would overflow.
    pub fn record_result(
        &mut self,
        games_won: u8,
        games_lost: u8,
        points_won: &Vec<u16>,
        points_lost: &Vec<u16>,
        won: bool,
        delta: PerformanceScore,
    ) -> (outcome: Result<(), TournamentApplicationError>)
        ensures
            outcome is Ok <==> (old(self).matches_played < u32::MAX && (won ==> old(self).matches_won < u32::MAX)
                && (!won ==> old(self).matches_lost < u32::MAX) && old(self).games_won + games_won <= u32::MAX
                && old(self).games_lost + games_lost <= u32::MAX && old(self).points_won + point_total(points_won@)
                <= u32::MAX && old(self).points_lost + point_total(points_lost@) <= u32::MAX && i64::MIN
                <= old(self).performance_score.spec_scaled() + delta.spec_scaled() <= i64::MAX),
            outcome matches Err(e) ==> e is StandingOverflow,
            ({
                let before = *old(self);
                let played = before.matches_played < u32::MAX;
                let decided = if won { before.matches_won < u32::MAX } else { before.matches_lost < u32::MAX };
                let games = before.games_won + games_won <= u32::MAX;
                let lost_games = before.games_lost + games_lost <= u32::MAX;
                let points = before.points_won + point_total(points_won@) <= u32::MAX;
                let lost_points = before.points_lost + point_total(points_lost@) <= u32::MAX;
                &&& !played ==> outcome == Err::<(), TournamentApplicationError>(overflow_error("matches played"))
                &&& played && !decided ==> outcome == Err::<(), TournamentApplicationError>(
                    if won { overflow_error("matches won") } else { overflow_error("matches lost") },
                )
                &&& played && decided && !games ==> outcome == Err::<(), TournamentApplicationError>(overflow_error("games won"))
                &&& played && decided && games && !lost_games ==> outcome == Err::<(), TournamentApplicationError>(
                    overflow_error("games lost"),
                )
                &&& played && decided && games && lost_games && !points ==> outcome == Err::<(), TournamentApplicationError>(
                    overflow_error("points won"),
                )
                &&& played && decided && games && lost_games && points && !lost_points ==> outcome == Err::<
                    (),
                    TournamentApplicationError,
                >(overflow_error("points lost"))
                &&& played && decided && games && lost_games && points && lost_points && outcome is Err ==> outcome == Err::<
                    (),
                    TournamentApplicationError,
                >(overflow_error("performance score"))
            }),
            final(self).entrant_id == old(self).entrant_id,
            outcome is Ok ==> {
                &&& final(self).matches_played == old(self).matches_played + 1
                &&& final(self).matches_won == old(self).matches_won + if won { 1int } else { 0int }
                &&& final(self).matches_lost == old(self).matches_lost + if won { 0int } else { 1int }
                &&& final(self).games_won == old(self).games_won + games_won
                &&& final(self).games_lost == old(self).games_lost + games_lost
                &&& final(self).points_won == old(self).points_won + point_total(points_won@)
                &&& final(self).points_lost == old(self).points_lost + point_total(points_lost@)
                &&& final(self).performance_score.spec_scaled() == old(self).performance_score.spec_scaled()
                    + delta.spec_scaled()
                &&& final(self).opponent_score_sum == old(self).opponent_score_sum
                &&& final(self).bye_count == old(self).bye_count
            },
    {
        self.matches_played = checked_add(self.matches_played, 1, "matches played")?;
        if won {
            self.matches_won = checked_add(self.matches_won, 1, "matches won")?;
        } else {
            self.matches_lost = checked_add(self.matches_lost, 1, "matches lost")?;
        }
        self.games_won = checked_add(self.games_won, games_won as u32, "games won")?;
        self.games_lost = checked_add(self.games_lost, games_lost as u32, "games lost")?;
        self.points_won = match checked_sum(self.points_won, points_won, "points won") {
            Ok(total) => total,
            Err(error) => return Err(error),
        };
        self.points_lost = match checked_sum(self.points_lost, points_lost, "points lost") {
            Ok(total) => total,
            Err(error) => return Err(error),
        };
        match self.performance_score.scaled_value().checked_add(delta.scaled_value()) {
            Some(total) => {
                self.performance_score = PerformanceScore::from_scaled(total);
                Ok(())
            },
            None => Err(TournamentApplicationError::StandingOverflow { component: "performance score" }),
        }
    }

    /// Adds an opponent's performance score to the opponent-strength sum.
    pub fn add_opponent_score(&mut self, score: PerformanceScore) -> (outcome: Result<(), TournamentApplicationError>)
        ensures
            outcome is Ok <==> i64::MIN <= old(self).opponent_score_sum.spec_scaled() + score.spec_scaled() <= i64::MAX,
            outcome matches Err(e) ==> e == overflow_error("opponent score sum"),
            outcome is Ok ==> final(self).opponent_score_sum.spec_scaled() == old(self).opponent_score_sum.spec_scaled()
                + score.spec_scaled(),
            final(self).entrant_id == old(self).entrant_id,
            final(self).performance_score == old(self).performance_score,
            final(self).matches_played == old(self).matches_played,
            final(self).matches_won == old(self).matches_won,
            final(self).matches_lost == old(self).matches_lost,
            final(self).games_won == old(self).games_won,
            final(self).games_lost == old(self).games_lost,
            final(self).points_won == old(self).points_won,
            final(self).points_lost == old(self).points_lost,
            final(self).bye_count == old(self).bye_count,
    {
        match self.opponent_score_sum.scaled_value().checked_add(score.scaled_value()) {
            Some(total) => {
                self.opponent_score_sum = PerformanceScore::from_scaled(total);
                Ok(())
            },
            None => Err(TournamentApplicationError::StandingOverflow { component: "opponent score sum" }),
        }
    }

    /// The standing: the totals and the game and point differences.
    pub fn finish(self) -> (outcome: Result<ContestantStanding, TournamentApplicationError>)
        ensures
            outcome is Ok <==> (i32::MIN <= self.games_won - self.games_lost <= i32::MAX && i32::MIN <= self.points_won
                - self.points_lost <= i32::MAX),
            outcome matches Err(e) ==> e is StandingOverflow,
            !(i32::MIN <= self.games_won - self.games_lost <= i32::MAX) ==> (outcome matches Err(e) && e
                == overflow_error("game difference")),
            (i32::MIN <= self.games_won - self.games_lost <= i32::MAX) && !(i32::MIN <= self.points_won
                - self.points_lost <= i32::MAX) ==> (outcome matches Err(e) && e == overflow_error("point difference")),
            outcome matches Ok(standing) ==> {
                &&& standing.entrant_id == self.entrant_id
                &&& standing.performance_score == self.performance_score
                &&& standing.matches_played == self.matches_played
                &&& standing.matches_won == self.matches_won
                &&& standing.matches_lost == self.matches_lost
                &&& standing.games_won == self.games_won
                &&& standing.games_lost == self.games_lost
                &&& standing.game_difference == self.games_won - self.games_lost
                &&& standing.points_won == self.points_won
                &&& standing.points_lost == self.points_lost
                &&& standing.point_difference == self.points_won - self.points_lost
                &&& standing.opponent_score_sum == self.opponent_score_sum
                &&& standing.bye_count == self.bye_count
            },
    {
        let game_difference = difference(self.games_won, self.games_lost, "game difference")?;
        let point_difference = difference(self.points_won, self.points_lost, "point difference")?;
        Ok(
            ContestantStanding {
                entrant_id: self.entrant_id,
                performance_score: self.performance_score,
                matches_played: self.matches_played,
                matches_won: self.matches_won,
                matches_lost: self.matches_lost,
                games_won: self.games_won,
                games_lost: self.games_lost,
                game_difference,
                points_won: self.points_won,
                points_lost: self.points_lost,
                point_difference,
                opponent_score_sum: self.opponent_score_sum,
                bye_count: self.bye_count,
            },
        )
    }
}

/// The sum, or the overflow error of the named total.
fn checked_add(first: u32, second: u32, component: &'static str) -> (outcome: Result<u32, TournamentApplicationError>)
    ensures
        first + second <= u32::MAX ==> outcome == Ok::<u32, TournamentApplicationError>((first + second) as u32),
        first + second > u32::MAX ==> (outcome matches Err(e) && e == overflow_error(component)),
{
    match first.checked_add(second) {
        Some(sum) => Ok(sum),
        None => Err(TournamentApplicationError::StandingOverflow { component }),
    }
}

/// The initial value plus all values, or the overflow error of the total.
fn checked_sum(initial: u32, values: &Vec<u16>, component: &'static str) -> (outcome: Result<
    u32,
    TournamentApplicationError,
>)
    ensures
        initial + point_total(values@) <= u32::MAX ==> (outcome matches Ok(total) && total == initial + point_total(
            values@,
        )),
        initial + point_total(values@) > u32::MAX ==> (outcome matches Err(e) && e == overflow_error(component)),
{
    let mut total: u32 = initial;
    let mut i: usize = 0;
    while i < values.len()
        invariant
            i <= values@.len(),
            total == initial + point_total(values@.subrange(0, i as int)),
        decreases values@.len() - i,
    {
        proof {
            assert(values@.subrange(0, i + 1).drop_last() =~= values@.subrange(0, i as int));
        }
        match total.checked_add(values[i] as u32) {
            Some(sum) => total = sum,
            None => {
                proof {
                    lemma_point_total_monotone(values@, i as int + 1);
                }
                return Err(TournamentApplicationError::StandingOverflow { component });
            },
        }
        i = i + 1;
    }
    proof {
        assert(values@.subrange(0, values@.len() as int) =~= values@);
    }
    Ok(total)
}

/// A prefix never totals more than the whole sequence.
proof fn lemma_point_total_monotone(values: Seq<u16>, count: int)
    requires
        0 <= count <= values.len(),
    ensures
        point_total(values.subrange(0, count)) <= point_total(values),
    decreases values.len() - count,
{
    if count < values.len() {
        lemma_point_total_monotone(values, count + 1);
        assert(values.subrange(0, count + 1).drop_last() =~= values.subrange(0, count));
    } else {
        assert(values.subrange(0, count) =~= values);
    }
}

/// `won - lost`, or the overflow error of the named total when it does not
/// fit in an `i32`.
fn difference(won: u32, lost: u32, component: &'static str) -> (outcome: Result<i32, TournamentApplicationError>)
    ensures
        i32::MIN <= won - lost <= i32::MAX ==> outcome == Ok::<i32, TournamentApplicationError>((won - lost) as i32),
        !(i32::MIN <= won - lost <= i32::MAX) ==> (outcome matches Err(e) && e == overflow_error(component)),
{
    let wide: i64 = won as i64 - lost as i64;
    if wide > i32::MAX as i64 || wide < i32::MIN as i64 {
        Err(TournamentApplicationError::StandingOverflow { component })
    } else {
        Ok(wide as i32)
    }
}

} // verus!
