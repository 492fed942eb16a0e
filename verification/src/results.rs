//! Match formats, game scores and validated match results.
use vstd::prelude::*;

use crate::identity::{EntrantId, MatchId};
use crate::scheduling::{MatchPublicationStatus, ScheduledMatch};

pub use crate::scheduling::RoundActivity;
use crate::text::{decimal, decimal_text};
use vstd::string::StringExecFns;

verus! {

#[derive(Clone, Copy, Debug, PartialEq, Eq, Hash, Structural)]
pub enum MatchFormat {
    BestOfThree,
    BestOfFive,
}

#[derive(Clone, Copy, Debug, PartialEq, Eq, Hash, Structural)]
pub enum MatchSide {
    Home,
    Away,
}

/// Games a contestant must win to take a match.
pub open spec fn games_to_win(format: MatchFormat) -> u8 {
    match format {
        MatchFormat::BestOfThree => 2,
        MatchFormat::BestOfFive => 3,
    }
}

impl MatchFormat {
    pub fn games_to_win(self) -> (games: u8)
        ensures
            games == games_to_win(self),
    {
        match self {
            MatchFormat::BestOfThree => 2,
            MatchFormat::BestOfFive => 3,
        }
    }
}

/// The position of a game within its match, counted from one.
#[derive(Clone, Copy, Debug, PartialEq, Eq, PartialOrd, Ord, Hash, Structural)]
pub struct GameNumber(u8);

/// Points one side scored in a game.
#[derive(Clone, Copy, Debug, PartialEq, Eq, PartialOrd, Ord, Hash, Structural)]
pub struct GamePoints(u16);

/// Games one side won in a match.
#[derive(Clone, Copy, Debug, PartialEq, Eq, PartialOrd, Ord, Hash, Structural)]
pub struct GameCount(u8);

/// How often a result was entered or corrected, counted from one.
#[derive(Clone, Copy, Debug, PartialEq, Eq, PartialOrd, Ord, Hash, Structural)]
pub struct ResultRevision(u32);

impl GameNumber {
    pub closed spec fn spec_value(self) -> u8 {
        self.0
    }

    pub fn value(self) -> (value: u8)
        ensures
            value == self.spec_value(),
    {
        self.0
    }
}

impl GamePoints {
    pub closed spec fn spec_value(self) -> u16 {
        self.0
    }

    pub fn value(self) -> (value: u16)
        ensures
            value == self.spec_value(),
    {
        self.0
    }
}

impl GameCount {
    pub closed spec fn spec_value(self) -> u8 {
        self.0
    }

    pub fn value(self) -> (value: u8)
        ensures
            value == self.spec_value(),
    {
        self.0
    }
}

impl ResultRevision {
    pub closed spec fn spec_value(self) -> u32 {
        self.0
    }

    pub fn value(self) -> (value: u32)
        ensures
            value == self.spec_value(),
    {
        self.0
    }
}

/// A finished table-tennis game: the winner reaches eleven points, and after
/// ten-all the game goes on until one side leads by two.
pub open spec fn valid_game_points(home: u16, away: u16) -> bool {
    if home > away {
        home >= 11 && (if away >= 10 { home - away == 2 } else { home == 11 })
    } else if away > home {
        away >= 11 && (if home >= 10 { away - home == 2 } else { away == 11 })
    } else {
        false
    }
}

#[derive(Clone, Copy, Debug, PartialEq, Eq, Hash, Structural)]
pub struct GameScore {
    pub game_number: GameNumber,
    pub home_points: GamePoints,
    pub away_points: GamePoints,
}

impl GameScore {
    /// A game score, refused unless the game number is positive and the
    /// points describe a finished game.
    pub fn new(game_number: u8, home_points: u16, away_points: u16) -> (score: Result<
        Self,
        MatchResultError,
    >)
        ensures
            score is Ok <==> game_number >= 1 && valid_game_points(home_points, away_points),
            score matches Ok(s) ==> s.game_number.spec_value() == game_number
                && s.home_points.spec_value() == home_points && s.away_points.spec_value()
                == away_points,
            score matches Err(e) ==> e == (MatchResultError::InvalidGameScore { game_number }),
    {
        let valid_points = if home_points > away_points {
            home_points >= 11 && (if away_points >= 10 {
                home_points - away_points == 2
            } else {
                home_points == 11
            })
        } else if away_points > home_points {
            away_points >= 11 && (if home_points >= 10 {
                away_points - home_points == 2
            } else {
                away_points == 11
            })
        } else {
            false
        };
        if game_number >= 1 && valid_points {
            Ok(GameScore {
                game_number: GameNumber(game_number),
                home_points: GamePoints(home_points),
                away_points: GamePoints(away_points),
            })
        } else {
            Err(MatchResultError::InvalidGameScore { game_number })
        }
    }

    pub open spec fn home_won(self) -> bool {
        self.home_points.spec_value() > self.away_points.spec_value()
    }
}

#[derive(Clone, Copy, Debug, PartialEq, Eq, Hash, Structural)]
pub enum MatchResultError {
    MatchNotInActiveRound,
    GameNumberOutOfSequence { expected: u8 },
    InvalidGameScore { game_number: u8 },
    MatchIncomplete,
    GamesAfterMatchDecided,
}

/// The result error in words.
pub open spec fn match_result_error_text(error: MatchResultError) -> Seq<char> {
    match error {
        MatchResultError::MatchNotInActiveRound => "match is not published in an active round"@,
        MatchResultError::GameNumberOutOfSequence { expected } => "game number is out of sequence, expected game "@
            + decimal_text(expected as u64),
        MatchResultError::InvalidGameScore { game_number } => "game "@ + decimal_text(game_number as u64)
            + " has an invalid score"@,
        MatchResultError::MatchIncomplete => "match has not been decided"@,
        MatchResultError::GamesAfterMatchDecided => "games were entered after the match was decided"@,
    }
}

impl MatchResultError {
    /// The error in words.
    pub fn message(&self) -> (text: String)
        ensures
            text@ == match_result_error_text(*self),
    {
        match self {
            MatchResultError::MatchNotInActiveRound => String::from_str("match is not published in an active round"),
            MatchResultError::GameNumberOutOfSequence { expected } => {
                let mut text = String::from_str("game number is out of sequence, expected game ");
                let digits = decimal(*expected as u64);
                text.append(digits.as_str());
                text
            },
            MatchResultError::InvalidGameScore { game_number } => {
                let mut text = String::from_str("game ");
                let digits = decimal(*game_number as u64);
                text.append(digits.as_str());
                text.append(" has an invalid score");
                text
            },
            MatchResultError::MatchIncomplete => String::from_str("match has not been decided"),
            MatchResultError::GamesAfterMatchDecided => String::from_str("games were entered after the match was decided"),
        }
    }
}

/// Games among the first `n` that the home side won.
pub open spec fn home_wins(games: Seq<GameScore>, n: int) -> nat
    decreases n,
{
    if n <= 0 {
        0
    } else {
        home_wins(games, n - 1) + if games[n - 1].home_won() { 1nat } else { 0nat }
    }
}

/// Games among the first `n` that the away side won.
pub open spec fn away_wins(games: Seq<GameScore>, n: int) -> nat
    decreases n,
{
    if n <= 0 {
        0
    } else {
        away_wins(games, n - 1) + if games[n - 1].home_won() { 0nat } else { 1nat }
    }
}

/// Every game is numbered by its position and has a finished score.
pub open spec fn games_well_formed(games: Seq<GameScore>) -> bool {
    forall|i: int|
        0 <= i < games.len() ==> {
            &&& (#[trigger] games[i]).game_number.spec_value() == i + 1
            &&& valid_game_points(games[i].home_points.spec_value(), games[i].away_points.spec_value())
        }
}

/// Some side reached the winning number of games.
pub open spec fn match_reached_decision(games: Seq<GameScore>, format: MatchFormat) -> bool {
    home_wins(games, games.len() as int) >= games_to_win(format) || away_wins(
        games,
        games.len() as int,
    ) >= games_to_win(format)
}

/// The match was decided by its final game and not before.
pub open spec fn match_decided_by_last_game(games: Seq<GameScore>, format: MatchFormat) -> bool {
    let n = games.len() as int;
    let target = games_to_win(format) as int;
    n >= 1 && if games[n - 1].home_won() {
        home_wins(games, n) == target && away_wins(games, n) < target
    } else {
        away_wins(games, n) == target && home_wins(games, n) < target
    }
}

proof fn lemma_wins_total(games: Seq<GameScore>, n: int)
    requires
        0 <= n <= games.len(),
    ensures
        home_wins(games, n) + away_wins(games, n) == n,
    decreases n,
{
    if n > 0 {
        lemma_wins_total(games, n - 1);
    }
}

/// A validated result for a published match.
#[derive(Clone, Debug, PartialEq, Eq)]
pub struct MatchResult {
    match_id: MatchId,
    games: Vec<GameScore>,
    home_games_won: GameCount,
    away_games_won: GameCount,
    winner_id: EntrantId,
    entered_at_unix_milliseconds: u64,
    corrected_at_unix_milliseconds: Option<u64>,
    revision: ResultRevision,
}

impl MatchResult {
    pub closed spec fn spec_match_id(&self) -> Seq<char> {
        self.match_id@
    }

    pub closed spec fn spec_games(&self) -> Seq<GameScore> {
        self.games@
    }

    pub closed spec fn spec_home_games_won(&self) -> u8 {
        self.home_games_won.0
    }

    pub closed spec fn spec_away_games_won(&self) -> u8 {
        self.away_games_won.0
    }

    pub closed spec fn spec_winner_id(&self) -> Seq<char> {
        self.winner_id@
    }

    pub closed spec fn spec_revision(&self) -> u32 {
        self.revision.0
    }

    /// A result as it was recorded earlier, its counts, winner and
    /// timestamps taken as given; restoring an application checks such
    /// results against their games before trusting them.
    pub fn from_parts(
        match_id: MatchId,
        games: Vec<GameScore>,
        home_games_won: u8,
        away_games_won: u8,
        winner_id: EntrantId,
        entered_at_unix_milliseconds: u64,
        corrected_at_unix_milliseconds: Option<u64>,
        revision: u32,
    ) -> (result: Self)
        ensures
            result.spec_match_id() == match_id@,
            result.spec_games() == games@,
            result.spec_home_games_won() == home_games_won,
            result.spec_away_games_won() == away_games_won,
            result.spec_winner_id() == winner_id@,
            result.spec_entered_at() == entered_at_unix_milliseconds,
            result.spec_corrected_at() == corrected_at_unix_milliseconds,
            result.spec_revision() == revision,
    {
        MatchResult {
            match_id,
            games,
            home_games_won: GameCount(home_games_won),
            away_games_won: GameCount(away_games_won),
            winner_id,
            entered_at_unix_milliseconds,
            corrected_at_unix_milliseconds,
            revision: ResultRevision(revision),
        }
    }

    pub fn match_id(&self) -> (id: &MatchId)
        ensures
            id@ == self.spec_match_id(),
    {
        &self.match_id
    }

    pub fn games(&self) -> (games: &Vec<GameScore>)
        ensures
            games@ == self.spec_games(),
    {
        &self.games
    }

    pub fn home_games_won(&self) -> (count: GameCount)
        ensures
            count.spec_value() == self.spec_home_games_won(),
    {
        self.home_games_won
    }

    pub fn away_games_won(&self) -> (count: GameCount)
        ensures
            count.spec_value() == self.spec_away_games_won(),
    {
        self.away_games_won
    }

    pub fn winner_id(&self) -> (id: &EntrantId)
        ensures
            id@ == self.spec_winner_id(),
    {
        &self.winner_id
    }

    pub closed spec fn spec_entered_at(&self) -> u64 {
        self.entered_at_unix_milliseconds
    }

    pub closed spec fn spec_corrected_at(&self) -> Option<u64> {
        self.corrected_at_unix_milliseconds
    }

    pub fn entered_at_unix_milliseconds(&self) -> (at: u64)
        ensures
            at == self.spec_entered_at(),
    {
        self.entered_at_unix_milliseconds
    }

    pub fn corrected_at_unix_milliseconds(&self) -> (at: Option<u64>)
        ensures
            at == self.spec_corrected_at(),
    {
        self.corrected_at_unix_milliseconds
    }

    pub fn revision(&self) -> (revision: ResultRevision)
        ensures
            revision.spec_value() == self.spec_revision(),
    {
        self.revision
    }

    /// A copy with the same contents.
    pub fn duplicate(&self) -> (copy: Self)
        ensures
            copy.spec_match_id() == self.spec_match_id(),
            copy.spec_games() == self.spec_games(),
            copy.spec_home_games_won() == self.spec_home_games_won(),
            copy.spec_away_games_won() == self.spec_away_games_won(),
            copy.spec_winner_id() == self.spec_winner_id(),
            copy.spec_revision() == self.spec_revision(),
    {
        let mut games: Vec<GameScore> = Vec::new();
        let mut i: usize = 0;
        while i < self.games.len()
            invariant
                i <= self.games.len(),
                games@ == self.games@.take(i as int),
            decreases self.games.len() - i,
        {
            games.push(self.games[i]);
            i = i + 1;
            assert(games@ =~= self.games@.take(i as int));
        }
        assert(games@ =~= self.games@);
        MatchResult {
            match_id: self.match_id.duplicate(),
            games,
            home_games_won: self.home_games_won,
            away_games_won: self.away_games_won,
            winner_id: self.winner_id.duplicate(),
            entered_at_unix_milliseconds: self.entered_at_unix_milliseconds,
            corrected_at_unix_milliseconds: self.corrected_at_unix_milliseconds,
            revision: self.revision,
        }
    }
}

/// Milliseconds since the Unix epoch on the system clock, or zero when the
/// clock reads earlier than the epoch. Wraps `SystemTime::now` and
/// `duration_since`; nothing is promised of the value, which depends on the
/// clock.
#[verifier::external_body]
fn current_unix_milliseconds() -> u64 {
    match std::time::SystemTime::now().duration_since(std::time::UNIX_EPOCH) {
        Ok(duration) => u64::try_from(duration.as_millis()).unwrap_or(u64::MAX),
        Err(_) => 0,
    }
}

/// Validates the games of a published match in an active round and derives
/// the games each side won and the winner.
pub fn validate_and_complete_match(
    scheduled: &ScheduledMatch,
    format: MatchFormat,
    games: Vec<GameScore>,
) -> (outcome: Result<MatchResult, MatchResultError>)
    ensures
        !(scheduled.publication_status == MatchPublicationStatus::Published
            && scheduled.round_activity == RoundActivity::Active) ==> outcome == Err::<
            MatchResult,
            MatchResultError,
        >(MatchResultError::MatchNotInActiveRound),
        outcome is Ok <==> {
            &&& scheduled.publication_status == MatchPublicationStatus::Published
            &&& scheduled.round_activity == RoundActivity::Active
            &&& games_well_formed(games@)
            &&& match_decided_by_last_game(games@, format)
        },
        outcome matches Ok(result) ==> {
            &&& result.spec_match_id() == scheduled.match_id@
            &&& result.spec_games() == games@
            &&& result.spec_home_games_won() == home_wins(games@, games@.len() as int)
            &&& result.spec_away_games_won() == away_wins(games@, games@.len() as int)
            &&& result.spec_winner_id() == if games@.last().home_won() {
                scheduled.home_entrant_id@
            } else {
                scheduled.away_entrant_id@
            }
            &&& result.spec_revision() == 1
        },
        outcome == Err::<MatchResult, MatchResultError>(MatchResultError::MatchIncomplete) <==> {
            &&& scheduled.publication_status == MatchPublicationStatus::Published
            &&& scheduled.round_activity == RoundActivity::Active
            &&& games_well_formed(games@)
            &&& !match_reached_decision(games@, format)
        },
        outcome == Err::<MatchResult, MatchResultError>(MatchResultError::GamesAfterMatchDecided)
            <==> {
            &&& scheduled.publication_status == MatchPublicationStatus::Published
            &&& scheduled.round_activity == RoundActivity::Active
            &&& games_well_formed(games@)
            &&& match_reached_decision(games@, format)
            &&& !match_decided_by_last_game(games@, format)
        },
{
    if !(scheduled.publication_status == MatchPublicationStatus::Published
        && scheduled.round_activity == RoundActivity::Active) {
        return Err(MatchResultError::MatchNotInActiveRound);
    }
    let n = games.len();
    let mut i: usize = 0;
    while i < n
        invariant
            n == games.len(),
            i <= n,
            i <= 255,
            scheduled.publication_status == MatchPublicationStatus::Published,
            scheduled.round_activity == RoundActivity::Active,
            forall|j: int|
                0 <= j < i ==> {
                    &&& (#[trigger] games@[j]).game_number.spec_value() == j + 1
                    &&& valid_game_points(
                        games@[j].home_points.spec_value(),
                        games@[j].away_points.spec_value(),
                    )
                },
        decreases n - i,
    {
        let game = games[i];
        if i >= 255 || game.game_number.0 as usize != i + 1 {
            let expected: u8 = if i >= 255 { 255 } else { (i + 1) as u8 };
            assert(games@[i as int].game_number.spec_value() != i + 1);
            return Err(MatchResultError::GameNumberOutOfSequence { expected });
        }
        let h = game.home_points.0;
        let a = game.away_points.0;
        let valid_points = if h > a {
            h >= 11 && (if a >= 10 { h - a == 2 } else { h == 11 })
        } else if a > h {
            a >= 11 && (if h >= 10 { a - h == 2 } else { a == 11 })
        } else {
            false
        };
        if !valid_points {
            assert(games@[i as int] == game);
            return Err(MatchResultError::InvalidGameScore { game_number: game.game_number.0 });
        }
        i = i + 1;
    }
    let target = format.games_to_win();
    let mut home: u8 = 0;
    let mut away: u8 = 0;
    let mut k: usize = 0;
    while k < n
        invariant
            n == games.len(),
            n <= 255,
            k <= n,
            home == home_wins(games@, k as int),
            away == away_wins(games@, k as int),
        decreases n - k,
    {
        proof {
            lemma_wins_total(games@, k as int);
        }
        if games[k].home_points.0 > games[k].away_points.0 {
            home = home + 1;
        } else {
            away = away + 1;
        }
        k = k + 1;
    }
    if home < target && away < target {
        return Err(MatchResultError::MatchIncomplete);
    }
    let last = games[n - 1];
    let home_won_last = last.home_points.0 > last.away_points.0;
    let decided = if home_won_last {
        home == target && away < target
    } else {
        away == target && home < target
    };
    if !decided {
        return Err(MatchResultError::GamesAfterMatchDecided);
    }
    let winner_id = if home_won_last {
        scheduled.home_entrant_id.duplicate()
    } else {
        scheduled.away_entrant_id.duplicate()
    };
    Ok(MatchResult {
        match_id: scheduled.match_id.duplicate(),
        games,
        home_games_won: GameCount(home),
        away_games_won: GameCount(away),
        winner_id,
        entered_at_unix_milliseconds: current_unix_milliseconds(),
        corrected_at_unix_milliseconds: None,
        revision: ResultRevision(1),
    })
}

proof fn lemma_wins_monotone(games: Seq<GameScore>, i: int, n: int)
    requires
        0 <= i <= n <= games.len(),
    ensures
        home_wins(games, i) <= home_wins(games, n),
        away_wins(games, i) <= away_wins(games, n),
    decreases n - i,
{
    if i < n {
        lemma_wins_monotone(games, i, n - 1);
    }
}

} // verus!
