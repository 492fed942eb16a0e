use vstd::prelude::*;

use crate::identity::{EntrantId, MatchId};
use crate::pairing::TableAssignmentError;
use crate::pairing::algorithms::blossom_v1::BlossomPairingError;
use crate::results::MatchResultError;
use crate::tournament::TournamentError;
use vstd::std_specs::convert::FromSpecImpl;
use vstd::string::StringExecFns;
use crate::pairing::algorithms::blossom_v1::pairing_error_text;
use crate::pairing::table_assignment_error_text;
use crate::results::match_result_error_text;
use crate::text::{decimal, decimal_text};
use crate::tournament::tournament_error_text;

verus! {

#[derive(Debug)]
pub enum TournamentApplicationError {
    DuplicateEntrant { entrant_id: EntrantId },
    NotEnoughEntrants { entrant_count: usize },
    TournamentNotStarted,
    ActiveRoundExists,
    NoPairingPreview,
    NoActiveRound,
    UnknownMatch { match_id: MatchId },
    MatchAwaitingTable { match_id: MatchId },
    InvalidRoundHistory { match_id: MatchId },
    UnknownEntrantInRound { entrant_id: EntrantId },
    ResultAlreadyEntered { match_id: MatchId },
    RoundIncomplete { missing_result_count: usize },
    MaximumRoundsCompleted { maximum_round_count: u16 },
    RoundNumberOverflow,
    StandingOverflow { component: &'static str },
    Tournament(TournamentError),
    Pairing(BlossomPairingError),
    TableAssignment(TableAssignmentError),
    MatchResult(MatchResultError),
}

impl From<TournamentError> for TournamentApplicationError {
    fn from(value: TournamentError) -> (error: Self) {
        TournamentApplicationError::Tournament(value)
    }
}

impl FromSpecImpl<TournamentError> for TournamentApplicationError {
    open spec fn obeys_from_spec() -> bool {
        true
    }

    open spec fn from_spec(value: TournamentError) -> Self {
        TournamentApplicationError::Tournament(value)
    }
}

impl From<BlossomPairingError> for TournamentApplicationError {
    fn from(value: BlossomPairingError) -> (error: Self) {
        TournamentApplicationError::Pairing(value)
    }
}

impl FromSpecImpl<BlossomPairingError> for TournamentApplicationError {
    open spec fn obeys_from_spec() -> bool {
        true
    }

    open spec fn from_spec(value: BlossomPairingError) -> Self {
        TournamentApplicationError::Pairing(value)
    }
}

impl From<TableAssignmentError> for TournamentApplicationError {
    fn from(value: TableAssignmentError) -> (error: Self) {
        TournamentApplicationError::TableAssignment(value)
    }
}

impl FromSpecImpl<TableAssignmentError> for TournamentApplicationError {
    open spec fn obeys_from_spec() -> bool {
        true
    }

    open spec fn from_spec(value: TableAssignmentError) -> Self {
        TournamentApplicationError::TableAssignment(value)
    }
}

impl From<MatchResultError> for TournamentApplicationError {
    fn from(value: MatchResultError) -> (error: Self) {
        TournamentApplicationError::MatchResult(value)
    }
}

impl FromSpecImpl<MatchResultError> for TournamentApplicationError {
    open spec fn obeys_from_spec() -> bool {
        true
    }

    open spec fn from_spec(value: MatchResultError) -> Self {
        TournamentApplicationError::MatchResult(value)
    }
}

/// The application error in words; a wrapped error speaks for itself.
pub open spec fn application_error_text(error: TournamentApplicationError) -> Seq<char> {
    match error {
        TournamentApplicationError::DuplicateEntrant { entrant_id } => "entrant "@ + entrant_id@
            + " is already registered"@,
        TournamentApplicationError::NotEnoughEntrants { entrant_count } =>
            "at least two entrants are required to start, received "@ + decimal_text(entrant_count as u64),
        TournamentApplicationError::TournamentNotStarted => "tournament has not started"@,
        TournamentApplicationError::ActiveRoundExists => "a round is already active"@,
        TournamentApplicationError::NoPairingPreview => "no pairing preview is available"@,
        TournamentApplicationError::NoActiveRound => "there is no active round"@,
        TournamentApplicationError::UnknownMatch { match_id } => "match "@ + match_id@ + " is not in the active round"@,
        TournamentApplicationError::MatchAwaitingTable { match_id } => "match "@ + match_id@
            + " is waiting for an available table"@,
        TournamentApplicationError::InvalidRoundHistory { match_id } => "completed result "@ + match_id@
            + " has no corresponding scheduled match"@,
        TournamentApplicationError::UnknownEntrantInRound { entrant_id } => "round history references unknown entrant "@
            + entrant_id@,
        TournamentApplicationError::ResultAlreadyEntered { match_id } => "match "@ + match_id@ + " already has a result"@,
        TournamentApplicationError::RoundIncomplete { missing_result_count } => "round cannot be completed while "@
            + decimal_text(missing_result_count as u64) + " results are missing"@,
        TournamentApplicationError::MaximumRoundsCompleted { maximum_round_count } => "all "@ + decimal_text(
            maximum_round_count as u64,
        ) + " configured rounds have been completed"@,
        TournamentApplicationError::RoundNumberOverflow => "round number exceeds its limit"@,
        TournamentApplicationError::StandingOverflow { component } => "standing value overflowed while calculating "@
            + component@,
        TournamentApplicationError::Tournament(inner) => tournament_error_text(inner),
        TournamentApplicationError::Pairing(inner) => pairing_error_text(inner),
        TournamentApplicationError::TableAssignment(inner) => table_assignment_error_text(inner),
        TournamentApplicationError::MatchResult(inner) => match_result_error_text(inner),
    }
}

/// `prefix`, then `rest`.
fn join_two(prefix: &str, rest: &str) -> (text: String)
    ensures
        text@ == prefix@ + rest@,
{
    let mut text = String::from_str(prefix);
    text.append(rest);
    text
}

/// `prefix`, then `middle`, then `suffix`.
fn join_three(prefix: &str, middle: &str, suffix: &str) -> (text: String)
    ensures
        text@ == prefix@ + middle@ + suffix@,
{
    let mut text = String::from_str(prefix);
    text.append(middle);
    text.append(suffix);
    text
}

impl TournamentApplicationError {
    /// The error in words.
    pub fn message(&self) -> (text: String)
        ensures
            text@ == application_error_text(*self),
    {
        match self {
            TournamentApplicationError::DuplicateEntrant { entrant_id } => join_three(
                "entrant ",
                entrant_id.as_str(),
                " is already registered",
            ),
            TournamentApplicationError::NotEnoughEntrants { entrant_count } => {
                let digits = decimal(*entrant_count as u64);
                join_two("at least two entrants are required to start, received ", digits.as_str())
            },
            TournamentApplicationError::TournamentNotStarted => String::from_str("tournament has not started"),
            TournamentApplicationError::ActiveRoundExists => String::from_str("a round is already active"),
            TournamentApplicationError::NoPairingPreview => String::from_str("no pairing preview is available"),
            TournamentApplicationError::NoActiveRound => String::from_str("there is no active round"),
            TournamentApplicationError::UnknownMatch { match_id } => join_three(
                "match ",
                match_id.as_str(),
                " is not in the active round",
            ),
            TournamentApplicationError::MatchAwaitingTable { match_id } => join_three(
                "match ",
                match_id.as_str(),
                " is waiting for an available table",
            ),
            TournamentApplicationError::InvalidRoundHistory { match_id } => join_three(
                "completed result ",
                match_id.as_str(),
                " has no corresponding scheduled match",
            ),
            TournamentApplicationError::UnknownEntrantInRound { entrant_id } => join_two(
                "round history references unknown entrant ",
                entrant_id.as_str(),
            ),
            TournamentApplicationError::ResultAlreadyEntered { match_id } => join_three(
                "match ",
                match_id.as_str(),
                " already has a result",
            ),
            TournamentApplicationError::RoundIncomplete { missing_result_count } => {
                let digits = decimal(*missing_result_count as u64);
                join_three("round cannot be completed while ", digits.as_str(), " results are missing")
            },
            TournamentApplicationError::MaximumRoundsCompleted { maximum_round_count } => {
                let digits = decimal(*maximum_round_count as u64);
                join_three("all ", digits.as_str(), " configured rounds have been completed")
            },
            TournamentApplicationError::RoundNumberOverflow => String::from_str("round number exceeds its limit"),
            TournamentApplicationError::StandingOverflow { component } => join_two(
                "standing value overflowed while calculating ",
                component,
            ),
            TournamentApplicationError::Tournament(inner) => inner.message(),
            TournamentApplicationError::Pairing(inner) => inner.message(),
            TournamentApplicationError::TableAssignment(inner) => inner.message(),
            TournamentApplicationError::MatchResult(inner) => inner.message(),
        }
    }
}

} // verus!
