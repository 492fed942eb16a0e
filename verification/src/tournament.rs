//! Tournament configuration and lifecycle.
use vstd::prelude::*;

pub use crate::identity::TournamentId;
use crate::results::MatchFormat;

use crate::text::{signed_decimal, signed_decimal_text};
use vstd::string::StringExecFns;

verus! {

#[derive(Clone, Copy, Debug, PartialEq, Eq, Hash, Structural)]
pub enum TournamentState {
    Draft,
    Started,
}

/// The number of tables available, at least one.
#[derive(Clone, Copy, Debug, PartialEq, Eq, PartialOrd, Ord, Hash, Structural)]
pub struct TableCount(u16);

/// The number of rounds the tournament plays, at least one.
#[derive(Clone, Copy, Debug, PartialEq, Eq, PartialOrd, Ord, Hash, Structural)]
pub struct MaximumRoundCount(u16);

#[derive(Clone, Copy, Debug, PartialEq, Eq, Hash, Structural)]
pub enum TournamentError {
    InvalidTableCount { value: i64 },
    InvalidMaximumRoundCount { value: i64 },
    AlreadyStarted,
}

/// The tournament error in words.
pub open spec fn tournament_error_text(error: TournamentError) -> Seq<char> {
    match error {
        TournamentError::InvalidTableCount { value } => "table count must be between 1 and 65535, received "@
            + signed_decimal_text(value as int),
        TournamentError::InvalidMaximumRoundCount { value } => "maximum round count must be between 1 and 65535, received "@
            + signed_decimal_text(value as int),
        TournamentError::AlreadyStarted => "tournament has already started"@,
    }
}

impl TournamentError {
    /// The error in words.
    pub fn message(&self) -> (text: String)
        ensures
            text@ == tournament_error_text(*self),
    {
        match self {
            TournamentError::InvalidTableCount { value } => {
                let mut text = String::from_str("table count must be between 1 and 65535, received ");
                let digits = signed_decimal(*value);
                text.append(digits.as_str());
                text
            },
            TournamentError::InvalidMaximumRoundCount { value } => {
                let mut text = String::from_str("maximum round count must be between 1 and 65535, received ");
                let digits = signed_decimal(*value);
                text.append(digits.as_str());
                text
            },
            TournamentError::AlreadyStarted => String::from_str("tournament has already started"),
        }
    }
}

impl TableCount {
    pub closed spec fn spec_value(self) -> u16 {
        self.0
    }

    pub fn try_from(value: i64) -> (count: Result<Self, TournamentError>)
        ensures
            count is Ok <==> 1 <= value <= u16::MAX,
            count matches Ok(c) ==> c.spec_value() == value,
            count matches Err(e) ==> e == (TournamentError::InvalidTableCount { value }),
    {
        if value >= 1 && value <= 65535 {
            Ok(TableCount(value as u16))
        } else {
            Err(TournamentError::InvalidTableCount { value })
        }
    }

    pub fn value(self) -> (value: u16)
        ensures
            value == self.spec_value(),
    {
        self.0
    }
}

impl MaximumRoundCount {
    pub closed spec fn spec_value(self) -> u16 {
        self.0
    }

    pub fn try_from(value: i64) -> (count: Result<Self, TournamentError>)
        ensures
            count is Ok <==> 1 <= value <= u16::MAX,
            count matches Ok(c) ==> c.spec_value() == value,
            count matches Err(e) ==> e == (TournamentError::InvalidMaximumRoundCount { value }),
    {
        if value >= 1 && value <= 65535 {
            Ok(MaximumRoundCount(value as u16))
        } else {
            Err(TournamentError::InvalidMaximumRoundCount { value })
        }
    }

    pub fn value(self) -> (value: u16)
        ensures
            value == self.spec_value(),
    {
        self.0
    }
}

/// A tournament's identity, configuration and lifecycle state.
#[derive(Clone, Debug, PartialEq, Eq)]
pub struct Tournament {
    id: TournamentId,
    match_format: MatchFormat,
    table_count: TableCount,
    maximum_round_count: MaximumRoundCount,
    state: TournamentState,
}

impl Tournament {
    pub closed spec fn spec_id(&self) -> Seq<char> {
        self.id@
    }

    pub closed spec fn spec_match_format(&self) -> MatchFormat {
        self.match_format
    }

    pub closed spec fn spec_table_count(&self) -> TableCount {
        self.table_count
    }

    pub closed spec fn spec_maximum_round_count(&self) -> MaximumRoundCount {
        self.maximum_round_count
    }

    pub closed spec fn spec_state(&self) -> TournamentState {
        self.state
    }

    /// A new tournament in the draft state.
    pub fn new(
        id: TournamentId,
        match_format: MatchFormat,
        table_count: TableCount,
        maximum_round_count: MaximumRoundCount,
    ) -> (tournament: Self)
        ensures
            tournament.spec_id() == id@,
            tournament.spec_match_format() == match_format,
            tournament.spec_table_count() == table_count,
            tournament.spec_maximum_round_count() == maximum_round_count,
            tournament.spec_state() == TournamentState::Draft,
    {
        Tournament { id, match_format, table_count, maximum_round_count, state: TournamentState::Draft }
    }

    /// The same tournament in the given lifecycle state.
    pub fn with_state(self, state: TournamentState) -> (tournament: Self)
        ensures
            tournament.spec_id() == self.spec_id(),
            tournament.spec_match_format() == self.spec_match_format(),
            tournament.spec_table_count() == self.spec_table_count(),
            tournament.spec_maximum_round_count() == self.spec_maximum_round_count(),
            tournament.spec_state() == state,
    {
        Tournament { state, ..self }
    }

    pub fn id(&self) -> (id: &TournamentId)
        ensures
            id@ == self.spec_id(),
    {
        &self.id
    }

    pub fn match_format(&self) -> (format: MatchFormat)
        ensures
            format == self.spec_match_format(),
    {
        self.match_format
    }

    pub fn table_count(&self) -> (count: TableCount)
        ensures
            count == self.spec_table_count(),
    {
        self.table_count
    }

    pub fn maximum_round_count(&self) -> (count: MaximumRoundCount)
        ensures
            count == self.spec_maximum_round_count(),
    {
        self.maximum_round_count
    }

    pub fn state(&self) -> (state: TournamentState)
        ensures
            state == self.spec_state(),
    {
        self.state
    }

    /// A copy with the same id, configuration and state.
    pub fn duplicate(&self) -> (copy: Self)
        ensures
            copy.spec_id() == self.spec_id(),
            copy.spec_match_format() == self.spec_match_format(),
            copy.spec_table_count() == self.spec_table_count(),
            copy.spec_maximum_round_count() == self.spec_maximum_round_count(),
            copy.spec_state() == self.spec_state(),
    {
        Tournament {
            id: self.id.duplicate(),
            match_format: self.match_format,
            table_count: self.table_count,
            maximum_round_count: self.maximum_round_count,
            state: self.state,
        }
    }

    /// Moves a draft tournament into the started state; a started tournament
    /// cannot start again.
    pub fn start(&mut self) -> (outcome: Result<(), TournamentError>)
        ensures
            outcome is Ok <==> old(self).spec_state() == TournamentState::Draft,
            outcome matches Err(e) ==> e == TournamentError::AlreadyStarted,
            final(self).spec_id() == old(self).spec_id(),
            final(self).spec_match_format() == old(self).spec_match_format(),
            final(self).spec_table_count() == old(self).spec_table_count(),
            final(self).spec_maximum_round_count() == old(self).spec_maximum_round_count(),
            final(self).spec_state() == TournamentState::Started,
    {
        match self.state {
            TournamentState::Draft => {
                self.state = TournamentState::Started;
                Ok(())
            },
            TournamentState::Started => Err(TournamentError::AlreadyStarted),
        }
    }
}

} // verus!
