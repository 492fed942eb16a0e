//! Published matches and their table assignment.
use vstd::prelude::*;

use crate::identity::{EntrantId, MatchId};
use crate::table::TableNumber;

verus! {

#[derive(Clone, Copy, Debug, PartialEq, Eq, Hash, Structural)]
pub enum MatchPublicationStatus {
    Draft,
    Published,
}

#[derive(Clone, Copy, Debug, PartialEq, Eq, Hash, Structural)]
pub enum RoundActivity {
    Active,
    Inactive,
}

/// A match between two entrants, possibly waiting for a table.
#[derive(Clone, Debug, PartialEq, Eq)]
pub struct ScheduledMatch {
    pub match_id: MatchId,
    pub home_entrant_id: EntrantId,
    pub away_entrant_id: EntrantId,
    pub table_number: Option<TableNumber>,
    pub publication_status: MatchPublicationStatus,
    pub round_activity: RoundActivity,
}

impl ScheduledMatch {
    pub closed spec fn spec_table_number(&self) -> Option<TableNumber> {
        self.table_number
    }

    /// A published match.
    pub fn published(
        match_id: MatchId,
        home_entrant_id: EntrantId,
        away_entrant_id: EntrantId,
        table_number: Option<TableNumber>,
        round_activity: RoundActivity,
    ) -> (scheduled: Self)
        ensures
            scheduled.match_id@ == match_id@,
            scheduled.home_entrant_id@ == home_entrant_id@,
            scheduled.away_entrant_id@ == away_entrant_id@,
            scheduled.spec_table_number() == table_number,
            scheduled.publication_status == MatchPublicationStatus::Published,
            scheduled.round_activity == round_activity,
    {
        ScheduledMatch {
            match_id,
            home_entrant_id,
            away_entrant_id,
            table_number,
            publication_status: MatchPublicationStatus::Published,
            round_activity,
        }
    }

    pub fn table_number(&self) -> (table: Option<TableNumber>)
        ensures
            table == self.spec_table_number(),
    {
        self.table_number
    }

    /// The same match at another table, or waiting for one.
    pub fn with_table_number(self, table_number: Option<TableNumber>) -> (scheduled: Self)
        ensures
            scheduled.match_id@ == self.match_id@,
            scheduled.home_entrant_id@ == self.home_entrant_id@,
            scheduled.away_entrant_id@ == self.away_entrant_id@,
            scheduled.spec_table_number() == table_number,
            scheduled.publication_status == self.publication_status,
            scheduled.round_activity == self.round_activity,
    {
        ScheduledMatch { table_number, ..self }
    }

    /// A copy with the same contents.
    pub fn duplicate(&self) -> (copy: Self)
        ensures
            copy.match_id@ == self.match_id@,
            copy.home_entrant_id@ == self.home_entrant_id@,
            copy.away_entrant_id@ == self.away_entrant_id@,
            copy.spec_table_number() == self.spec_table_number(),
            copy.publication_status == self.publication_status,
            copy.round_activity == self.round_activity,
    {
        ScheduledMatch {
            match_id: self.match_id.duplicate(),
            home_entrant_id: self.home_entrant_id.duplicate(),
            away_entrant_id: self.away_entrant_id.duplicate(),
            table_number: self.table_number,
            publication_status: self.publication_status,
            round_activity: self.round_activity,
        }
    }
}

} // verus!
