//! Contestant pairing, match publication and table assignment.

pub mod algorithms;
mod publication;
mod table_assignment;

pub use crate::table::TableNumber;
pub use crate::value_types::EloRating;
pub use publication::{MatchPublication, publish_scheduled_matches};
pub use table_assignment::{
    TableAssignmentEntrant, TableAssignmentError, assign_tables, elo_sum_of, listed, match_key_precedes, ranks_before,
    table_assignment_error_text, tables_assigned,
};
