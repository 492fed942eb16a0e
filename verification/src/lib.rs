//! Swiss-style table-tennis tournament management: entrant registration,
//! minimum-cost Blossom pairing with club and rematch relaxation, table
//! assignment, result validation and standings.
use vstd::prelude::*;

pub mod api_contract;
pub mod application;
pub mod identity;
pub mod pairing;
mod platform_time;
pub mod results;
pub mod scheduling;
pub mod table;
pub mod text;
pub mod tournament;
pub mod value_types;

verus! {

} // verus!
