//! A full developer trace of an application: the historical pairing
//! requests with every relaxation graph, the published matches, the games
//! and the standings before and after each round.
use vstd::prelude::*;

mod builder;
mod model;
mod pairing_trace;

use crate::pairing::algorithms::blossom_v1::{BlossomPairingError, pairing_error_text};
use vstd::std_specs::convert::FromSpecImpl;
use vstd::string::StringExecFns;

use super::TournamentApplicationError;
use super::error::application_error_text;

pub use model::{
    CandidateEdgeTargetTrace, CandidateEdgeTrace, CandidateGraphTrace, EntrantTrace, GameScoreTrace, MatchResultTrace,
    PairingCalculationTrace, PairingCostBreakdownTrace, PairingDiagnosticsTrace, PairingEntrantTrace, PairingPolicyTrace,
    PairingProposalTrace, PairingRequestTrace, PairingWarningTrace, PreviousMatchTrace, ProposedByeTrace,
    ProposedMatchTrace, RoundTrace, ScheduledMatchTrace, SimulationMetadataTrace, SimulationTrace, StandingTrace,
    TournamentTrace,
};
pub use builder::{
    activity_label, format_label, publication_label, result_traced, scheduled_traced, seeded_generator_label,
    standing_traced, standings_traced, state_label,
};
pub use pairing_trace::{
    breakdown_traced, diagnostics_traced, edge_selected, edge_traced, graph_traced, pair_selected, pairing_calculation,
    tier_label, version_label,
};

verus! {

#[derive(Debug)]
pub enum SimulationTraceError {
    Application(TournamentApplicationError),
    Pairing(BlossomPairingError),
}

/// The trace error in words.
pub open spec fn trace_error_text(error: SimulationTraceError) -> Seq<char> {
    match error {
        SimulationTraceError::Application(inner) => "could not calculate trace standings: "@ + application_error_text(
            inner,
        ),
        SimulationTraceError::Pairing(inner) => "could not build pairing trace: "@ + pairing_error_text(inner),
    }
}

impl SimulationTraceError {
    /// The error in words.
    pub fn message(&self) -> (text: String)
        ensures
            text@ == trace_error_text(*self),
    {
        match self {
            SimulationTraceError::Application(inner) => {
                let mut text = String::from_str("could not calculate trace standings: ");
                let detail = inner.message();
                text.append(detail.as_str());
                text
            },
            SimulationTraceError::Pairing(inner) => {
                let mut text = String::from_str("could not build pairing trace: ");
                let detail = inner.message();
                text.append(detail.as_str());
                text
            },
        }
    }
}

impl From<TournamentApplicationError> for SimulationTraceError {
    fn from(error: TournamentApplicationError) -> (wrapped: Self) {
        SimulationTraceError::Application(error)
    }
}

impl FromSpecImpl<TournamentApplicationError> for SimulationTraceError {
    open spec fn obeys_from_spec() -> bool {
        true
    }

    open spec fn from_spec(error: TournamentApplicationError) -> Self {
        SimulationTraceError::Application(error)
    }
}

impl From<BlossomPairingError> for SimulationTraceError {
    fn from(error: BlossomPairingError) -> (wrapped: Self) {
        SimulationTraceError::Pairing(error)
    }
}

impl FromSpecImpl<BlossomPairingError> for SimulationTraceError {
    open spec fn obeys_from_spec() -> bool {
        true
    }

    open spec fn from_spec(error: BlossomPairingError) -> Self {
        SimulationTraceError::Pairing(error)
    }
}

} // verus!
