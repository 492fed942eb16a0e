use vstd::prelude::*;

use crate::identity::EntrantId;
use crate::text::{decimal, decimal_text, wide_decimal, wide_decimal_text};
use vstd::string::StringExecFns;

use super::{RelaxationTier, RoundNumber};

verus! {

#[derive(Clone, Copy, Debug, PartialEq, Eq, Hash, Structural)]
pub enum PairingCostComponent {
    PerformanceScoreGap,
    MatchWinGap,
    OpponentStrengthGap,
    EloGap,
    SameClubPenalty,
    RematchPenalty,
    ByePenalty,
    DeterministicTieBreak,
    SolverWeightProjection,
    Total,
}

#[derive(Clone, Copy, Debug, PartialEq, Eq, Hash, Structural)]
pub enum InvalidSolverOutputReason {
    DuplicateEntrant,
    MissingEntrant,
    SelfPair,
    UnknownEdge,
    MultipleByes,
    UnexpectedBye,
    AvoidableRepeatedBye,
    InconsistentEdgeCost,
    InvalidDualState,
    NegativeReducedCost {
        first_node: usize,
        second_node: usize,
        dual_sum: u128,
        doubled_weight: u128,
    },
    NonIntegralDualAdjustment,
    InvalidBlossomStructure,
    ForbiddenSameClubPairing,
    ForbiddenRematch,
}

#[derive(Clone, Debug, PartialEq, Eq)]
pub struct SolverError {
    message: String,
}

impl SolverError {
    pub closed spec fn spec_message(&self) -> Seq<char> {
        self.message@
    }

    pub fn new(message: &str) -> (error: Self)
        ensures
            error.spec_message() == message@,
    {
        SolverError { message: message.to_owned() }
    }

    pub fn message(&self) -> (message: &str)
        ensures
            message@ == self.spec_message(),
    {
        self.message.as_str()
    }
}

#[derive(Debug)]
pub enum BlossomPairingError {
    NotEnoughEntrants { entrant_count: usize },
    EntrantLimitExceeded { entrant_count: usize, maximum: usize },
    DuplicateEntrant { entrant_id: EntrantId },
    UnknownEntrantInHistory { unknown_entrant_id: EntrantId },
    SelfMatchInHistory { entrant_id: EntrantId },
    InvalidHistoryRound { history_round: RoundNumber, requested_round: RoundNumber },
    PairingCostOverflow { component: PairingCostComponent },
    NoCompleteMatching { final_tier: RelaxationTier, unmatched_entrants: Vec<EntrantId> },
    SolverFailure { source: SolverError },
    InvalidSolverOutput { reason: InvalidSolverOutputReason },
}

/// The name of the cost component.
pub open spec fn component_name(value: PairingCostComponent) -> Seq<char> {
    match value {
        PairingCostComponent::PerformanceScoreGap => "PerformanceScoreGap"@,
        PairingCostComponent::MatchWinGap => "MatchWinGap"@,
        PairingCostComponent::OpponentStrengthGap => "OpponentStrengthGap"@,
        PairingCostComponent::EloGap => "EloGap"@,
        PairingCostComponent::SameClubPenalty => "SameClubPenalty"@,
        PairingCostComponent::RematchPenalty => "RematchPenalty"@,
        PairingCostComponent::ByePenalty => "ByePenalty"@,
        PairingCostComponent::DeterministicTieBreak => "DeterministicTieBreak"@,
        PairingCostComponent::SolverWeightProjection => "SolverWeightProjection"@,
        PairingCostComponent::Total => "Total"@,
    }
}

fn component_name_text(value: PairingCostComponent) -> (name: &'static str)
    ensures
        name@ == component_name(value),
{
    match value {
        PairingCostComponent::PerformanceScoreGap => "PerformanceScoreGap",
        PairingCostComponent::MatchWinGap => "MatchWinGap",
        PairingCostComponent::OpponentStrengthGap => "OpponentStrengthGap",
        PairingCostComponent::EloGap => "EloGap",
        PairingCostComponent::SameClubPenalty => "SameClubPenalty",
        PairingCostComponent::RematchPenalty => "RematchPenalty",
        PairingCostComponent::ByePenalty => "ByePenalty",
        PairingCostComponent::DeterministicTieBreak => "DeterministicTieBreak",
        PairingCostComponent::SolverWeightProjection => "SolverWeightProjection",
        PairingCostComponent::Total => "Total",
    }
}

/// The name of the relaxation tier.
pub open spec fn tier_name(value: RelaxationTier) -> Seq<char> {
    match value {
        RelaxationTier::Strict => "Strict"@,
        RelaxationTier::SameClubAllowed => "SameClubAllowed"@,
        RelaxationTier::RematchesAllowed => "RematchesAllowed"@,
    }
}

fn tier_name_text(value: RelaxationTier) -> (name: &'static str)
    ensures
        name@ == tier_name(value),
{
    match value {
        RelaxationTier::Strict => "Strict",
        RelaxationTier::SameClubAllowed => "SameClubAllowed",
        RelaxationTier::RematchesAllowed => "RematchesAllowed",
    }
}

/// The reason, with its fields where it has them.
pub open spec fn reason_text(reason: InvalidSolverOutputReason) -> Seq<char> {
    match reason {
        InvalidSolverOutputReason::NegativeReducedCost { first_node, second_node, dual_sum, doubled_weight } =>
            "NegativeReducedCost { first_node: "@ + decimal_text(first_node as u64) + ", second_node: "@
            + decimal_text(second_node as u64) + ", dual_sum: "@ + wide_decimal_text(dual_sum) + ", doubled_weight: "@
            + wide_decimal_text(doubled_weight) + " }"@,
        InvalidSolverOutputReason::DuplicateEntrant => "DuplicateEntrant"@,
        InvalidSolverOutputReason::MissingEntrant => "MissingEntrant"@,
        InvalidSolverOutputReason::SelfPair => "SelfPair"@,
        InvalidSolverOutputReason::UnknownEdge => "UnknownEdge"@,
        InvalidSolverOutputReason::MultipleByes => "MultipleByes"@,
        InvalidSolverOutputReason::UnexpectedBye => "UnexpectedBye"@,
        InvalidSolverOutputReason::AvoidableRepeatedBye => "AvoidableRepeatedBye"@,
        InvalidSolverOutputReason::InconsistentEdgeCost => "InconsistentEdgeCost"@,
        InvalidSolverOutputReason::InvalidDualState => "InvalidDualState"@,
        InvalidSolverOutputReason::NonIntegralDualAdjustment => "NonIntegralDualAdjustment"@,
        InvalidSolverOutputReason::InvalidBlossomStructure => "InvalidBlossomStructure"@,
        InvalidSolverOutputReason::ForbiddenSameClubPairing => "ForbiddenSameClubPairing"@,
        InvalidSolverOutputReason::ForbiddenRematch => "ForbiddenRematch"@,
    }
}

fn reason_message(reason: InvalidSolverOutputReason) -> (text: String)
    ensures
        text@ == reason_text(reason),
{
    match reason {
        InvalidSolverOutputReason::NegativeReducedCost { first_node, second_node, dual_sum, doubled_weight } => {
            let mut text = String::from_str("NegativeReducedCost { first_node: ");
            let digits = decimal(first_node as u64);
            text.append(digits.as_str());
            text.append(", second_node: ");
            let digits = decimal(second_node as u64);
            text.append(digits.as_str());
            text.append(", dual_sum: ");
            let digits = wide_decimal(dual_sum);
            text.append(digits.as_str());
            text.append(", doubled_weight: ");
            let digits = wide_decimal(doubled_weight);
            text.append(digits.as_str());
            text.append(" }");
            text
        },
        InvalidSolverOutputReason::DuplicateEntrant => String::from_str("DuplicateEntrant"),
        InvalidSolverOutputReason::MissingEntrant => String::from_str("MissingEntrant"),
        InvalidSolverOutputReason::SelfPair => String::from_str("SelfPair"),
        InvalidSolverOutputReason::UnknownEdge => String::from_str("UnknownEdge"),
        InvalidSolverOutputReason::MultipleByes => String::from_str("MultipleByes"),
        InvalidSolverOutputReason::UnexpectedBye => String::from_str("UnexpectedBye"),
        InvalidSolverOutputReason::AvoidableRepeatedBye => String::from_str("AvoidableRepeatedBye"),
        InvalidSolverOutputReason::InconsistentEdgeCost => String::from_str("InconsistentEdgeCost"),
        InvalidSolverOutputReason::InvalidDualState => String::from_str("InvalidDualState"),
        InvalidSolverOutputReason::NonIntegralDualAdjustment => String::from_str("NonIntegralDualAdjustment"),
        InvalidSolverOutputReason::InvalidBlossomStructure => String::from_str("InvalidBlossomStructure"),
        InvalidSolverOutputReason::ForbiddenSameClubPairing => String::from_str("ForbiddenSameClubPairing"),
        InvalidSolverOutputReason::ForbiddenRematch => String::from_str("ForbiddenRematch"),
    }
}

/// An entrant id as a message shows it: in double quotes.
pub open spec fn quoted(id: Seq<char>) -> Seq<char> {
    "\""@ + id + "\""@
}

/// Appends the id in double quotes.
fn append_quoted(text: &mut String, id: &EntrantId)
    ensures
        final(text)@ == old(text)@ + quoted(id@),
{
    text.append("\"");
    text.append(id.as_str());
    text.append("\"");
    proof {
        assert(final(text)@ =~= old(text)@ + quoted(id@));
    }
}

/// The pairing error in words.
pub open spec fn pairing_error_text(error: BlossomPairingError) -> Seq<char> {
    match error {
        BlossomPairingError::NotEnoughEntrants { entrant_count } =>
            "at least two active entrants are required, received "@ + decimal_text(entrant_count as u64),
        BlossomPairingError::EntrantLimitExceeded { entrant_count, maximum } => "entrant count "@ + decimal_text(
            entrant_count as u64,
        ) + " exceeds the supported maximum of "@ + decimal_text(maximum as u64),
        BlossomPairingError::DuplicateEntrant { entrant_id } => "entrant "@ + quoted(entrant_id@)
            + " occurs more than once"@,
        BlossomPairingError::UnknownEntrantInHistory { unknown_entrant_id } => "match history references unknown entrant "@
            + quoted(unknown_entrant_id@),
        BlossomPairingError::SelfMatchInHistory { entrant_id } => "entrant "@ + quoted(entrant_id@)
            + " is recorded as playing itself"@,
        BlossomPairingError::InvalidHistoryRound { history_round, requested_round } => "history round "@
            + decimal_text(history_round.spec_value() as u64) + " is later than requested round "@ + decimal_text(
            requested_round.spec_value() as u64,
        ),
        BlossomPairingError::PairingCostOverflow { component } => "pairing cost overflowed while calculating "@
            + component_name(component),
        BlossomPairingError::NoCompleteMatching { final_tier, unmatched_entrants } =>
            "no complete matching exists after relaxation tier "@ + tier_name(final_tier) + "; "@ + decimal_text(
            unmatched_entrants@.len() as u64,
        ) + " entrants unmatched"@,
        BlossomPairingError::SolverFailure { .. } => "the matching solver failed"@,
        BlossomPairingError::InvalidSolverOutput { reason } => "the matching solver returned an invalid result: "@
            + reason_text(reason),
    }
}

impl BlossomPairingError {
    /// The error in words.
    pub fn message(&self) -> (text: String)
        ensures
            text@ == pairing_error_text(*self),
    {
        match self {
            BlossomPairingError::NotEnoughEntrants { entrant_count } => {
                let mut text = String::from_str("at least two active entrants are required, received ");
                let digits = decimal(*entrant_count as u64);
                text.append(digits.as_str());
                text
            },
            BlossomPairingError::EntrantLimitExceeded { entrant_count, maximum } => {
                let mut text = String::from_str("entrant count ");
                let digits = decimal(*entrant_count as u64);
                text.append(digits.as_str());
                text.append(" exceeds the supported maximum of ");
                let digits = decimal(*maximum as u64);
                text.append(digits.as_str());
                text
            },
            BlossomPairingError::DuplicateEntrant { entrant_id } => {
                let mut text = String::from_str("entrant ");
                append_quoted(&mut text, entrant_id);
                text.append(" occurs more than once");
                text
            },
            BlossomPairingError::UnknownEntrantInHistory { unknown_entrant_id } => {
                let mut text = String::from_str("match history references unknown entrant ");
                append_quoted(&mut text, unknown_entrant_id);
                text
            },
            BlossomPairingError::SelfMatchInHistory { entrant_id } => {
                let mut text = String::from_str("entrant ");
                append_quoted(&mut text, entrant_id);
                text.append(" is recorded as playing itself");
                text
            },
            BlossomPairingError::InvalidHistoryRound { history_round, requested_round } => {
                let mut text = String::from_str("history round ");
                let digits = decimal(history_round.value() as u64);
                text.append(digits.as_str());
                text.append(" is later than requested round ");
                let digits = decimal(requested_round.value() as u64);
                text.append(digits.as_str());
                text
            },
            BlossomPairingError::PairingCostOverflow { component } => {
                let mut text = String::from_str("pairing cost overflowed while calculating ");
                text.append(component_name_text(*component));
                text
            },
            BlossomPairingError::NoCompleteMatching { final_tier, unmatched_entrants } => {
                let mut text = String::from_str("no complete matching exists after relaxation tier ");
                text.append(tier_name_text(*final_tier));
                text.append("; ");
                let digits = decimal(unmatched_entrants.len() as u64);
                text.append(digits.as_str());
                text.append(" entrants unmatched");
                text
            },
            BlossomPairingError::SolverFailure { .. } => String::from_str("the matching solver failed"),
            BlossomPairingError::InvalidSolverOutput { reason } => {
                let mut text = String::from_str("the matching solver returned an invalid result: ");
                let reason_words = reason_message(*reason);
                text.append(reason_words.as_str());
                text
            },
        }
    }
}

} // verus!
