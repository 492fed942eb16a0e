//! Edge costs of the candidate graph. BlossomV1 weighs linear gaps; BlossomV2
//! weighs the squared record and Elo gaps and thousandths of the score gaps.
use vstd::prelude::*;

use crate::pairing::algorithms::blossom_v2::BlossomV2Policy;

use super::{BlossomPairingError, BlossomV1Policy, PairingCost, PairingCostBreakdown,
    PairingCostComponent, PairingEntrant};

verus! {

/// How one policy version prices candidate edges for a given round.
#[derive(Clone, Copy, Debug, PartialEq, Eq, Structural)]
pub enum EdgeCostModel {
    BlossomV1 { round_number: u16, policy: BlossomV1Policy },
    BlossomV2 { round_number: u16, policy: BlossomV2Policy },
}

/// Facts about a candidate match that its cost depends on.
#[derive(Clone, Copy, Debug, PartialEq, Eq, Structural)]
pub struct CostContext {
    pub tie_break: u64,
    pub tie_break_scale: u64,
    pub same_club: bool,
    pub rematch: bool,
}

pub open spec fn abs_diff(a: int, b: int) -> int {
    if a >= b { a - b } else { b - a }
}

pub open spec fn fits_u64(value: int) -> bool {
    0 <= value <= u64::MAX
}

/// The breakdown with its total: the sum of the weighted components, scaled by
/// `tie_break_scale`, plus the tie-break; `None` when that overflows a `u64`.
pub open spec fn spec_finish_cost(breakdown: PairingCostBreakdown, tie_break_scale: u64) -> Option<
    PairingCostBreakdown,
> {
    let base = breakdown.performance_score_gap + breakdown.match_win_gap
        + breakdown.opponent_strength_gap + breakdown.elo_gap + breakdown.same_club_penalty
        + breakdown.rematch_penalty + breakdown.bye_penalty;
    let total = base * tie_break_scale + breakdown.deterministic_tie_break;
    if fits_u64(base) && fits_u64(total) {
        Some(PairingCostBreakdown { total: total as u64, ..breakdown })
    } else {
        None
    }
}

/// A breakdown with every weighted component zero but the bye penalty.
pub open spec fn bye_breakdown(bye_penalty: u64, tie_break: u64) -> PairingCostBreakdown {
    PairingCostBreakdown {
        performance_score_gap: 0,
        match_win_gap: 0,
        opponent_strength_gap: 0,
        elo_gap: 0,
        same_club_penalty: 0,
        rematch_penalty: 0,
        bye_penalty,
        deterministic_tie_break: tie_break,
        total: 0,
    }
}

/// The bye penalty of an entrant: its earlier byes times the repeat penalty.
pub open spec fn spec_bye_penalty(model: EdgeCostModel, entrant: PairingEntrant) -> int {
    let penalty = match model {
        EdgeCostModel::BlossomV1 { policy, .. } => policy.bye_repeat_penalty,
        EdgeCostModel::BlossomV2 { policy, .. } => policy.bye_repeat_penalty,
    };
    entrant.bye_count * penalty
}

/// The cost of giving `entrant` the bye.
pub open spec fn spec_bye_cost(
    model: EdgeCostModel,
    entrant: PairingEntrant,
    tie_break: u64,
    tie_break_scale: u64,
) -> Result<PairingCostBreakdown, PairingCostComponent> {
    let penalty = spec_bye_penalty(model, entrant);
    if !fits_u64(penalty) {
        Err(PairingCostComponent::ByePenalty)
    } else {
        match spec_finish_cost(bye_breakdown(penalty as u64, tie_break), tie_break_scale) {
            Some(b) => Ok(b),
            None => Err(PairingCostComponent::Total),
        }
    }
}

/// BlossomV1 components before the total: after round one the performance,
/// match-win and opponent-strength gaps times their weights; in every round
/// the Elo gap times its weight; and the flat club and rematch penalties.
pub open spec fn v1_components(
    round_number: u16,
    policy: BlossomV1Policy,
    first: PairingEntrant,
    second: PairingEntrant,
    context: CostContext,
) -> Result<PairingCostBreakdown, PairingCostComponent> {
    let later = round_number > 1;
    let performance = if later {
        abs_diff(first.performance_score.spec_scaled() as int, second.performance_score.spec_scaled() as int)
            * policy.performance_score_weight
    } else {
        0
    };
    let wins = if later {
        abs_diff(first.matches_won as int, second.matches_won as int) * policy.match_win_weight
    } else {
        0
    };
    let opponents = if later {
        abs_diff(first.opponent_score_sum.spec_scaled() as int, second.opponent_score_sum.spec_scaled() as int)
            * policy.opponent_strength_weight
    } else {
        0
    };
    let elo = abs_diff(first.starting_elo.0 as int, second.starting_elo.0 as int)
        * policy.elo_difference_weight;
    if !fits_u64(performance) {
        Err(PairingCostComponent::PerformanceScoreGap)
    } else if !fits_u64(wins) {
        Err(PairingCostComponent::MatchWinGap)
    } else if !fits_u64(opponents) {
        Err(PairingCostComponent::OpponentStrengthGap)
    } else if !fits_u64(elo) {
        Err(PairingCostComponent::EloGap)
    } else {
        Ok(
            PairingCostBreakdown {
                performance_score_gap: performance as u64,
                match_win_gap: wins as u64,
                opponent_strength_gap: opponents as u64,
                elo_gap: elo as u64,
                same_club_penalty: if context.same_club { policy.same_club_penalty } else { 0 },
                rematch_penalty: if context.rematch { policy.rematch_penalty } else { 0 },
                bye_penalty: 0,
                deterministic_tie_break: context.tie_break,
                total: 0,
            },
        )
    }
}

/// BlossomV2 components before the total: after round one the performance and
/// opponent-strength gaps in whole thousandths times their weights and the
/// squared match-win gap times the record weight; in every round the squared
/// Elo gap times its weight; and the club and rematch penalties.
pub open spec fn v2_components(
    round_number: u16,
    policy: BlossomV2Policy,
    first: PairingEntrant,
    second: PairingEntrant,
    context: CostContext,
) -> Result<PairingCostBreakdown, PairingCostComponent> {
    let later = round_number > 1;
    let performance = if later {
        (abs_diff(first.performance_score.spec_scaled() as int, second.performance_score.spec_scaled() as int)
            / 1000) * policy.performance_score_weight
    } else {
        0
    };
    let win_gap = abs_diff(first.matches_won as int, second.matches_won as int);
    let wins = if later {
        win_gap * win_gap * policy.match_record_weight
    } else {
        0
    };
    let opponents = if later {
        (abs_diff(first.opponent_score_sum.spec_scaled() as int, second.opponent_score_sum.spec_scaled() as int)
            / 1000) * policy.opponent_strength_weight
    } else {
        0
    };
    let elo_gap = abs_diff(first.starting_elo.0 as int, second.starting_elo.0 as int);
    let elo_squared = elo_gap * elo_gap;
    let elo = elo_squared * policy.squared_elo_difference_weight;
    if !fits_u64(performance) {
        Err(PairingCostComponent::PerformanceScoreGap)
    } else if !fits_u64(win_gap * win_gap) || !fits_u64(wins) {
        Err(PairingCostComponent::MatchWinGap)
    } else if !fits_u64(opponents) {
        Err(PairingCostComponent::OpponentStrengthGap)
    } else if !fits_u64(elo_squared) || !fits_u64(elo) {
        Err(PairingCostComponent::EloGap)
    } else {
        Ok(
            PairingCostBreakdown {
                performance_score_gap: performance as u64,
                match_win_gap: wins as u64,
                opponent_strength_gap: opponents as u64,
                elo_gap: elo as u64,
                same_club_penalty: if context.same_club { policy.same_club_penalty } else { 0 },
                rematch_penalty: if context.rematch { policy.rematch_penalty } else { 0 },
                bye_penalty: 0,
                deterministic_tie_break: context.tie_break,
                total: 0,
            },
        )
    }
}

/// The cost of pairing `first` with `second` under `model`.
pub open spec fn spec_match_cost(
    model: EdgeCostModel,
    first: PairingEntrant,
    second: PairingEntrant,
    context: CostContext,
) -> Result<PairingCostBreakdown, PairingCostComponent> {
    let components = match model {
        EdgeCostModel::BlossomV1 { round_number, policy } => v1_components(
            round_number,
            policy,
            first,
            second,
            context,
        ),
        EdgeCostModel::BlossomV2 { round_number, policy } => v2_components(
            round_number,
            policy,
            first,
            second,
            context,
        ),
    };
    match components {
        Err(component) => Err(component),
        Ok(b) => match spec_finish_cost(b, context.tie_break_scale) {
            Some(finished) => Ok(finished),
            None => Err(PairingCostComponent::Total),
        },
    }
}

/// The cost value together with its breakdown, or the overflow error.
pub open spec fn cost_outcome_matches(
    outcome: Result<(PairingCost, PairingCostBreakdown), BlossomPairingError>,
    expected: Result<PairingCostBreakdown, PairingCostComponent>,
) -> bool {
    match expected {
        Ok(b) => outcome == Ok::<(PairingCost, PairingCostBreakdown), BlossomPairingError>(
            (PairingCost(b.total), b),
        ),
        Err(component) => outcome matches Err(BlossomPairingError::PairingCostOverflow { component: c })
            && c == component,
    }
}

fn overflow(component: PairingCostComponent) -> (error: BlossomPairingError)
    ensures
        error == (BlossomPairingError::PairingCostOverflow { component }),
{
    BlossomPairingError::PairingCostOverflow { component }
}

/// Sums the weighted components, scales the sum and adds the tie-break.
pub fn finish_cost(breakdown: PairingCostBreakdown, tie_break_scale: u64) -> (outcome: Result<
    (PairingCost, PairingCostBreakdown),
    BlossomPairingError,
>)
    ensures
        cost_outcome_matches(
            outcome,
            match spec_finish_cost(breakdown, tie_break_scale) {
                Some(b) => Ok(b),
                None => Err(PairingCostComponent::Total),
            },
        ),
{
    let parts: [u64; 7] = [
        breakdown.performance_score_gap,
        breakdown.match_win_gap,
        breakdown.opponent_strength_gap,
        breakdown.elo_gap,
        breakdown.same_club_penalty,
        breakdown.rematch_penalty,
        breakdown.bye_penalty,
    ];
    let base_total: u128 = parts[0] as u128 + parts[1] as u128 + parts[2] as u128 + parts[3] as u128
        + parts[4] as u128 + parts[5] as u128 + parts[6] as u128;
    if base_total > u64::MAX as u128 {
        return Err(overflow(PairingCostComponent::Total));
    }
    let base = base_total as u64;
    let scaled = match base.checked_mul(tie_break_scale) {
        Some(value) => value,
        None => return Err(overflow(PairingCostComponent::Total)),
    };
    let total = match scaled.checked_add(breakdown.deterministic_tie_break) {
        Some(value) => value,
        None => {
            proof {
                assert(base * tie_break_scale + breakdown.deterministic_tie_break > u64::MAX);
            }
            return Err(overflow(PairingCostComponent::Total));
        },
    };
    let finished = PairingCostBreakdown { total, ..breakdown };
    Ok((PairingCost::new(total), finished))
}

fn abs_diff_i64(a: i64, b: i64) -> (d: u64)
    ensures
        d == abs_diff(a as int, b as int),
{
    if a >= b {
        (a as i128 - b as i128) as u64
    } else {
        (b as i128 - a as i128) as u64
    }
}

fn weighted(gap: u64, weight: u64, component: PairingCostComponent) -> (outcome: Result<
    u64,
    BlossomPairingError,
>)
    ensures
        outcome matches Ok(v) ==> v == gap * weight,
        outcome is Ok <==> fits_u64(gap * weight),
        outcome matches Err(e) ==> e == (BlossomPairingError::PairingCostOverflow { component }),
{
    match gap.checked_mul(weight) {
        Some(value) => Ok(value),
        None => Err(overflow(component)),
    }
}

/// The cost of pairing `first` with `second`.
pub fn match_cost(
    model: &EdgeCostModel,
    first: &PairingEntrant,
    second: &PairingEntrant,
    context: CostContext,
) -> (outcome: Result<(PairingCost, PairingCostBreakdown), BlossomPairingError>)
    ensures
        cost_outcome_matches(outcome, spec_match_cost(*model, *first, *second, context)),
{
    let components = match model {
        EdgeCostModel::BlossomV1 { round_number, policy } => v1_match_components(
            *round_number,
            policy,
            first,
            second,
            context,
        ),
        EdgeCostModel::BlossomV2 { round_number, policy } => v2_match_components(
            *round_number,
            policy,
            first,
            second,
            context,
        ),
    };
    match components {
        Ok(breakdown) => finish_cost(breakdown, context.tie_break_scale),
        Err(error) => Err(error),
    }
}

fn v1_match_components(
    round_number: u16,
    policy: &BlossomV1Policy,
    first: &PairingEntrant,
    second: &PairingEntrant,
    context: CostContext,
) -> (outcome: Result<PairingCostBreakdown, BlossomPairingError>)
    ensures
        match v1_components(round_number, *policy, *first, *second, context) {
            Ok(b) => outcome == Ok::<PairingCostBreakdown, BlossomPairingError>(b),
            Err(component) => outcome matches Err(
                BlossomPairingError::PairingCostOverflow { component: c },
            ) && c == component,
        },
{
    let later = round_number > 1;
    let performance_score_gap = if later {
        weighted(
            abs_diff_i64(first.performance_score.scaled_value(), second.performance_score.scaled_value()),
            policy.performance_score_weight as u64,
            PairingCostComponent::PerformanceScoreGap,
        )?
    } else {
        0
    };
    let match_win_gap = if later {
        let gap: u64 = if first.matches_won >= second.matches_won {
            (first.matches_won - second.matches_won) as u64
        } else {
            (second.matches_won - first.matches_won) as u64
        };
        weighted(gap, policy.match_win_weight as u64, PairingCostComponent::MatchWinGap)?
    } else {
        0
    };
    let opponent_strength_gap = if later {
        weighted(
            abs_diff_i64(first.opponent_score_sum.scaled_value(), second.opponent_score_sum.scaled_value()),
            policy.opponent_strength_weight as u64,
            PairingCostComponent::OpponentStrengthGap,
        )?
    } else {
        0
    };
    let elo_difference: u64 = if first.starting_elo.value() >= second.starting_elo.value() {
        (first.starting_elo.value() - second.starting_elo.value()) as u64
    } else {
        (second.starting_elo.value() - first.starting_elo.value()) as u64
    };
    let elo_gap = weighted(elo_difference, policy.elo_difference_weight as u64, PairingCostComponent::EloGap)?;
    Ok(
        PairingCostBreakdown {
            performance_score_gap,
            match_win_gap,
            opponent_strength_gap,
            elo_gap,
            same_club_penalty: if context.same_club { policy.same_club_penalty } else { 0 },
            rematch_penalty: if context.rematch { policy.rematch_penalty } else { 0 },
            bye_penalty: 0,
            deterministic_tie_break: context.tie_break,
            total: 0,
        },
    )
}

fn normalized_weighted(gap: u64, weight: u32, component: PairingCostComponent) -> (outcome: Result<
    u64,
    BlossomPairingError,
>)
    ensures
        outcome matches Ok(v) ==> v == (gap / 1000) * weight,
        outcome is Ok <==> fits_u64((gap / 1000) * weight),
        outcome matches Err(e) ==> e == (BlossomPairingError::PairingCostOverflow { component }),
{
    weighted(gap / 1000, weight as u64, component)
}

fn squared_weighted(gap: u64, weight: u64, component: PairingCostComponent) -> (outcome: Result<
    u64,
    BlossomPairingError,
>)
    ensures
        outcome matches Ok(v) ==> v == gap * gap * weight,
        outcome is Ok <==> fits_u64(gap * gap) && fits_u64(gap * gap * weight),
        outcome matches Err(e) ==> e == (BlossomPairingError::PairingCostOverflow { component }),
{
    match gap.checked_mul(gap) {
        Some(squared) => weighted(squared, weight, component),
        None => Err(overflow(component)),
    }
}

fn v2_match_components(
    round_number: u16,
    policy: &BlossomV2Policy,
    first: &PairingEntrant,
    second: &PairingEntrant,
    context: CostContext,
) -> (outcome: Result<PairingCostBreakdown, BlossomPairingError>)
    ensures
        match v2_components(round_number, *policy, *first, *second, context) {
            Ok(b) => outcome == Ok::<PairingCostBreakdown, BlossomPairingError>(b),
            Err(component) => outcome matches Err(
                BlossomPairingError::PairingCostOverflow { component: c },
            ) && c == component,
        },
{
    let later = round_number > 1;
    let performance_score_gap = if later {
        normalized_weighted(
            abs_diff_i64(first.performance_score.scaled_value(), second.performance_score.scaled_value()),
            policy.performance_score_weight,
            PairingCostComponent::PerformanceScoreGap,
        )?
    } else {
        0
    };
    let win_gap: u64 = if first.matches_won >= second.matches_won {
        (first.matches_won - second.matches_won) as u64
    } else {
        (second.matches_won - first.matches_won) as u64
    };
    proof {
        assert(win_gap * win_gap <= u64::MAX) by (nonlinear_arith)
            requires
                win_gap <= u16::MAX,
        ;
    }
    let match_win_gap = if later {
        squared_weighted(win_gap, policy.match_record_weight, PairingCostComponent::MatchWinGap)?
    } else {
        0
    };
    let opponent_strength_gap = if later {
        normalized_weighted(
            abs_diff_i64(first.opponent_score_sum.scaled_value(), second.opponent_score_sum.scaled_value()),
            policy.opponent_strength_weight,
            PairingCostComponent::OpponentStrengthGap,
        )?
    } else {
        0
    };
    let elo_difference: u64 = if first.starting_elo.value() >= second.starting_elo.value() {
        (first.starting_elo.value() - second.starting_elo.value()) as u64
    } else {
        (second.starting_elo.value() - first.starting_elo.value()) as u64
    };
    let elo_gap = squared_weighted(
        elo_difference,
        policy.squared_elo_difference_weight as u64,
        PairingCostComponent::EloGap,
    )?;
    Ok(
        PairingCostBreakdown {
            performance_score_gap,
            match_win_gap,
            opponent_strength_gap,
            elo_gap,
            same_club_penalty: if context.same_club { policy.same_club_penalty } else { 0 },
            rematch_penalty: if context.rematch { policy.rematch_penalty } else { 0 },
            bye_penalty: 0,
            deterministic_tie_break: context.tie_break,
            total: 0,
        },
    )
}

/// The cost of giving `entrant` the bye.
pub fn bye_cost(
    model: &EdgeCostModel,
    entrant: &PairingEntrant,
    tie_break: u64,
    tie_break_scale: u64,
) -> (outcome: Result<(PairingCost, PairingCostBreakdown), BlossomPairingError>)
    ensures
        cost_outcome_matches(outcome, spec_bye_cost(*model, *entrant, tie_break, tie_break_scale)),
{
    let penalty = match model {
        EdgeCostModel::BlossomV1 { policy, .. } => policy.bye_repeat_penalty,
        EdgeCostModel::BlossomV2 { policy, .. } => policy.bye_repeat_penalty,
    };
    let bye_penalty = weighted(entrant.bye_count as u64, penalty, PairingCostComponent::ByePenalty)?;
    finish_cost(
        PairingCostBreakdown {
            performance_score_gap: 0,
            match_win_gap: 0,
            opponent_strength_gap: 0,
            elo_gap: 0,
            same_club_penalty: 0,
            rematch_penalty: 0,
            bye_penalty,
            deterministic_tie_break: tie_break,
            total: 0,
        },
        tie_break_scale,
    )
}

} // verus!
