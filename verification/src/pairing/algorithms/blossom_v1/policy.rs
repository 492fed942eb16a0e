use vstd::prelude::*;

verus! {

#[derive(Clone, Copy, Debug, PartialEq, Eq, Structural)]
pub struct BlossomV1Policy {
    pub avoid_same_club: bool,
    pub avoid_rematches: bool,
    pub recent_rematch_window: u16,
    pub performance_score_weight: u32,
    pub match_win_weight: u32,
    pub opponent_strength_weight: u32,
    pub elo_difference_weight: u32,
    pub bye_repeat_penalty: u64,
    pub same_club_penalty: u64,
    pub rematch_penalty: u64,
    pub maximum_entrant_count: usize,
}

impl Default for BlossomV1Policy {
    fn default() -> (policy: Self)
        ensures
            policy.avoid_same_club && policy.avoid_rematches,
            policy.recent_rematch_window == 3,
            policy.performance_score_weight == 4,
            policy.match_win_weight == 1_000_000,
            policy.opponent_strength_weight == 1,
            policy.elo_difference_weight == 2_000,
            policy.bye_repeat_penalty == 100_000_000_000,
            policy.same_club_penalty == 10_000_000_000,
            policy.rematch_penalty == 100_000_000_000,
            policy.maximum_entrant_count == 64,
    {
        BlossomV1Policy {
            avoid_same_club: true,
            avoid_rematches: true,
            recent_rematch_window: 3,
            performance_score_weight: 4,
            match_win_weight: 1_000_000,
            opponent_strength_weight: 1,
            elo_difference_weight: 2_000,
            bye_repeat_penalty: 100_000_000_000,
            same_club_penalty: 10_000_000_000,
            rematch_penalty: 100_000_000_000,
            maximum_entrant_count: 64,
        }
    }
}

impl BlossomV1Policy {
    /// A copy with the same settings.
    pub fn duplicate(&self) -> (copy: Self)
        ensures
            copy == *self,
    {
        *self
    }
}

} // verus!
