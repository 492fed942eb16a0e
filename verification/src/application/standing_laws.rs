//! What the replayed standings add up to over the whole field.
use vstd::prelude::*;

use crate::results::MatchResult;
use crate::scheduling::ScheduledMatch;

use super::standings::{
    has_standing, history_consistent, history_share, registered, result_consistent, result_share, results_share,
    round_consistent, scheduled_for, standings_replayed,
};
use super::{CompletedRound, ContestantStanding, TournamentEntrant};

verus! {

/// The sum of `f` over the ids.
pub open spec fn sum_over(ids: Seq<Seq<char>>, f: spec_fn(Seq<char>) -> int) -> int
    decreases ids.len(),
{
    if ids.len() == 0 {
        0
    } else {
        sum_over(ids.drop_last(), f) + f(ids.last())
    }
}

/// The sum of the standings' performance scores.
pub open spec fn performance_sum(standings: Seq<ContestantStanding>) -> int
    decreases standings.len(),
{
    if standings.len() == 0 {
        0
    } else {
        performance_sum(standings.drop_last()) + standings.last().performance_score.spec_scaled()
    }
}

/// The ids of the standings, in order.
pub open spec fn standing_ids(standings: Seq<ContestantStanding>) -> Seq<Seq<char>> {
    standings.map_values(|standing: ContestantStanding| standing.entrant_id@)
}

/// The value `v` on id `x`, zero elsewhere.
pub open spec fn placed(x: Seq<char>, v: int) -> spec_fn(Seq<char>) -> int {
    |id: Seq<char>| if id == x { v } else { 0 }
}

/// The performance one result gives each id.
pub open spec fn result_performance(
    entrants: Seq<TournamentEntrant>,
    matches: Seq<ScheduledMatch>,
    result: MatchResult,
) -> spec_fn(Seq<char>) -> int {
    |id: Seq<char>| result_share(entrants, matches, result, id).0
}

/// The performance a round's results give each id.
pub open spec fn results_performance(
    entrants: Seq<TournamentEntrant>,
    matches: Seq<ScheduledMatch>,
    results: Seq<MatchResult>,
) -> spec_fn(Seq<char>) -> int {
    |id: Seq<char>| results_share(entrants, matches, results, id).0
}

/// The performance the rounds give each id.
pub open spec fn history_performance(entrants: Seq<TournamentEntrant>, rounds: Seq<CompletedRound>) -> spec_fn(
    Seq<char>,
) -> int {
    |id: Seq<char>| history_share(entrants, rounds, id).0
}

proof fn lemma_sum_split(
    ids: Seq<Seq<char>>,
    h: spec_fn(Seq<char>) -> int,
    f: spec_fn(Seq<char>) -> int,
    g: spec_fn(Seq<char>) -> int,
)
    requires
        forall|id: Seq<char>| #[trigger] h(id) == f(id) + g(id),
    ensures
        sum_over(ids, h) == sum_over(ids, f) + sum_over(ids, g),
    decreases ids.len(),
{
    if ids.len() > 0 {
        lemma_sum_split(ids.drop_last(), h, f, g);
        assert(h(ids.last()) == f(ids.last()) + g(ids.last()));
    }
}

/// Over distinct ids, a value placed on one id that occurs sums to the value.
proof fn lemma_sum_single(ids: Seq<Seq<char>>, x: Seq<char>, v: int)
    requires
        ids.no_duplicates(),
        ids.contains(x),
    ensures
        sum_over(ids, placed(x, v)) == v,
    decreases ids.len(),
{
    let rest = ids.drop_last();
    if ids.last() == x {
        assert(!rest.contains(x)) by {
            if rest.contains(x) {
                let i = choose|i: int| 0 <= i < rest.len() && rest[i] == x;
                assert(ids[i] == ids[ids.len() - 1]);
            }
        }
        lemma_sum_zero(rest, x, v);
    } else {
        let i = choose|i: int| 0 <= i < ids.len() && ids[i] == x;
        assert(i != ids.len() - 1);
        assert(rest[i] == x);
        assert(rest.no_duplicates()) by {
            assert forall|a: int, b: int| 0 <= a < rest.len() && 0 <= b < rest.len() && a != b implies rest[a] != rest[b] by {
                assert(ids[a] != ids[b]);
            }
        }
        lemma_sum_single(rest, x, v);
    }
}

/// A value placed on an id that does not occur sums to zero.
proof fn lemma_sum_zero(ids: Seq<Seq<char>>, x: Seq<char>, v: int)
    requires
        !ids.contains(x),
    ensures
        sum_over(ids, placed(x, v)) == 0,
    decreases ids.len(),
{
    if ids.len() > 0 {
        assert(ids.last() != x) by {
            if ids.last() == x {
                assert(ids.contains(ids[ids.len() - 1]));
            }
        }
        assert(!ids.drop_last().contains(x)) by {
            if ids.drop_last().contains(x) {
                let i = choose|i: int| 0 <= i < ids.drop_last().len() && ids.drop_last()[i] == x;
                assert(ids[i] == x);
            }
        }
        lemma_sum_zero(ids.drop_last(), x, v);
    }
}

/// Every registered entrant's id occurs among the ids.
pub open spec fn covers_registered(entrants: Seq<TournamentEntrant>, ids: Seq<Seq<char>>) -> bool {
    forall|id: Seq<char>| registered(entrants, id) ==> ids.contains(id)
}

/// The performance shares of one consistent result cancel out over ids
/// that hold each registered entrant once.
proof fn lemma_result_cancels(
    entrants: Seq<TournamentEntrant>,
    matches: Seq<ScheduledMatch>,
    result: MatchResult,
    ids: Seq<Seq<char>>,
)
    requires
        result_consistent(entrants, matches, result),
        ids.no_duplicates(),
        covers_registered(entrants, ids),
    ensures
        sum_over(ids, result_performance(entrants, matches, result)) == 0,
{
    let s = scheduled_for(matches, result.spec_match_id())->0;
    let d = super::standings::home_delta(entrants, s, result);
    let home = s.home_entrant_id@;
    let away = s.away_entrant_id@;
    lemma_sum_split(ids, result_performance(entrants, matches, result), placed(home, d), placed(away, -d));
    lemma_sum_single(ids, home, d);
    lemma_sum_single(ids, away, -d);
}

proof fn lemma_results_cancel(
    entrants: Seq<TournamentEntrant>,
    matches: Seq<ScheduledMatch>,
    results: Seq<MatchResult>,
    ids: Seq<Seq<char>>,
)
    requires
        forall|k: int| 0 <= k < results.len() ==> result_consistent(entrants, matches, #[trigger] results[k]),
        ids.no_duplicates(),
        covers_registered(entrants, ids),
    ensures
        sum_over(ids, results_performance(entrants, matches, results)) == 0,
    decreases results.len(),
{
    if results.len() > 0 {
        let rest = results.drop_last();
        assert forall|k: int| 0 <= k < rest.len() implies result_consistent(entrants, matches, #[trigger] rest[k]) by {
            assert(rest[k] == results[k]);
        }
        assert(result_consistent(entrants, matches, results[results.len() - 1]));
        lemma_results_cancel(entrants, matches, rest, ids);
        lemma_result_cancels(entrants, matches, results.last(), ids);
        lemma_sum_split(
            ids,
            results_performance(entrants, matches, results),
            results_performance(entrants, matches, rest),
            result_performance(entrants, matches, results.last()),
        );
    } else {
        let h = results_performance(entrants, matches, results);
        lemma_sum_split(ids, h, h, h);
    }
}

proof fn lemma_history_cancels(entrants: Seq<TournamentEntrant>, rounds: Seq<CompletedRound>, ids: Seq<Seq<char>>)
    requires
        history_consistent(entrants, rounds),
        ids.no_duplicates(),
        covers_registered(entrants, ids),
    ensures
        sum_over(ids, history_performance(entrants, rounds)) == 0,
    decreases rounds.len(),
{
    if rounds.len() > 0 {
        let rest = rounds.drop_last();
        let last = rounds.last();
        assert(history_consistent(entrants, rest)) by {
            assert forall|r: int| 0 <= r < rest.len() implies round_consistent(entrants, #[trigger] rest[r]) by {
                assert(rest[r] == rounds[r]);
            }
        }
        assert(round_consistent(entrants, rounds[rounds.len() - 1]));
        lemma_history_cancels(entrants, rest, ids);
        lemma_results_cancel(entrants, last.scheduled_matches@, last.results@, ids);
        lemma_sum_split(
            ids,
            history_performance(entrants, rounds),
            history_performance(entrants, rest),
            results_performance(entrants, last.scheduled_matches@, last.results@),
        );
    } else {
        let h = history_performance(entrants, rounds);
        lemma_sum_split(ids, h, h, h);
    }
}

proof fn lemma_performance_sum_is_share_sum(
    entrants: Seq<TournamentEntrant>,
    rounds: Seq<CompletedRound>,
    standings: Seq<ContestantStanding>,
)
    requires
        forall|i: int| 0 <= i < standings.len() ==> (#[trigger] standings[i]).performance_score.spec_scaled()
            == history_share(entrants, rounds, standings[i].entrant_id@).0,
    ensures
        performance_sum(standings) == sum_over(standing_ids(standings), history_performance(entrants, rounds)),
    decreases standings.len(),
{
    if standings.len() > 0 {
        let rest = standings.drop_last();
        assert forall|i: int| 0 <= i < rest.len() implies (#[trigger] rest[i]).performance_score.spec_scaled()
            == history_share(entrants, rounds, rest[i].entrant_id@).0 by {
            assert(rest[i] == standings[i]);
        }
        lemma_performance_sum_is_share_sum(entrants, rounds, rest);
        assert(standing_ids(standings).drop_last() =~= standing_ids(rest));
        assert(standings[standings.len() - 1] == standings.last());
    }
}

/// Over a consistent history, the performance scores of the replayed
/// standings sum to zero: every result gives one side what it takes from
/// the other.
pub proof fn law_performance_scores_sum_to_zero(
    entrants: Seq<TournamentEntrant>,
    rounds: Seq<CompletedRound>,
    standings: Seq<ContestantStanding>,
)
    requires
        history_consistent(entrants, rounds),
        standings_replayed(entrants, rounds, standings),
    ensures
        performance_sum(standings) == 0,
{
    let ids = standing_ids(standings);
    assert(ids.no_duplicates()) by {
        assert forall|a: int, b: int| 0 <= a < ids.len() && 0 <= b < ids.len() && a != b implies ids[a] != ids[b] by {
            if a < b {
                assert(standings[a].entrant_id@ != standings[b].entrant_id@);
            } else {
                assert(standings[b].entrant_id@ != standings[a].entrant_id@);
            }
        }
    }
    assert(covers_registered(entrants, ids)) by {
        assert forall|id: Seq<char>| registered(entrants, id) implies ids.contains(id) by {
            let i = choose|i: int| 0 <= i < entrants.len() && (#[trigger] entrants[i]).entrant_id@ == id;
            assert(has_standing(standings, entrants[i].entrant_id@));
            let j = choose|j: int| 0 <= j < standings.len() && (#[trigger] standings[j]).entrant_id@ == id;
            assert(ids[j] == id);
        }
    }
    lemma_history_cancels(entrants, rounds, ids);
    lemma_performance_sum_is_share_sum(entrants, rounds, standings);
}

} // verus!
