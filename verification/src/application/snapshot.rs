//! Saving and restoring the application state. A restored snapshot is
//! checked for consistency before it is trusted, and its standings are
//! recalculated from the round history.
use vstd::prelude::*;

use crate::identity::{EntrantId, MatchId, text_le};
use crate::pairing::algorithms::blossom_v1::quoted;
use crate::text::{decimal, decimal_text};
use vstd::string::StringExecFns;
use crate::pairing::algorithms::PairingSnapshot;
use crate::pairing::algorithms::blossom_v1::PairingProposal;
use crate::results::{
    GameScore, MatchFormat, MatchResult, away_wins, games_well_formed, home_wins, match_decided_by_last_game,
    validate_and_complete_match,
};
use crate::scheduling::{RoundActivity, ScheduledMatch};
use crate::tournament::{Tournament, TournamentState};

use super::round_operations::first_match_with_id;
use super::standings::{calculate_standings, standing_replays};
use super::tournament::{PendingPairing, id_views};
use super::copies::{active_copied, completed_copied, copy_proposal, copy_request, proposal_copied, request_copied};
use super::{ActiveRound, CompletedRound, TournamentApplication, TournamentEntrant};

verus! {

/// A calculated, unpublished pairing as it is saved.
#[derive(Clone, Debug, PartialEq, Eq)]
pub struct PairingPreviewSnapshot {
    pub request: PairingSnapshot,
    pub proposal: PairingProposal,
}

/// Everything needed to restore an application.
#[derive(Clone, Debug, PartialEq, Eq)]
pub struct TournamentApplicationSnapshot {
    pub schema_version: u16,
    pub tournament: Tournament,
    pub entrants: Vec<TournamentEntrant>,
    pub completed_rounds: Vec<CompletedRound>,
    pub active_round: Option<ActiveRound>,
    pub pending_pairing: Option<PairingPreviewSnapshot>,
    pub active_entrant_ids: Vec<EntrantId>,
}

#[derive(Clone, Debug, PartialEq, Eq)]
pub enum TournamentSnapshotError {
    UnsupportedSchemaVersion { version: u16 },
    DuplicateEntrant { entrant_id: EntrantId },
    UnknownActiveEntrant { entrant_id: EntrantId },
    DuplicateActiveEntrant { entrant_id: EntrantId },
    PreviewAndActiveRound,
    DraftContainsRounds,
    RoundGap,
    UnknownRoundEntrant,
    DuplicateMatch { match_id: MatchId },
    IncompleteHistoricalRound,
    DuplicateResult { match_id: MatchId },
    UnknownResultMatch { match_id: MatchId },
    InvalidResult { match_id: MatchId },
    InvalidStandings,
}

/// The ids of the entrants, in order.
pub open spec fn entrant_ids(entrants: Seq<TournamentEntrant>) -> Seq<Seq<char>> {
    entrants.map_values(|entrant: TournamentEntrant| entrant.entrant_id@)
}

/// No id occurs twice.
pub open spec fn distinct_texts(ids: Seq<Seq<char>>) -> bool {
    forall|i: int, j: int| 0 <= i < j < ids.len() ==> #[trigger] ids[i] != #[trigger] ids[j]
}

/// The entrant ids are distinct, and the active ids are distinct ids of
/// entrants.
pub open spec fn entrants_consistent(entrants: Seq<TournamentEntrant>, active: Seq<EntrantId>) -> bool {
    &&& distinct_texts(entrant_ids(entrants))
    &&& forall|k: int| 0 <= k < active.len() ==> entrant_ids(entrants).contains((#[trigger] active[k])@)
    &&& distinct_texts(id_views(active))
}

/// A preview never stands beside an active round, and a draft tournament
/// has no rounds.
pub open spec fn lifecycle_consistent(snapshot: TournamentApplicationSnapshot) -> bool {
    &&& !(snapshot.active_round is Some && snapshot.pending_pairing is Some)
    &&& snapshot.tournament.spec_state() == TournamentState::Draft ==> {
        &&& snapshot.completed_rounds@.len() == 0
        &&& snapshot.active_round is None
        &&& snapshot.pending_pairing is None
    }
}

/// The match ids of the matches, in order.
pub open spec fn match_ids(matches: Seq<ScheduledMatch>) -> Seq<Seq<char>> {
    matches.map_values(|scheduled: ScheduledMatch| scheduled.match_id@)
}

/// The match ids of the results, in order.
pub open spec fn result_ids(results: Seq<MatchResult>) -> Seq<Seq<char>> {
    results.map_values(|result: MatchResult| result.spec_match_id())
}

/// The result belongs to the first match of the round with its id, and
/// its games, wins and winner are those that validating the games again
/// derives.
pub open spec fn result_rederives(scheduled: Seq<ScheduledMatch>, result: MatchResult, format: MatchFormat) -> bool {
    exists|i: int| #[trigger] first_match_with_id(scheduled, result.spec_match_id(), i) && {
        let games = result.spec_games();
        &&& games_well_formed(games)
        &&& match_decided_by_last_game(games, format)
        &&& result.spec_home_games_won() == home_wins(games, games.len() as int)
        &&& result.spec_away_games_won() == away_wins(games, games.len() as int)
        &&& result.spec_winner_id() == if games.last().home_won() {
            scheduled[i].home_entrant_id@
        } else {
            scheduled[i].away_entrant_id@
        }
    }
}

/// One round of a snapshot is consistent: its matches are between known
/// entrants and have distinct ids unused by earlier rounds, a historical
/// round has every result, and each result is unique and rederives.
pub open spec fn round_consistent(
    scheduled: Seq<ScheduledMatch>,
    results: Seq<MatchResult>,
    known_entrants: Seq<Seq<char>>,
    earlier_matches: Seq<Seq<char>>,
    format: MatchFormat,
    must_be_complete: bool,
) -> bool {
    &&& forall|i: int| 0 <= i < scheduled.len() ==> known_entrants.contains((#[trigger] scheduled[i]).home_entrant_id@)
        && known_entrants.contains(scheduled[i].away_entrant_id@)
    &&& distinct_texts(earlier_matches + match_ids(scheduled))
    &&& must_be_complete ==> results.len() == scheduled.len()
    &&& distinct_texts(result_ids(results))
    &&& forall|r: int| 0 <= r < results.len() ==> result_rederives(scheduled, #[trigger] results[r], format)
}

/// The match ids of the rounds, round after round.
pub open spec fn history_match_ids(rounds: Seq<CompletedRound>) -> Seq<Seq<char>>
    decreases rounds.len(),
{
    if rounds.len() == 0 {
        Seq::empty()
    } else {
        history_match_ids(rounds.drop_last()) + match_ids(rounds.last().scheduled_matches@)
    }
}

/// The first `n` completed rounds are numbered from one and consistent.
pub open spec fn history_consistent(snapshot: TournamentApplicationSnapshot, n: int) -> bool {
    forall|r: int| 0 <= r < n ==> {
        let round = #[trigger] snapshot.completed_rounds@[r];
        &&& round.round_number.spec_value() == r + 1
        &&& round_consistent(
            round.scheduled_matches@,
            round.results@,
            entrant_ids(snapshot.entrants@),
            history_match_ids(snapshot.completed_rounds@.take(r)),
            snapshot.tournament.spec_match_format(),
            true,
        )
    }
}

/// The rounds of the snapshot are numbered without gaps and consistent.
pub open spec fn rounds_consistent(snapshot: TournamentApplicationSnapshot) -> bool {
    &&& history_consistent(snapshot, snapshot.completed_rounds@.len() as int)
    &&& snapshot.active_round matches Some(round) ==> {
        &&& round.round_number.spec_value() == snapshot.completed_rounds@.len() + 1
        &&& round_consistent(
            round.scheduled_matches@,
            round.results@,
            entrant_ids(snapshot.entrants@),
            history_match_ids(snapshot.completed_rounds@),
            snapshot.tournament.spec_match_format(),
            false,
        )
    }
}

/// The snapshot can be restored, standings aside.
pub open spec fn snapshot_consistent(snapshot: TournamentApplicationSnapshot) -> bool {
    &&& snapshot.schema_version == 1
    &&& entrants_consistent(snapshot.entrants@, snapshot.active_entrant_ids@)
    &&& lifecycle_consistent(snapshot)
    &&& rounds_consistent(snapshot)
}

/// Whether an entrant has the id.
fn entrant_listed(entrants: &[TournamentEntrant], id: &EntrantId) -> (listed: bool)
    ensures
        listed == entrant_ids(entrants@).contains(id@),
{
    let mut i: usize = 0;
    while i < entrants.len()
        invariant
            i <= entrants@.len(),
            forall|k: int| 0 <= k < i ==> (#[trigger] entrants@[k]).entrant_id@ != id@,
        decreases entrants@.len() - i,
    {
        if entrants[i].entrant_id.same_as(id) {
            proof {
                assert(entrant_ids(entrants@)[i as int] == id@);
            }
            return true;
        }
        i = i + 1;
    }
    proof {
        assert forall|k: int| 0 <= k < entrant_ids(entrants@).len() implies entrant_ids(entrants@)[k] != id@ by {
            assert(entrants@[k].entrant_id@ != id@);
        }
    }
    false
}

/// Whether one of the ids equals `id`.
fn id_listed(ids: &[EntrantId], id: &EntrantId) -> (listed: bool)
    ensures
        listed == id_views(ids@).contains(id@),
{
    let mut i: usize = 0;
    while i < ids.len()
        invariant
            i <= ids@.len(),
            forall|k: int| 0 <= k < i ==> (#[trigger] ids@[k])@ != id@,
        decreases ids@.len() - i,
    {
        if ids[i].same_as(id) {
            proof {
                assert(id_views(ids@)[i as int] == id@);
            }
            return true;
        }
        i = i + 1;
    }
    proof {
        assert forall|k: int| 0 <= k < id_views(ids@).len() implies id_views(ids@)[k] != id@ by {
            assert(ids@[k]@ != id@);
        }
    }
    false
}

/// Checks that entrant ids are unique and that the active ids are unique
/// ids of entrants.
fn validate_entrants(entrants: &[TournamentEntrant], active_entrant_ids: &[EntrantId]) -> (outcome: Result<
    (),
    TournamentSnapshotError,
>)
    ensures
        outcome is Ok <==> entrants_consistent(entrants@, active_entrant_ids@),
        outcome matches Err(TournamentSnapshotError::DuplicateEntrant { entrant_id }) ==> !distinct_texts(
            entrant_ids(entrants@),
        ) && entrant_ids(entrants@).contains(entrant_id@),
        outcome matches Err(TournamentSnapshotError::UnknownActiveEntrant { entrant_id }) ==> !entrant_ids(
            entrants@,
        ).contains(entrant_id@) && id_views(active_entrant_ids@).contains(entrant_id@),
        outcome matches Err(TournamentSnapshotError::DuplicateActiveEntrant { entrant_id }) ==> !distinct_texts(
            id_views(active_entrant_ids@),
        ),
        outcome matches Err(e) ==> e is DuplicateEntrant || e is UnknownActiveEntrant || e is DuplicateActiveEntrant,
{
    let ghost ids = entrant_ids(entrants@);
    let mut j: usize = 0;
    while j < entrants.len()
        invariant
            j <= entrants@.len(),
            ids == entrant_ids(entrants@),
            forall|a: int, b: int| 0 <= a < b < j ==> #[trigger] ids[a] != #[trigger] ids[b],
        decreases entrants@.len() - j,
    {
        let mut i: usize = 0;
        while i < j
            invariant
                i <= j < entrants@.len(),
                ids == entrant_ids(entrants@),
                forall|a: int| 0 <= a < i ==> #[trigger] ids[a] != ids[j as int],
            decreases j - i,
        {
            if entrants[i].entrant_id.same_as(&entrants[j].entrant_id) {
                proof {
                    assert(ids[i as int] == ids[j as int]);
                }
                return Err(TournamentSnapshotError::DuplicateEntrant { entrant_id: entrants[j].entrant_id.duplicate() });
            }
            i = i + 1;
        }
        j = j + 1;
    }
    let ghost active = id_views(active_entrant_ids@);
    let mut k: usize = 0;
    while k < active_entrant_ids.len()
        invariant
            k <= active_entrant_ids@.len(),
            ids == entrant_ids(entrants@),
            distinct_texts(ids),
            active == id_views(active_entrant_ids@),
            forall|a: int| 0 <= a < k ==> ids.contains((#[trigger] active_entrant_ids@[a])@),
            forall|a: int, b: int| 0 <= a < b < k ==> #[trigger] active[a] != #[trigger] active[b],
        decreases active_entrant_ids@.len() - k,
    {
        proof {
            assert(active[k as int] == active_entrant_ids@[k as int]@);
        }
        if !entrant_listed(entrants, &active_entrant_ids[k]) {
            return Err(
                TournamentSnapshotError::UnknownActiveEntrant { entrant_id: active_entrant_ids[k].duplicate() },
            );
        }
        let mut a: usize = 0;
        while a < k
            invariant
                a <= k < active_entrant_ids@.len(),
                active == id_views(active_entrant_ids@),
                forall|b: int| 0 <= b < a ==> #[trigger] active[b] != active[k as int],
            decreases k - a,
        {
            if active_entrant_ids[a].same_as(&active_entrant_ids[k]) {
                proof {
                    assert(active[a as int] == active[k as int]);
                }
                return Err(
                    TournamentSnapshotError::DuplicateActiveEntrant { entrant_id: active_entrant_ids[k].duplicate() },
                );
            }
            a = a + 1;
        }
        k = k + 1;
    }
    Ok(())
}

/// Checks that a preview never stands beside an active round and that a
/// draft has no rounds.
fn validate_lifecycle(snapshot: &TournamentApplicationSnapshot) -> (outcome: Result<(), TournamentSnapshotError>)
    ensures
        outcome is Ok <==> lifecycle_consistent(*snapshot),
        snapshot.active_round is Some && snapshot.pending_pairing is Some ==> outcome matches Err(
            TournamentSnapshotError::PreviewAndActiveRound,
        ),
        outcome matches Err(e) ==> e is PreviewAndActiveRound || e is DraftContainsRounds,
{
    if snapshot.active_round.is_some() && snapshot.pending_pairing.is_some() {
        return Err(TournamentSnapshotError::PreviewAndActiveRound);
    }
    match snapshot.tournament.state() {
        TournamentState::Draft => {
            if snapshot.completed_rounds.len() != 0 || snapshot.active_round.is_some()
                || snapshot.pending_pairing.is_some() {
                return Err(TournamentSnapshotError::DraftContainsRounds);
            }
        },
        TournamentState::Started => {},
    }
    Ok(())
}

/// A copy of the games.
fn copy_games(games: &Vec<GameScore>) -> (copy: Vec<GameScore>)
    ensures
        copy@ == games@,
{
    let mut copy: Vec<GameScore> = Vec::new();
    let mut i: usize = 0;
    while i < games.len()
        invariant
            i <= games@.len(),
            copy@ == games@.take(i as int),
        decreases games@.len() - i,
    {
        copy.push(games[i]);
        i = i + 1;
        proof {
            assert(copy@ =~= games@.take(i as int));
        }
    }
    proof {
        assert(games@.take(games@.len() as int) =~= games@);
    }
    copy
}

/// Checks one round: its matches are between known entrants with ids not
/// seen before (which it then records), a historical round has every
/// result, and every result is unique, belongs to a match of the round and
/// is what validating its games again derives.
fn validate_round(
    scheduled_matches: &[ScheduledMatch],
    results: &[MatchResult],
    entrants: &[TournamentEntrant],
    known_matches: &mut Vec<MatchId>,
    match_format: MatchFormat,
    must_be_complete: bool,
) -> (outcome: Result<(), TournamentSnapshotError>)
    requires
        distinct_texts(id_views(old(known_matches)@)),
    ensures
        outcome is Ok <==> round_consistent(
            scheduled_matches@,
            results@,
            entrant_ids(entrants@),
            id_views(old(known_matches)@),
            match_format,
            must_be_complete,
        ),
        outcome is Ok ==> id_views(final(known_matches)@) == id_views(old(known_matches)@) + match_ids(
            scheduled_matches@,
        ),
        outcome matches Err(e) ==> {
            ||| e is UnknownRoundEntrant
            ||| e is DuplicateMatch
            ||| e is IncompleteHistoricalRound
            ||| e is DuplicateResult
            ||| e is UnknownResultMatch
            ||| e is InvalidResult
        },
{
    let ghost known = entrant_ids(entrants@);
    let ghost earlier = id_views(old(known_matches)@);
    let ghost ids = match_ids(scheduled_matches@);
    let mut s: usize = 0;
    while s < scheduled_matches.len()
        invariant
            s <= scheduled_matches@.len(),
            known == entrant_ids(entrants@),
            ids == match_ids(scheduled_matches@),
            earlier == id_views(old(known_matches)@),
            id_views(known_matches@) == earlier + ids.take(s as int),
            distinct_texts(earlier + ids.take(s as int)),
            forall|i: int| 0 <= i < s ==> known.contains((#[trigger] scheduled_matches@[i]).home_entrant_id@)
                && known.contains(scheduled_matches@[i].away_entrant_id@),
        decreases scheduled_matches@.len() - s,
    {
        let scheduled = &scheduled_matches[s];
        if !entrant_listed(entrants, &scheduled.home_entrant_id) || !entrant_listed(entrants, &scheduled.away_entrant_id) {
            return Err(TournamentSnapshotError::UnknownRoundEntrant);
        }
        let seen = id_listed(known_matches.as_slice(), &scheduled.match_id);
        let ghost before = id_views(known_matches@);
        proof {
            assert(ids[s as int] == scheduled.match_id@);
            if !seen {
                assert forall|a: int, b: int| 0 <= a < b < before.len() + 1 implies #[trigger] (before.push(ids[s as int]))[a]
                    != #[trigger] (before.push(ids[s as int]))[b] by {
                    if b == before.len() {
                        assert(before[a] != ids[s as int]);
                    }
                }
            } else {
                let w = choose|w: int| 0 <= w < before.len() && before[w] == scheduled.match_id@;
                assert(before[w] == (earlier + ids)[w]);
                assert((earlier + ids)[w] == (earlier + ids)[earlier.len() + s]);
                assert(!distinct_texts(earlier + ids));
            }
        }
        if seen {
            return Err(TournamentSnapshotError::DuplicateMatch { match_id: scheduled.match_id.duplicate() });
        }
        known_matches.push(scheduled.match_id.duplicate());
        s = s + 1;
        proof {
            assert(earlier + ids.take(s as int) =~= before.push(ids[s - 1]));
            assert(id_views(known_matches@) =~= before.push(ids[s - 1]));
        }
    }
    proof {
        assert(ids.take(ids.len() as int) =~= ids);
    }
    if must_be_complete && results.len() != scheduled_matches.len() {
        return Err(TournamentSnapshotError::IncompleteHistoricalRound);
    }
    let ghost rids = result_ids(results@);
    let mut r: usize = 0;
    while r < results.len()
        invariant
            r <= results@.len(),
            rids == result_ids(results@),
            id_views(known_matches@) == earlier + ids,
            earlier == id_views(old(known_matches)@),
            ids == match_ids(scheduled_matches@),
            known == entrant_ids(entrants@),
            distinct_texts(earlier + ids),
            forall|i: int| 0 <= i < scheduled_matches@.len() ==> known.contains((#[trigger] scheduled_matches@[i]).home_entrant_id@)
                && known.contains(scheduled_matches@[i].away_entrant_id@),
            must_be_complete ==> results@.len() == scheduled_matches@.len(),
            forall|a: int, b: int| 0 <= a < b < r ==> #[trigger] rids[a] != #[trigger] rids[b],
            forall|a: int| 0 <= a < r ==> result_rederives(scheduled_matches@, #[trigger] results@[a], match_format),
        decreases results@.len() - r,
    {
        let result = &results[r];
        let mut a: usize = 0;
        while a < r
            invariant
                a <= r < results@.len(),
                rids == result_ids(results@),
                result == results@[r as int],
                forall|b: int| 0 <= b < a ==> #[trigger] rids[b] != rids[r as int],
            decreases r - a,
        {
            proof {
                assert(rids[a as int] == results@[a as int].spec_match_id());
                assert(rids[r as int] == results@[r as int].spec_match_id());
            }
            if results[a].match_id().same_as(result.match_id()) {
                proof {
                    assert(rids[a as int] == rids[r as int]);
                }
                return Err(TournamentSnapshotError::DuplicateResult { match_id: result.match_id().duplicate() });
            }
            a = a + 1;
        }
        let mut found: Option<usize> = None;
        let mut m: usize = 0;
        while m < scheduled_matches.len() && found.is_none()
            invariant
                m <= scheduled_matches@.len(),
                found matches Some(f) ==> first_match_with_id(scheduled_matches@, result.spec_match_id(), f as int),
                found is None ==> forall|b: int| 0 <= b < m ==> (#[trigger] scheduled_matches@[b]).match_id@
                    != result.spec_match_id(),
            decreases scheduled_matches@.len() - m,
        {
            if scheduled_matches[m].match_id.same_as(result.match_id()) {
                found = Some(m);
            }
            m = m + 1;
        }
        let position = match found {
            Some(position) => position,
            None => {
                proof {
                    assert forall|i: int| !first_match_with_id(scheduled_matches@, result.spec_match_id(), i) by {
                        if 0 <= i < scheduled_matches@.len() {
                            assert(scheduled_matches@[i].match_id@ != result.spec_match_id());
                        }
                    }
                }
                return Err(TournamentSnapshotError::UnknownResultMatch { match_id: result.match_id().duplicate() });
            },
        };
        let scheduled = &scheduled_matches[position];
        let active_scheduled = ScheduledMatch::published(
            scheduled.match_id.duplicate(),
            scheduled.home_entrant_id.duplicate(),
            scheduled.away_entrant_id.duplicate(),
            scheduled.table_number(),
            RoundActivity::Active,
        );
        let games = copy_games(result.games());
        proof {
            assert forall|i: int| #[trigger] first_match_with_id(scheduled_matches@, result.spec_match_id(), i) implies i
                == position by {
                if i < position {
                    assert(scheduled_matches@[i].match_id@ != result.spec_match_id());
                } else if i > position {
                    assert(scheduled_matches@[position as int].match_id@ != result.spec_match_id());
                }
            }
        }
        let derived = match validate_and_complete_match(&active_scheduled, match_format, games) {
            Ok(derived) => derived,
            Err(_) => {
                return Err(TournamentSnapshotError::InvalidResult { match_id: result.match_id().duplicate() });
            },
        };
        if derived.home_games_won().value() != result.home_games_won().value() || derived.away_games_won().value()
            != result.away_games_won().value() || !derived.winner_id().same_as(result.winner_id()) {
            return Err(TournamentSnapshotError::InvalidResult { match_id: result.match_id().duplicate() });
        }
        r = r + 1;
    }
    Ok(())
}

proof fn lemma_history_step(rounds: Seq<CompletedRound>, i: int)
    requires
        0 <= i < rounds.len(),
    ensures
        history_match_ids(rounds.take(i + 1)) == history_match_ids(rounds.take(i)) + match_ids(
            rounds[i].scheduled_matches@,
        ),
{
    assert(rounds.take(i + 1).drop_last() =~= rounds.take(i));
}

/// Checks that the rounds are numbered from one without gaps and that each
/// is consistent, historical rounds complete.
fn validate_rounds(snapshot: &TournamentApplicationSnapshot) -> (outcome: Result<(), TournamentSnapshotError>)
    ensures
        outcome is Ok <==> rounds_consistent(*snapshot),
{
    let mut known_matches: Vec<MatchId> = Vec::new();
    let match_format = snapshot.tournament.match_format();
    let mut index: usize = 0;
    proof {
        assert(snapshot.completed_rounds@.take(0) =~= Seq::<CompletedRound>::empty());
        assert(id_views(known_matches@) =~= Seq::<Seq<char>>::empty());
    }
    while index < snapshot.completed_rounds.len()
        invariant
            index <= snapshot.completed_rounds@.len(),
            match_format == snapshot.tournament.spec_match_format(),
            history_consistent(*snapshot, index as int),
            id_views(known_matches@) == history_match_ids(snapshot.completed_rounds@.take(index as int)),
            distinct_texts(id_views(known_matches@)),
        decreases snapshot.completed_rounds@.len() - index,
    {
        let round = &snapshot.completed_rounds[index];
        if round.round_number.value() as usize != index + 1 {
            return Err(TournamentSnapshotError::RoundGap);
        }
        proof {
            lemma_history_step(snapshot.completed_rounds@, index as int);
        }
        match validate_round(
            round.scheduled_matches.as_slice(),
            round.results.as_slice(),
            snapshot.entrants.as_slice(),
            &mut known_matches,
            match_format,
            true,
        ) {
            Ok(()) => {},
            Err(error) => return Err(error),
        }
        index = index + 1;
    }
    proof {
        assert(snapshot.completed_rounds@.take(index as int) =~= snapshot.completed_rounds@);
    }
    match &snapshot.active_round {
        Some(round) => {
            let completed = snapshot.completed_rounds.len();
            if completed >= 65535 || round.round_number.value() as usize != completed + 1 {
                return Err(TournamentSnapshotError::RoundGap);
            }
            match validate_round(
                round.scheduled_matches.as_slice(),
                round.results.as_slice(),
                snapshot.entrants.as_slice(),
                &mut known_matches,
                match_format,
                false,
            ) {
                Ok(()) => {},
                Err(error) => return Err(error),
            }
        },
        None => {},
    }
    Ok(())
}

/// The ids are in ascending text order.
pub open spec fn ids_ascending(ids: Seq<EntrantId>) -> bool {
    forall|i: int, j: int| 0 <= i < j < ids.len() ==> text_le(#[trigger] ids[i]@, #[trigger] ids[j]@)
}

/// Copies of the ids in ascending text order.
fn sorted_ids(ids: &Vec<EntrantId>) -> (sorted: Vec<EntrantId>)
    ensures
        sorted@.len() == ids@.len(),
        ids_ascending(sorted@),
        forall|i: int| 0 <= i < ids@.len() ==> id_views(sorted@).contains((#[trigger] ids@[i])@),
        forall|i: int| 0 <= i < sorted@.len() ==> id_views(ids@).contains((#[trigger] sorted@[i])@),
{
    let mut sorted: Vec<EntrantId> = Vec::new();
    let mut k: usize = 0;
    while k < ids.len()
        invariant
            k <= ids@.len(),
            sorted@.len() == k,
            ids_ascending(sorted@),
            forall|i: int| 0 <= i < k ==> id_views(sorted@).contains((#[trigger] ids@[i])@),
            forall|i: int| 0 <= i < sorted@.len() ==> id_views(ids@.take(k as int)).contains((#[trigger] sorted@[i])@),
        decreases ids@.len() - k,
    {
        let item = ids[k].duplicate();
        let mut position: usize = 0;
        while position < sorted.len() && sorted[position].compare(&item) <= 0
            invariant
                position <= sorted@.len(),
                forall|a: int| 0 <= a < position ==> text_le((#[trigger] sorted@[a])@, item@),
            decreases sorted@.len() - position,
        {
            position = position + 1;
        }
        let ghost before = sorted@;
        let ghost p = position as int;
        let ghost x = item;
        proof {
            if p < before.len() {
                crate::identity::lemma_text_order_antisymmetric(before[p]@, x@);
            }
        }
        sorted.insert(position, item);
        proof {
            assert(sorted@ == before.insert(p, x));
            assert forall|i: int, j: int| 0 <= i < j < sorted@.len() implies text_le(
                #[trigger] sorted@[i]@,
                #[trigger] sorted@[j]@,
            ) by {
                if j < p {
                    assert(sorted@[i] == before[i] && sorted@[j] == before[j]);
                } else if j == p {
                    assert(sorted@[i] == before[i]);
                } else if i == p {
                    assert(sorted@[j] == before[j - 1]);
                    if j - 1 > p {
                        assert(text_le(before[p]@, before[j - 1]@));
                        crate::identity::lemma_text_le_transitive(x@, before[p]@, before[j - 1]@);
                    }
                } else if i < p {
                    assert(sorted@[i] == before[i] && sorted@[j] == before[j - 1]);
                } else {
                    assert(sorted@[i] == before[i - 1] && sorted@[j] == before[j - 1]);
                }
            }
            assert forall|i: int| 0 <= i < k + 1 implies id_views(sorted@).contains((#[trigger] ids@[i])@) by {
                if i == k {
                    assert(id_views(sorted@)[p] == x@);
                } else {
                    let w = choose|w: int| 0 <= w < before.len() && id_views(before)[w] == ids@[i]@;
                    if w < p {
                        assert(id_views(sorted@)[w] == ids@[i]@);
                    } else {
                        assert(id_views(sorted@)[w + 1] == ids@[i]@);
                    }
                }
            }
            assert forall|i: int| 0 <= i < sorted@.len() implies id_views(ids@.take(k + 1)).contains(
                (#[trigger] sorted@[i])@,
            ) by {
                if i == p {
                    assert(id_views(ids@.take(k + 1))[k as int] == x@);
                } else {
                    let b = if i < p { i } else { i - 1 };
                    assert(sorted@[i] == before[b]);
                    assert(id_views(ids@.take(k as int)).contains(before[b]@));
                    let w = choose|w: int| 0 <= w < k && id_views(ids@.take(k as int))[w] == before[b]@;
                    assert(id_views(ids@.take(k + 1))[w] == before[b]@);
                }
            }
        }
        k = k + 1;
    }
    proof {
        assert(ids@.take(ids@.len() as int) =~= ids@);
    }
    sorted
}

/// The entrants hold the same ids, names, clubs and ratings.
pub open spec fn roster_copied(copy: Seq<TournamentEntrant>, original: Seq<TournamentEntrant>) -> bool {
    &&& copy.len() == original.len()
    &&& forall|i: int| 0 <= i < original.len() ==> {
        &&& (#[trigger] copy[i]).entrant_id@ == original[i].entrant_id@
        &&& copy[i].name@ == original[i].name@
        &&& copy[i].club_id@ == original[i].club_id@
        &&& copy[i].club_name@ == original[i].club_name@
        &&& copy[i].starting_elo == original[i].starting_elo
    }
}

/// The tournaments have the same id, configuration and state.
pub open spec fn tournament_copied(copy: Tournament, original: Tournament) -> bool {
    &&& copy.spec_id() == original.spec_id()
    &&& copy.spec_match_format() == original.spec_match_format()
    &&& copy.spec_table_count() == original.spec_table_count()
    &&& copy.spec_maximum_round_count() == original.spec_maximum_round_count()
    &&& copy.spec_state() == original.spec_state()
}

/// The two lists name the same ids.
pub open spec fn same_ids(first: Seq<EntrantId>, second: Seq<EntrantId>) -> bool {
    &&& forall|i: int| 0 <= i < first.len() ==> id_views(second).contains((#[trigger] first[i])@)
    &&& forall|i: int| 0 <= i < second.len() ==> id_views(first).contains((#[trigger] second[i])@)
}

/// `saved` is what saving `application` gives: schema version one, copies
/// of the tournament, roster, rounds and preview, and the active ids in
/// ascending order.
pub open spec fn saves(application: TournamentApplication, saved: TournamentApplicationSnapshot) -> bool {
    &&& saved.schema_version == 1
    &&& tournament_copied(saved.tournament, application.spec_tournament())
    &&& roster_copied(saved.entrants@, application.spec_entrants())
    &&& saved.completed_rounds@.len() == application.spec_completed_rounds().len()
    &&& forall|i: int| 0 <= i < application.spec_completed_rounds().len() ==> completed_copied(
        #[trigger] saved.completed_rounds@[i],
        application.spec_completed_rounds()[i],
    )
    &&& match (saved.active_round, application.spec_active_round()) {
        (Some(copy), Some(original)) => active_copied(copy, original),
        (None, None) => true,
        _ => false,
    }
    &&& match (saved.pending_pairing, application.pending_pairing) {
        (Some(copy), Some(original)) => request_copied(copy.request, original.request) && proposal_copied(
            copy.proposal,
            original.proposal,
        ),
        (None, None) => true,
        _ => false,
    }
    &&& ids_ascending(saved.active_entrant_ids@)
    &&& saved.active_entrant_ids@.len() == application.active_entrant_ids@.len()
    &&& same_ids(saved.active_entrant_ids@, application.active_entrant_ids@)
}

/// `application` is what restoring `saved` gives: its parts taken over as
/// they are, and standings that replay its history.
pub open spec fn restores(saved: TournamentApplicationSnapshot, application: TournamentApplication) -> bool {
    &&& application.spec_tournament() == saved.tournament
    &&& application.spec_entrants() == saved.entrants@
    &&& application.spec_completed_rounds() == saved.completed_rounds@
    &&& application.spec_active_round() == saved.active_round
    &&& application.pending_pairing == match saved.pending_pairing {
        Some(pending) => Some(PendingPairing { request: pending.request, proposal: pending.proposal }),
        None => None,
    }
    &&& application.active_entrant_ids@ == saved.active_entrant_ids@
    &&& forall|i: int| 0 <= i < application.spec_standings().len() ==> standing_replays(
        saved.entrants@,
        saved.completed_rounds@,
        #[trigger] application.spec_standings()[i],
    )
    &&& forall|i: int| 0 <= i < saved.entrants@.len() ==> crate::application::has_standing(
        application.spec_standings(),
        (#[trigger] saved.entrants@[i]).entrant_id@,
    )
}

/// The restored application holds what the original held: the same
/// tournament, roster, rounds, preview and set of active entrants.
pub open spec fn application_copied(copy: TournamentApplication, original: TournamentApplication) -> bool {
    &&& tournament_copied(copy.spec_tournament(), original.spec_tournament())
    &&& roster_copied(copy.spec_entrants(), original.spec_entrants())
    &&& copy.spec_completed_rounds().len() == original.spec_completed_rounds().len()
    &&& forall|i: int| 0 <= i < original.spec_completed_rounds().len() ==> completed_copied(
        #[trigger] copy.spec_completed_rounds()[i],
        original.spec_completed_rounds()[i],
    )
    &&& match (copy.spec_active_round(), original.spec_active_round()) {
        (Some(c), Some(o)) => active_copied(c, o),
        (None, None) => true,
        _ => false,
    }
    &&& match (copy.pending_pairing, original.pending_pairing) {
        (Some(c), Some(o)) => request_copied(c.request, o.request) && proposal_copied(c.proposal, o.proposal),
        (None, None) => true,
        _ => false,
    }
    &&& same_ids(copy.active_entrant_ids@, original.active_entrant_ids@)
}

/// Restoring what saving an application gave holds what the application
/// held.
pub proof fn law_restore_undoes_snapshot(
    application: TournamentApplication,
    saved: TournamentApplicationSnapshot,
    restored: TournamentApplication,
)
    requires
        saves(application, saved),
        restores(saved, restored),
    ensures
        application_copied(restored, application),
{
}

impl TournamentApplication {
    /// Saves the application: its tournament, roster, rounds and preview,
    /// with the active ids in ascending order.
    pub fn snapshot(&self) -> (saved: TournamentApplicationSnapshot)
        ensures
            saves(*self, saved),
    {
        let mut entrants: Vec<TournamentEntrant> = Vec::new();
        let mut i: usize = 0;
        while i < self.entrants.len()
            invariant
                i <= self.entrants@.len(),
                entrants@.len() == i,
                forall|k: int| 0 <= k < i ==> {
                    &&& (#[trigger] entrants@[k]).entrant_id@ == self.entrants@[k].entrant_id@
                    &&& entrants@[k].name@ == self.entrants@[k].name@
                    &&& entrants@[k].club_id@ == self.entrants@[k].club_id@
                    &&& entrants@[k].club_name@ == self.entrants@[k].club_name@
                    &&& entrants@[k].starting_elo == self.entrants@[k].starting_elo
                },
            decreases self.entrants@.len() - i,
        {
            entrants.push(self.entrants[i].duplicate());
            i = i + 1;
        }
        let mut completed_rounds: Vec<CompletedRound> = Vec::new();
        let mut r: usize = 0;
        while r < self.completed_rounds.len()
            invariant
                r <= self.completed_rounds@.len(),
                completed_rounds@.len() == r,
                forall|k: int| 0 <= k < r ==> completed_copied(#[trigger] completed_rounds@[k], self.completed_rounds@[k]),
            decreases self.completed_rounds@.len() - r,
        {
            completed_rounds.push(self.completed_rounds[r].duplicate());
            r = r + 1;
        }
        let active_round = match &self.active_round {
            Some(round) => Some(round.duplicate()),
            None => None,
        };
        let pending_pairing = match &self.pending_pairing {
            Some(pending) => Some(
                PairingPreviewSnapshot {
                    request: copy_request(&pending.request),
                    proposal: copy_proposal(&pending.proposal),
                },
            ),
            None => None,
        };
        TournamentApplicationSnapshot {
            schema_version: 1,
            tournament: self.tournament.duplicate(),
            entrants,
            completed_rounds,
            active_round,
            pending_pairing,
            active_entrant_ids: sorted_ids(&self.active_entrant_ids),
        }
    }

    /// Restores a saved application after checking it, in this order: the
    /// schema version, the roster, the lifecycle and the rounds; the
    /// standings are then recalculated from the history.
    pub fn restore(snapshot: TournamentApplicationSnapshot) -> (outcome: Result<Self, TournamentSnapshotError>)
        ensures
            snapshot.schema_version != 1 ==> (outcome matches Err(e)
                && e == TournamentSnapshotError::UnsupportedSchemaVersion { version: snapshot.schema_version }),
            outcome is Ok ==> snapshot_consistent(snapshot),
            snapshot_consistent(snapshot) ==> (outcome is Ok || outcome matches Err(
                TournamentSnapshotError::InvalidStandings,
            )),
            snapshot_consistent(snapshot) && snapshot.completed_rounds@.len() == 0 ==> outcome is Ok,
            outcome matches Ok(application) ==> restores(snapshot, application),
    {
        if snapshot.schema_version != 1 {
            return Err(TournamentSnapshotError::UnsupportedSchemaVersion { version: snapshot.schema_version });
        }
        match validate_entrants(snapshot.entrants.as_slice(), snapshot.active_entrant_ids.as_slice()) {
            Ok(()) => {},
            Err(error) => return Err(error),
        }
        match validate_lifecycle(&snapshot) {
            Ok(()) => {},
            Err(error) => return Err(error),
        }
        match validate_rounds(&snapshot) {
            Ok(()) => {},
            Err(error) => return Err(error),
        }
        let standings = match calculate_standings(snapshot.entrants.as_slice(), snapshot.completed_rounds.as_slice()) {
            Ok(standings) => standings,
            Err(_) => return Err(TournamentSnapshotError::InvalidStandings),
        };
        let TournamentApplicationSnapshot {
            schema_version: _,
            tournament,
            entrants,
            completed_rounds,
            active_round,
            pending_pairing,
            active_entrant_ids,
        } = snapshot;
        let pending_pairing = match pending_pairing {
            Some(pending) => Some(PendingPairing { request: pending.request, proposal: pending.proposal }),
            None => None,
        };
        Ok(
            TournamentApplication {
                tournament,
                entrants,
                standings,
                completed_rounds,
                active_round,
                pending_pairing,
                active_entrant_ids,
            },
        )
    }
}

/// The variant of the error with its fields, as a debugging aid prints it.
pub open spec fn snapshot_error_detail(error: TournamentSnapshotError) -> Seq<char> {
    match error {
        TournamentSnapshotError::UnsupportedSchemaVersion { version } => "UnsupportedSchemaVersion { version: "@
            + decimal_text(version as u64) + " }"@,
        TournamentSnapshotError::DuplicateEntrant { entrant_id } => "DuplicateEntrant { entrant_id: "@ + quoted(entrant_id@) + " }"@,
        TournamentSnapshotError::UnknownActiveEntrant { entrant_id } => "UnknownActiveEntrant { entrant_id: "@ + quoted(entrant_id@) + " }"@,
        TournamentSnapshotError::DuplicateActiveEntrant { entrant_id } => "DuplicateActiveEntrant { entrant_id: "@ + quoted(entrant_id@) + " }"@,
        TournamentSnapshotError::DuplicateMatch { match_id } => "DuplicateMatch { match_id: "@ + quoted(match_id@) + " }"@,
        TournamentSnapshotError::DuplicateResult { match_id } => "DuplicateResult { match_id: "@ + quoted(match_id@) + " }"@,
        TournamentSnapshotError::UnknownResultMatch { match_id } => "UnknownResultMatch { match_id: "@ + quoted(match_id@) + " }"@,
        TournamentSnapshotError::InvalidResult { match_id } => "InvalidResult { match_id: "@ + quoted(match_id@) + " }"@,
        TournamentSnapshotError::PreviewAndActiveRound => "PreviewAndActiveRound"@,
        TournamentSnapshotError::DraftContainsRounds => "DraftContainsRounds"@,
        TournamentSnapshotError::RoundGap => "RoundGap"@,
        TournamentSnapshotError::UnknownRoundEntrant => "UnknownRoundEntrant"@,
        TournamentSnapshotError::IncompleteHistoricalRound => "IncompleteHistoricalRound"@,
        TournamentSnapshotError::InvalidStandings => "InvalidStandings"@,
    }
}

/// Appends the id in double quotes.
fn append_quoted(text: &mut String, id: &EntrantId)
    ensures
        final(text)@ == old(text)@ + quoted(id@),
{
    text.append("\"");
    text.append(id.as_str());
    text.append("\"");
    proof {
        assert(final(text)@ =~= old(text)@ + quoted(id@));
    }
}

fn snapshot_error_detail_text(error: &TournamentSnapshotError) -> (text: String)
    ensures
        text@ == snapshot_error_detail(*error),
{
    match error {
            TournamentSnapshotError::UnsupportedSchemaVersion { version } => {
                let digits = decimal(*version as u64);
                let mut text = String::from_str("UnsupportedSchemaVersion { version: ");
                text.append(digits.as_str());
                text.append(" }");
                text
            },
            TournamentSnapshotError::DuplicateEntrant { entrant_id } => {
                let mut text = String::from_str("DuplicateEntrant { entrant_id: ");
                append_quoted(&mut text, entrant_id);
                text.append(" }");
                text
            },
            TournamentSnapshotError::UnknownActiveEntrant { entrant_id } => {
                let mut text = String::from_str("UnknownActiveEntrant { entrant_id: ");
                append_quoted(&mut text, entrant_id);
                text.append(" }");
                text
            },
            TournamentSnapshotError::DuplicateActiveEntrant { entrant_id } => {
                let mut text = String::from_str("DuplicateActiveEntrant { entrant_id: ");
                append_quoted(&mut text, entrant_id);
                text.append(" }");
                text
            },
            TournamentSnapshotError::DuplicateMatch { match_id } => {
                let mut text = String::from_str("DuplicateMatch { match_id: ");
                append_quoted(&mut text, match_id);
                text.append(" }");
                text
            },
            TournamentSnapshotError::DuplicateResult { match_id } => {
                let mut text = String::from_str("DuplicateResult { match_id: ");
                append_quoted(&mut text, match_id);
                text.append(" }");
                text
            },
            TournamentSnapshotError::UnknownResultMatch { match_id } => {
                let mut text = String::from_str("UnknownResultMatch { match_id: ");
                append_quoted(&mut text, match_id);
                text.append(" }");
                text
            },
            TournamentSnapshotError::InvalidResult { match_id } => {
                let mut text = String::from_str("InvalidResult { match_id: ");
                append_quoted(&mut text, match_id);
                text.append(" }");
                text
            },
            TournamentSnapshotError::PreviewAndActiveRound => String::from_str("PreviewAndActiveRound"),
            TournamentSnapshotError::DraftContainsRounds => String::from_str("DraftContainsRounds"),
            TournamentSnapshotError::RoundGap => String::from_str("RoundGap"),
            TournamentSnapshotError::UnknownRoundEntrant => String::from_str("UnknownRoundEntrant"),
            TournamentSnapshotError::IncompleteHistoricalRound => String::from_str("IncompleteHistoricalRound"),
            TournamentSnapshotError::InvalidStandings => String::from_str("InvalidStandings"),
    }
}

impl TournamentSnapshotError {
    /// The error in words: `invalid tournament snapshot: ` and the detail.
    pub fn message(&self) -> (text: String)
        ensures
            text@ == "invalid tournament snapshot: "@ + snapshot_error_detail(*self),
    {
        let mut text = String::from_str("invalid tournament snapshot: ");
        let detail = snapshot_error_detail_text(self);
        text.append(detail.as_str());
        text
    }
}

} // verus!
