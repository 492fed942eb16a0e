//! The pairing snapshot of the active entrants with their current standing.
use vstd::prelude::*;

use crate::identity::EntrantId;
use crate::pairing::algorithms::blossom_v1::{PairingEntrant, PreviousMatch, RoundNumber};
use crate::pairing::algorithms::{PairingPolicy, PairingSnapshot, blossom_v1, blossom_v2};
use crate::scheduling::ScheduledMatch;

use super::standing_accumulator::overflow_error;
use super::{CompletedRound, ContestantStanding, TournamentApplicationError, TournamentEntrant};

verus! {

/// Some entrant of the list carries the id.
pub open spec fn lists_entrant(entrants: Seq<TournamentEntrant>, id: Seq<char>) -> bool {
    exists|i: int| 0 <= i < entrants.len() && (#[trigger] entrants[i]).entrant_id@ == id
}

/// The (home, away, round) of the scheduled matches among active entrants,
/// in order.
pub open spec fn active_pairs(
    entrants: Seq<TournamentEntrant>,
    matches: Seq<ScheduledMatch>,
    round_number: u16,
) -> Seq<(Seq<char>, Seq<char>, u16)>
    decreases matches.len(),
{
    if matches.len() == 0 {
        Seq::empty()
    } else {
        let earlier = active_pairs(entrants, matches.drop_last(), round_number);
        let last = matches.last();
        if lists_entrant(entrants, last.home_entrant_id@) && lists_entrant(entrants, last.away_entrant_id@) {
            earlier.push((last.home_entrant_id@, last.away_entrant_id@, round_number))
        } else {
            earlier
        }
    }
}

/// The history pairs of all the rounds, round by round.
pub open spec fn history_pairs(entrants: Seq<TournamentEntrant>, rounds: Seq<CompletedRound>) -> Seq<(Seq<char>, Seq<char>, u16)>
    decreases rounds.len(),
{
    if rounds.len() == 0 {
        Seq::empty()
    } else {
        history_pairs(entrants, rounds.drop_last()) + active_pairs(
            entrants,
            rounds.last().scheduled_matches@,
            rounds.last().round_number.spec_value(),
        )
    }
}

/// The (first, second, round) view of history entries.
pub open spec fn previous_view(entries: Seq<PreviousMatch>) -> Seq<(Seq<char>, Seq<char>, u16)> {
    entries.map_values(|entry: PreviousMatch| (entry.first_entrant_id@, entry.second_entrant_id@, entry.round_number.spec_value()))
}

/// The first standing with the id.
pub open spec fn standing_of(standings: Seq<ContestantStanding>, id: Seq<char>) -> Option<ContestantStanding>
    decreases standings.len(),
{
    if standings.len() == 0 {
        None
    } else if standings[0].entrant_id@ == id {
        Some(standings[0])
    } else {
        standing_of(standings.drop_first(), id)
    }
}

/// The pairing entrant carries the entrant's identity and ELO and its
/// standing's performance, wins, opponent strength and byes.
pub open spec fn pairing_entrant_for(entrant: TournamentEntrant, standing: ContestantStanding, pairing: PairingEntrant) -> bool {
    &&& pairing.entrant_id@ == entrant.entrant_id@
    &&& pairing.club_id@ == entrant.club_id@
    &&& pairing.starting_elo == entrant.starting_elo
    &&& pairing.performance_score == standing.performance_score
    &&& pairing.matches_won == standing.matches_won
    &&& pairing.opponent_score_sum == standing.opponent_score_sum
    &&& pairing.bye_count == standing.bye_count
}

/// The pairing entrant was built from the entrant and its first standing.
pub open spec fn entry_built(standings: Seq<ContestantStanding>, entrant: TournamentEntrant, pairing: PairingEntrant) -> bool {
    standing_of(standings, entrant.entrant_id@) matches Some(standing) && pairing_entrant_for(entrant, standing, pairing)
}

/// The snapshot is the request of round `round_number` under `policy`,
/// built from the entrants, their standings and the completed rounds.
pub open spec fn snapshot_built(
    snapshot: PairingSnapshot,
    entrants: Seq<TournamentEntrant>,
    standings: Seq<ContestantStanding>,
    rounds: Seq<CompletedRound>,
    round_number: int,
    policy: PairingPolicy,
) -> bool {
    match snapshot {
        PairingSnapshot::BlossomV1(request) => {
            &&& policy == PairingPolicy::BlossomV1(request.policy)
            &&& request.round_number.spec_value() == round_number
            &&& request_parts_match(entrants, standings, rounds, request.entrants@, request.previous_matches@)
        },
        PairingSnapshot::BlossomV2(request) => {
            &&& policy == PairingPolicy::BlossomV2(request.policy)
            &&& request.round_number.spec_value() == round_number
            &&& request_parts_match(entrants, standings, rounds, request.entrants@, request.previous_matches@)
        },
    }
}

proof fn lemma_active_pairs_hold_match(entrants: Seq<TournamentEntrant>, matches: Seq<ScheduledMatch>, round_number: u16, m: int)
    requires
        0 <= m < matches.len(),
        lists_entrant(entrants, matches[m].home_entrant_id@),
        lists_entrant(entrants, matches[m].away_entrant_id@),
    ensures
        active_pairs(entrants, matches, round_number).contains(
            (matches[m].home_entrant_id@, matches[m].away_entrant_id@, round_number),
        ),
    decreases matches.len(),
{
    let earlier = active_pairs(entrants, matches.drop_last(), round_number);
    if m == matches.len() - 1 {
        assert(matches.last() == matches[m]);
        assert(active_pairs(entrants, matches, round_number)[earlier.len() as int] == (
            matches[m].home_entrant_id@,
            matches[m].away_entrant_id@,
            round_number,
        ));
    } else {
        assert(matches.drop_last()[m] == matches[m]);
        lemma_active_pairs_hold_match(entrants, matches.drop_last(), round_number, m);
        let t = choose|t: int|
            0 <= t < earlier.len() && earlier[t] == (matches[m].home_entrant_id@, matches[m].away_entrant_id@, round_number);
        assert(active_pairs(entrants, matches, round_number)[t] == earlier[t]);
    }
}

proof fn lemma_history_pairs_hold_round(entrants: Seq<TournamentEntrant>, rounds: Seq<CompletedRound>, r: int, pair: (Seq<char>, Seq<char>, u16))
    requires
        0 <= r < rounds.len(),
        active_pairs(entrants, rounds[r].scheduled_matches@, rounds[r].round_number.spec_value()).contains(pair),
    ensures
        history_pairs(entrants, rounds).contains(pair),
    decreases rounds.len(),
{
    let earlier = history_pairs(entrants, rounds.drop_last());
    let last = active_pairs(entrants, rounds.last().scheduled_matches@, rounds.last().round_number.spec_value());
    if r == rounds.len() - 1 {
        let t = choose|t: int| 0 <= t < last.len() && last[t] == pair;
        assert(history_pairs(entrants, rounds)[earlier.len() + t] == pair);
    } else {
        assert(rounds.drop_last()[r] == rounds[r]);
        lemma_history_pairs_hold_round(entrants, rounds.drop_last(), r, pair);
        let t = choose|t: int| 0 <= t < earlier.len() && earlier[t] == pair;
        assert(history_pairs(entrants, rounds)[t] == pair);
    }
}

/// The previous matches of the snapshot's request, as (first, second,
/// round) triples.
pub open spec fn snapshot_history(snapshot: PairingSnapshot) -> Seq<(Seq<char>, Seq<char>, u16)> {
    match snapshot {
        PairingSnapshot::BlossomV1(request) => previous_view(request.previous_matches@),
        PairingSnapshot::BlossomV2(request) => previous_view(request.previous_matches@),
    }
}

/// A pairing request built from completed rounds remembers every match
/// that two of its entrants played in them, with its round: no earlier
/// meeting is left out of the rematch history.
pub proof fn law_request_remembers_every_earlier_meeting(
    snapshot: PairingSnapshot,
    entrants: Seq<TournamentEntrant>,
    standings: Seq<ContestantStanding>,
    rounds: Seq<CompletedRound>,
    round_number: int,
    policy: PairingPolicy,
    r: int,
    m: int,
)
    requires
        snapshot_built(snapshot, entrants, standings, rounds, round_number, policy),
        0 <= r < rounds.len(),
        0 <= m < rounds[r].scheduled_matches@.len(),
        lists_entrant(entrants, rounds[r].scheduled_matches@[m].home_entrant_id@),
        lists_entrant(entrants, rounds[r].scheduled_matches@[m].away_entrant_id@),
    ensures
        snapshot_history(snapshot).contains(
            (
                rounds[r].scheduled_matches@[m].home_entrant_id@,
                rounds[r].scheduled_matches@[m].away_entrant_id@,
                rounds[r].round_number.spec_value(),
            ),
        ),
{
    let matches = rounds[r].scheduled_matches@;
    lemma_active_pairs_hold_match(entrants, matches, rounds[r].round_number.spec_value(), m);
    lemma_history_pairs_hold_round(
        entrants,
        rounds,
        r,
        (matches[m].home_entrant_id@, matches[m].away_entrant_id@, rounds[r].round_number.spec_value()),
    );
}

/// The request parts built from the entrants, standings and rounds.
pub open spec fn request_parts_match(
    entrants: Seq<TournamentEntrant>,
    standings: Seq<ContestantStanding>,
    rounds: Seq<CompletedRound>,
    pairing_entrants: Seq<PairingEntrant>,
    previous: Seq<PreviousMatch>,
) -> bool {
    &&& pairing_entrants.len() == entrants.len()
    &&& forall|i: int| 0 <= i < entrants.len() ==> entry_built(standings, entrants[i], #[trigger] pairing_entrants[i])
    &&& previous_view(previous) == history_pairs(entrants, rounds)
}

/// The first standing with the id.
fn find_standing<'a>(standings: &'a [ContestantStanding], id: &EntrantId) -> (found: Option<&'a ContestantStanding>)
    ensures
        match found {
            Some(standing) => standing_of(standings@, id@) == Some(*standing),
            None => standing_of(standings@, id@) is None,
        },
{
    let mut i: usize = 0;
    proof {
        assert(standings@.subrange(0, standings@.len() as int) =~= standings@);
    }
    while i < standings.len()
        invariant
            i <= standings@.len(),
            standing_of(standings@, id@) == standing_of(standings@.subrange(i as int, standings@.len() as int), id@),
        decreases standings@.len() - i,
    {
        proof {
            assert(standings@.subrange(i as int, standings@.len() as int).drop_first() =~= standings@.subrange(
                i + 1,
                standings@.len() as int,
            ));
        }
        if standings[i].entrant_id.same_as(id) {
            return Some(&standings[i]);
        }
        i = i + 1;
    }
    None
}

/// Whether an entrant of the list carries the id.
fn lists(entrants: &[TournamentEntrant], id: &EntrantId) -> (found: bool)
    ensures
        found == lists_entrant(entrants@, id@),
{
    let mut i: usize = 0;
    while i < entrants.len()
        invariant
            i <= entrants@.len(),
            forall|j: int| 0 <= j < i ==> (#[trigger] entrants@[j]).entrant_id@ != id@,
        decreases entrants@.len() - i,
    {
        if entrants[i].entrant_id.same_as(id) {
            return true;
        }
        i = i + 1;
    }
    false
}

/// The history of the rounds among the given entrants.
fn previous_matches_among(entrants: &[TournamentEntrant], rounds: &[CompletedRound]) -> (previous: Vec<PreviousMatch>)
    ensures
        previous_view(previous@) == history_pairs(entrants@, rounds@),
{
    let mut previous: Vec<PreviousMatch> = Vec::new();
    let mut r: usize = 0;
    proof {
        assert(previous_view(previous@) =~= Seq::empty());
        assert(rounds@.subrange(0, 0) =~= Seq::<CompletedRound>::empty());
    }
    while r < rounds.len()
        invariant
            r <= rounds@.len(),
            previous_view(previous@) == history_pairs(entrants@, rounds@.subrange(0, r as int)),
        decreases rounds@.len() - r,
    {
        let round = &rounds[r];
        let ghost start = previous_view(previous@);
        let mut k: usize = 0;
        proof {
            assert(round.scheduled_matches@.subrange(0, 0) =~= Seq::<ScheduledMatch>::empty());
            assert(start + Seq::<(Seq<char>, Seq<char>, u16)>::empty() =~= start);
        }
        while k < round.scheduled_matches.len()
            invariant
                k <= round.scheduled_matches@.len(),
                previous_view(previous@) == start + active_pairs(
                    entrants@,
                    round.scheduled_matches@.subrange(0, k as int),
                    round.round_number.spec_value(),
                ),
            decreases round.scheduled_matches@.len() - k,
        {
            let scheduled = &round.scheduled_matches[k];
            let ghost prefix = round.scheduled_matches@.subrange(0, k + 1);
            proof {
                assert(prefix.drop_last() =~= round.scheduled_matches@.subrange(0, k as int));
                assert(prefix.last() == *scheduled);
            }
            if lists(entrants, &scheduled.home_entrant_id) && lists(entrants, &scheduled.away_entrant_id) {
                let ghost before = previous@;
                let entry = PreviousMatch {
                    first_entrant_id: scheduled.home_entrant_id.duplicate(),
                    second_entrant_id: scheduled.away_entrant_id.duplicate(),
                    round_number: round.round_number,
                };
                previous.push(entry);
                proof {
                    assert(previous_view(previous@) =~= previous_view(before).push(
                        (scheduled.home_entrant_id@, scheduled.away_entrant_id@, round.round_number.spec_value()),
                    ));
                }
            }
            k = k + 1;
        }
        proof {
            let upto = rounds@.subrange(0, r + 1);
            assert(upto.drop_last() =~= rounds@.subrange(0, r as int));
            assert(upto.last() == *round);
            assert(round.scheduled_matches@.subrange(0, round.scheduled_matches@.len() as int) =~= round.scheduled_matches@);
        }
        r = r + 1;
    }
    proof {
        assert(rounds@.subrange(0, rounds@.len() as int) =~= rounds@);
    }
    previous
}

/// Every entrant has a standing whose match wins and bye count fit the
/// pairing request's 16-bit fields.
pub open spec fn standings_pairable(entrants: Seq<TournamentEntrant>, standings: Seq<ContestantStanding>) -> bool {
    forall|i: int| 0 <= i < entrants.len() ==> match standing_of(standings, (#[trigger] entrants[i]).entrant_id@) {
        Some(standing) => standing.matches_won <= 65535 && standing.bye_count <= 65535,
        None => false,
    }
}

/// The pairing entrants of the active entrants with their standings.
fn pairing_entrants(entrants: &[TournamentEntrant], standings: &[ContestantStanding]) -> (outcome: Result<
    Vec<PairingEntrant>,
    TournamentApplicationError,
>)
    ensures
        outcome matches Ok(pairing) ==> pairing@.len() == entrants@.len() && forall|i: int|
            0 <= i < entrants@.len() ==> entry_built(standings@, entrants@[i], #[trigger] pairing@[i]),
        outcome matches Err(e) ==> e is UnknownEntrantInRound || e == overflow_error("pairing match wins") || e
            == overflow_error("pairing bye count"),
        outcome is Ok <==> standings_pairable(entrants@, standings@),
{
    let mut result: Vec<PairingEntrant> = Vec::new();
    let mut i: usize = 0;
    while i < entrants.len()
        invariant
            i <= entrants@.len(),
            forall|j: int| 0 <= j < i ==> match standing_of(standings@, (#[trigger] entrants@[j]).entrant_id@) {
                Some(standing) => standing.matches_won <= 65535 && standing.bye_count <= 65535,
                None => false,
            },
            result@.len() == i,
            forall|j: int| 0 <= j < i ==> entry_built(standings@, entrants@[j], #[trigger] result@[j]),
        decreases entrants@.len() - i,
    {
        let entrant = &entrants[i];
        let standing = match find_standing(standings, &entrant.entrant_id) {
            Some(standing) => standing,
            None => {
                return Err(
                    TournamentApplicationError::UnknownEntrantInRound { entrant_id: entrant.entrant_id.duplicate() },
                );
            },
        };
        if standing.matches_won > 65535 {
            return Err(TournamentApplicationError::StandingOverflow { component: "pairing match wins" });
        }
        if standing.bye_count > 65535 {
            return Err(TournamentApplicationError::StandingOverflow { component: "pairing bye count" });
        }
        let matches_won = standing.matches_won as u16;
        let bye_count = standing.bye_count as u16;
        assert(matches_won == standing.matches_won);
        assert(bye_count == standing.bye_count);
        let ghost before = result@;
        result.push(
            PairingEntrant {
                entrant_id: entrant.entrant_id.duplicate(),
                club_id: entrant.club_id.duplicate(),
                starting_elo: entrant.starting_elo,
                performance_score: standing.performance_score,
                matches_won,
                opponent_score_sum: standing.opponent_score_sum,
                bye_count,
            },
        );
        proof {
            assert(standing_of(standings@, entrants@[i as int].entrant_id@) == Some(*standing));
            assert(pairing_entrant_for(entrants@[i as int], *standing, result@[i as int]));
            assert(entry_built(standings@, entrants@[i as int], result@[i as int]));
            assert forall|j: int| 0 <= j < i + 1 implies entry_built(standings@, entrants@[j], #[trigger] result@[j]) by {
                if j < i {
                    assert(result@[j] == before[j]);
                }
            }
        }
        i = i + 1;
    }
    Ok(result)
}

/// The snapshot the pairing policy works on: each active entrant with its
/// standing's performance, wins, opponent strength and byes, and every
/// earlier match between two active entrants.
pub fn build_pairing_request(
    entrants: &[TournamentEntrant],
    standings: &[ContestantStanding],
    completed_rounds: &[CompletedRound],
    round_number: RoundNumber,
    policy: PairingPolicy,
) -> (outcome: Result<PairingSnapshot, TournamentApplicationError>)
    ensures
        outcome matches Ok(snapshot) ==> match snapshot {
            PairingSnapshot::BlossomV1(request) => policy == PairingPolicy::BlossomV1(request.policy)
                && request.round_number == round_number && request_parts_match(
                entrants@,
                standings@,
                completed_rounds@,
                request.entrants@,
                request.previous_matches@,
            ),
            PairingSnapshot::BlossomV2(request) => policy == PairingPolicy::BlossomV2(request.policy)
                && request.round_number == round_number && request_parts_match(
                entrants@,
                standings@,
                completed_rounds@,
                request.entrants@,
                request.previous_matches@,
            ),
        },
        outcome matches Err(e) ==> e is UnknownEntrantInRound || e is StandingOverflow,
        outcome is Ok <==> standings_pairable(entrants@, standings@),
        outcome matches Ok(snapshot) ==> snapshot_built(
            snapshot,
            entrants@,
            standings@,
            completed_rounds@,
            round_number.spec_value() as int,
            policy,
        ),
{
    let pairing = pairing_entrants(entrants, standings)?;
    let previous_matches = previous_matches_among(entrants, completed_rounds);
    match policy {
        PairingPolicy::BlossomV1(policy) => Ok(
            PairingSnapshot::BlossomV1(
                blossom_v1::PairingRequest { round_number, entrants: pairing, previous_matches, policy },
            ),
        ),
        PairingPolicy::BlossomV2(policy) => Ok(
            PairingSnapshot::BlossomV2(
                blossom_v2::PairingRequest { round_number, entrants: pairing, previous_matches, policy },
            ),
        ),
    }
}

} // verus!
