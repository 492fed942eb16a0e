//! The round lifecycle: preview a pairing, publish it, enter results and
//! complete the round.
use vstd::prelude::*;

use crate::identity::{EntrantId, MatchId, lemma_text_le_transitive, lemma_text_order_antisymmetric, text_le};
use crate::pairing::algorithms::blossom_v1::{PairingProposal, RoundNumber, proposal_copied};
use crate::pairing::algorithms::{PairingPolicy, PairingSnapshot, proposal_for_snapshot, propose_pairings};
use crate::pairing::{
    MatchPublication, TableAssignmentEntrant, TableAssignmentError, assign_tables, listed, publish_scheduled_matches, ranks_before, tables_assigned,
};
use crate::results::{
    GameScore, MatchFormat, MatchResult, away_wins, games_well_formed, home_wins, match_decided_by_last_game,
    validate_and_complete_match,
};
use crate::scheduling::{MatchPublicationStatus, RoundActivity, ScheduledMatch};
use crate::table::TableNumber;
use crate::text::{decimal, decimal_text};
use vstd::string::StringExecFns;

use super::pairing_snapshot::{build_pairing_request, law_request_remembers_every_earlier_meeting, lists_entrant, snapshot_built, snapshot_history};
use super::standings::{calculate_standings, history_consistent, replay_fits, standing_replays, standings_replayed};
use super::entrant::same_entrant;
use super::tournament::{PendingPairing, copies_roster};
use super::{ActiveRound, CompletedRound, TournamentApplication, TournamentApplicationError, TournamentEntrant};

verus! {

/// The first match still waiting for a table takes the released table.
pub open spec fn table_released_to_first_waiting(
    before: Seq<ScheduledMatch>,
    after: Seq<ScheduledMatch>,
    table: TableNumber,
) -> bool {
    &&& after.len() == before.len()
    &&& forall|i: int| 0 <= i < before.len() ==> {
        &&& (#[trigger] after[i]).match_id@ == before[i].match_id@
        &&& after[i].home_entrant_id@ == before[i].home_entrant_id@
        &&& after[i].away_entrant_id@ == before[i].away_entrant_id@
        &&& after[i].publication_status == before[i].publication_status
        &&& after[i].round_activity == before[i].round_activity
        &&& after[i].spec_table_number() == if before[i].spec_table_number() is None && forall|j: int|
            0 <= j < i ==> (#[trigger] before[j]).spec_table_number() is Some {
            Some(table)
        } else {
            before[i].spec_table_number()
        }
    }
}

/// The id of the match at `position` (counted from one) of a round.
pub open spec fn match_id_text(tournament_id: Seq<char>, round: int, position: int) -> Seq<char> {
    tournament_id + "-round-"@ + decimal_text(round as u64) + "-match-"@ + decimal_text(position as u64)
}

/// An id is listed in the table snapshot exactly when an entrant has it.
proof fn lemma_listed_iff_known(
    snapshot: Seq<TableAssignmentEntrant>,
    entrants: Seq<TournamentEntrant>,
    id: Seq<char>,
)
    requires
        snapshot.len() == entrants.len(),
        forall|k: int| 0 <= k < snapshot.len() ==> (#[trigger] snapshot[k]).entrant_id@ == entrants[k].entrant_id@,
    ensures
        listed(snapshot, id) == exists|i: int| 0 <= i < entrants.len() && (#[trigger] entrants[i]).entrant_id@ == id,
{
    if listed(snapshot, id) {
        let i = choose|i: int| 0 <= i < snapshot.len() && (#[trigger] snapshot[i]).entrant_id@ == id;
        assert(entrants[i].entrant_id@ == id);
    }
    if exists|i: int| 0 <= i < entrants.len() && (#[trigger] entrants[i]).entrant_id@ == id {
        let i = choose|i: int| 0 <= i < entrants.len() && (#[trigger] entrants[i]).entrant_id@ == id;
        assert(snapshot[i].entrant_id@ == id);
    }
}

/// No two registered entrants share an id.
pub open spec fn entrant_ids_distinct(entrants: Seq<TournamentEntrant>) -> bool {
    forall|i: int, j: int| 0 <= i < j < entrants.len() ==> (#[trigger] entrants[i]).entrant_id@
        != (#[trigger] entrants[j]).entrant_id@
}

/// Some pairing of the proposal names the entrant.
pub open spec fn proposal_names(proposal: PairingProposal, id: Seq<char>) -> bool {
    exists|i: int| 0 <= i < proposal.matches@.len() && ((#[trigger] proposal.matches@[i]).first_entrant_id@ == id
        || proposal.matches@[i].second_entrant_id@ == id)
}

/// Pairing `i` of the round's proposal was published as a match of the
/// round with the id of its position, the first entrant at home.
pub open spec fn pairing_published(round: ActiveRound, tournament_id: Seq<char>, i: int) -> bool {
    exists|j: int|
        0 <= j < round.scheduled_matches@.len() && {
            let scheduled = #[trigger] round.scheduled_matches@[j];
            &&& scheduled.match_id@ == match_id_text(tournament_id, round.round_number.spec_value() as int, i + 1)
            &&& scheduled.home_entrant_id@ == round.proposal.matches@[i].first_entrant_id@
            &&& scheduled.away_entrant_id@ == round.proposal.matches@[i].second_entrant_id@
            &&& scheduled.publication_status == MatchPublicationStatus::Published
            &&& scheduled.round_activity == RoundActivity::Active
        }
}

/// The snapshot lists the id and starting ELO of each entrant, in order.
pub open spec fn elo_snapshot_of(snapshot: Seq<TableAssignmentEntrant>, entrants: Seq<TournamentEntrant>) -> bool {
    &&& snapshot.len() == entrants.len()
    &&& forall|k: int| 0 <= k < snapshot.len() ==> (#[trigger] snapshot[k]).entrant_id@ == entrants[k].entrant_id@
        && snapshot[k].starting_elo == entrants[k].starting_elo
}

/// Some result of the list is for the match `id`.
pub open spec fn has_result_for(results: Seq<MatchResult>, id: Seq<char>) -> bool {
    exists|i: int| 0 <= i < results.len() && (#[trigger] results[i]).spec_match_id() == id
}

/// Both results record the same match, games, wins, winner and revision.
pub open spec fn same_result(a: MatchResult, b: MatchResult) -> bool {
    &&& a.spec_match_id() == b.spec_match_id()
    &&& a.spec_games() == b.spec_games()
    &&& a.spec_home_games_won() == b.spec_home_games_won()
    &&& a.spec_away_games_won() == b.spec_away_games_won()
    &&& a.spec_winner_id() == b.spec_winner_id()
    &&& a.spec_revision() == b.spec_revision()
}

/// Position `i` holds the first match of the list with the id `id`.
pub open spec fn first_match_with_id(matches: Seq<ScheduledMatch>, id: Seq<char>, i: int) -> bool {
    &&& 0 <= i < matches.len()
    &&& matches[i].match_id@ == id
    &&& forall|j: int| 0 <= j < i ==> (#[trigger] matches[j]).match_id@ != id
}

/// The results are ordered by the text of their match ids.
pub open spec fn results_in_match_order(results: Seq<MatchResult>) -> bool {
    forall|i: int, j: int|
        0 <= i < j < results.len() ==> text_le(#[trigger] results[i].spec_match_id(), #[trigger] results[j].spec_match_id())
}

/// The games complete the published, active match under the format.
pub open spec fn result_accepted(scheduled: ScheduledMatch, format: MatchFormat, games: Seq<GameScore>) -> bool {
    &&& scheduled.publication_status == MatchPublicationStatus::Published
    &&& scheduled.round_activity == RoundActivity::Active
    &&& games_well_formed(games)
    &&& match_decided_by_last_game(games, format)
}

proof fn lemma_first_match_unique(matches: Seq<ScheduledMatch>, id: Seq<char>, p: int)
    requires
        first_match_with_id(matches, id, p),
    ensures
        forall|i: int| #[trigger] first_match_with_id(matches, id, i) ==> i == p,
{
    assert forall|i: int| #[trigger] first_match_with_id(matches, id, i) implies i == p by {
        if i < p {
            assert(matches[i].match_id@ != id);
        } else if i > p {
            assert(matches[p].match_id@ != id);
        }
    }
}

/// The pairing preview of a running tournament remembers its history: when
/// the preview's request is built from the active roster, the standings
/// and the completed rounds, as `calculate_pairings` promises, every match
/// that two active entrants played in a completed round is in the
/// request's rematch history with its round.
pub proof fn law_preview_remembers_every_earlier_meeting(
    application: TournamentApplication,
    snapshot: PairingSnapshot,
    policy: PairingPolicy,
    r: int,
    m: int,
)
    requires
        exists|active: Seq<TournamentEntrant>|
            #[trigger] copies_roster(active, application.active_roster()) && snapshot_built(
                snapshot,
                active,
                application.spec_standings(),
                application.spec_completed_rounds(),
                application.spec_completed_rounds().len() + 1int,
                policy,
            ),
        0 <= r < application.spec_completed_rounds().len(),
        0 <= m < application.spec_completed_rounds()[r].scheduled_matches@.len(),
        lists_entrant(
            application.active_roster(),
            application.spec_completed_rounds()[r].scheduled_matches@[m].home_entrant_id@,
        ),
        lists_entrant(
            application.active_roster(),
            application.spec_completed_rounds()[r].scheduled_matches@[m].away_entrant_id@,
        ),
    ensures
        snapshot_history(snapshot).contains(
            (
                application.spec_completed_rounds()[r].scheduled_matches@[m].home_entrant_id@,
                application.spec_completed_rounds()[r].scheduled_matches@[m].away_entrant_id@,
                application.spec_completed_rounds()[r].round_number.spec_value(),
            ),
        ),
{
    let roster = application.active_roster();
    let active = choose|active: Seq<TournamentEntrant>|
        #[trigger] copies_roster(active, roster) && snapshot_built(
            snapshot,
            active,
            application.spec_standings(),
            application.spec_completed_rounds(),
            application.spec_completed_rounds().len() + 1int,
            policy,
        );
    let scheduled = application.spec_completed_rounds()[r].scheduled_matches@[m];
    let h = choose|i: int| 0 <= i < roster.len() && (#[trigger] roster[i]).entrant_id@ == scheduled.home_entrant_id@;
    let a = choose|i: int| 0 <= i < roster.len() && (#[trigger] roster[i]).entrant_id@ == scheduled.away_entrant_id@;
    assert(same_entrant(active[h], roster[h]));
    assert(same_entrant(active[a], roster[a]));
    assert(lists_entrant(active, scheduled.home_entrant_id@));
    assert(lists_entrant(active, scheduled.away_entrant_id@));
    law_request_remembers_every_earlier_meeting(
        snapshot,
        active,
        application.spec_standings(),
        application.spec_completed_rounds(),
        application.spec_completed_rounds().len() + 1int,
        policy,
        r,
        m,
    );
}

impl TournamentApplication {
    /// Calculates and stores an unpublished preview. Recalculation safely
    /// replaces an older preview because no match identifiers exist yet.
    pub fn calculate_pairings(&mut self, policy: PairingPolicy) -> (outcome: Result<
        PairingProposal,
        TournamentApplicationError,
    >)
        ensures
            !old(self).started() ==> (outcome matches Err(e) && e is TournamentNotStarted),
            old(self).started() && old(self).spec_active_round() is Some ==> (outcome matches Err(e)
                && e is ActiveRoundExists),
            old(self).started() && old(self).spec_active_round() is None && old(self).spec_completed_rounds().len()
                >= old(self).spec_tournament().spec_maximum_round_count().spec_value() ==> (outcome matches Err(e)
                && e matches TournamentApplicationError::MaximumRoundsCompleted { maximum_round_count }
                && maximum_round_count == old(self).spec_tournament().spec_maximum_round_count().spec_value()),
            outcome matches Ok(proposal) ==> {
                &&& old(self).started()
                &&& old(self).spec_active_round() is None
                &&& old(self).spec_completed_rounds().len() < old(self).spec_tournament().spec_maximum_round_count().spec_value()
                &&& final(self).spec_pending_proposal() matches Some(stored) && stored.matches@.len()
                    == proposal.matches@.len() && stored.bye is Some == proposal.bye is Some
                    && stored.total_cost == proposal.total_cost && stored.policy_version == proposal.policy_version
                &&& match policy {
                    PairingPolicy::BlossomV1(_) => proposal.policy_version
                        == crate::pairing::algorithms::blossom_v1::PairingPolicyVersion::BlossomV1,
                    PairingPolicy::BlossomV2(_) => proposal.policy_version
                        == crate::pairing::algorithms::blossom_v1::PairingPolicyVersion::BlossomV2,
                }
            },
            final(self).spec_entrants() == old(self).spec_entrants(),
            final(self).spec_completed_rounds() == old(self).spec_completed_rounds(),
            final(self).spec_active_round() == old(self).spec_active_round(),
            final(self).spec_standings() == old(self).spec_standings(),
            final(self).spec_tournament() == old(self).spec_tournament(),
            outcome is Ok ==> match (final(self).spec_pending_request(), final(self).spec_pending_proposal()) {
                (Some(snapshot), Some(stored)) => {
                    &&& proposal_for_snapshot(snapshot, stored)
                    &&& outcome matches Ok(returned) && proposal_copied(returned, stored)
                    &&& exists|active: Seq<TournamentEntrant>|
                        #[trigger] copies_roster(active, old(self).active_roster()) && snapshot_built(
                            snapshot,
                            active,
                            old(self).spec_standings(),
                            old(self).spec_completed_rounds(),
                            old(self).spec_completed_rounds().len() + 1int,
                            policy,
                        )
                },
                _ => false,
            },
    {
        self.ensure_started()?;
        if self.active_round.is_some() {
            return Err(TournamentApplicationError::ActiveRoundExists);
        }
        let maximum_round_count = self.tournament.maximum_round_count().value();
        if self.completed_rounds.len() >= maximum_round_count as usize {
            return Err(TournamentApplicationError::MaximumRoundsCompleted { maximum_round_count });
        }
        let active_entrants = self.active_entrants();
        let round_number = self.next_round_number()?;
        let request = build_pairing_request(
            active_entrants.as_slice(),
            self.standings.as_slice(),
            self.completed_rounds.as_slice(),
            round_number,
            policy,
        )?;
        let proposal = match propose_pairings(&request) {
            Ok(proposal) => proposal,
            Err(error) => return Err(TournamentApplicationError::Pairing(error)),
        };
        proof {
            match request {
                PairingSnapshot::BlossomV1(_) => {},
                PairingSnapshot::BlossomV2(_) => {},
            }
        }
        let copy = proposal.duplicate();
        proof {
            assert(copies_roster(active_entrants@, self.active_roster()));
        }
        self.pending_pairing = Some(PendingPairing { request, proposal });
        Ok(copy)
    }

    /// Publishes the preview as the next round: one match per pairing with
    /// an id from the tournament, round and position, tables assigned by
    /// ELO, and the bye recorded.
    #[verifier::loop_isolation(false)]
    pub fn publish_pairings(&mut self) -> (outcome: Result<&ActiveRound, TournamentApplicationError>)
        ensures
            !old(self).started() ==> (outcome matches Err(e) && e is TournamentNotStarted),
            old(self).started() && old(self).spec_active_round() is Some ==> (outcome matches Err(e)
                && e is ActiveRoundExists),
            old(self).started() && old(self).spec_active_round() is None && old(self).spec_pending_proposal() is None
                ==> (outcome matches Err(e) && e is NoPairingPreview),
            outcome matches Ok(round) ==> {
                &&& old(self).spec_pending_proposal() matches Some(proposal) && {
                    &&& round.scheduled_matches@.len() == proposal.matches@.len()
                    &&& round.proposal == proposal
                    &&& (round.bye is Some <==> proposal.bye is Some)
                }
                &&& round.results@.len() == 0
                &&& round.round_number.spec_value() == old(self).spec_completed_rounds().len() + 1
                &&& final(self).spec_active_round() == Some(*round)
                &&& final(self).spec_pending_proposal() is None
                &&& tables_assigned(old(self).spec_tournament().spec_table_count().spec_value(), round.scheduled_matches@)
                &&& forall|i: int| 0 <= i < round.proposal.matches@.len() ==> #[trigger] pairing_published(
                    *round,
                    old(self).spec_tournament().spec_id(),
                    i,
                )
                &&& exists|snapshot: Seq<TableAssignmentEntrant>| {
                    &&& #[trigger] elo_snapshot_of(snapshot, old(self).spec_entrants())
                    &&& forall|a: int, b: int| 0 <= a < b < round.scheduled_matches@.len() ==> !ranks_before(
                        snapshot,
                        #[trigger] round.scheduled_matches@[b],
                        #[trigger] round.scheduled_matches@[a],
                    )
                }
            },
            old(self).started() && old(self).spec_active_round() is None && old(self).spec_pending_proposal() is Some
                ==> (outcome matches Err(e) && e is RoundNumberOverflow <==> old(self).spec_completed_rounds().len()
                >= 65535),
            old(self).started() && old(self).spec_active_round() is None && old(self).spec_completed_rounds().len()
                < 65535 && entrant_ids_distinct(old(self).spec_entrants()) && (old(self).spec_pending_proposal() matches Some(
                proposal) && forall|id: Seq<char>| #[trigger] proposal_names(proposal, id) ==> old(self).knows(id))
                ==> outcome is Ok,
            outcome matches Err(TournamentApplicationError::TableAssignment(TableAssignmentError::DuplicateEntrant {
                entrant_id,
            })) ==> exists|i: int, j: int|
                0 <= i < j < old(self).spec_entrants().len() && (#[trigger] old(self).spec_entrants()[i]).entrant_id@
                    == entrant_id@ && (#[trigger] old(self).spec_entrants()[j]).entrant_id@ == entrant_id@,
            outcome matches Err(TournamentApplicationError::TableAssignment(
                TableAssignmentError::MissingEntrantSnapshot { entrant_id },
            )) ==> !old(self).knows(entrant_id@) && (old(self).spec_pending_proposal() matches Some(proposal)
                && proposal_names(proposal, entrant_id@)),
            outcome matches Err(e) ==> e is TournamentNotStarted || e is ActiveRoundExists || e is NoPairingPreview
                || e is RoundNumberOverflow || e is TableAssignment,
            outcome matches Ok(round) ==> (round.bye matches Some(id) ==> (old(self).spec_pending_proposal() matches Some(
                proposal) && proposal.bye matches Some(b) && id@ == b.entrant_id@)),
            final(self).spec_entrants() == old(self).spec_entrants(),
            final(self).spec_completed_rounds() == old(self).spec_completed_rounds(),
            final(self).spec_tournament() == old(self).spec_tournament(),
    {
        self.ensure_started()?;
        if self.active_round.is_some() {
            return Err(TournamentApplicationError::ActiveRoundExists);
        }
        let pending = match self.pending_pairing.take() {
            Some(pending) => pending,
            None => return Err(TournamentApplicationError::NoPairingPreview),
        };
        let PendingPairing { request, proposal } = pending;
        let round_number = self.next_round_number()?;
        let mut publications: Vec<MatchPublication> = Vec::new();
        let mut index: usize = 0;
        while index < proposal.matches.len()
            invariant
                index <= proposal.matches@.len(),
                publications@.len() == index,
                forall|k: int| 0 <= k < index ==> {
                    &&& (#[trigger] publications@[k]).match_id@ == match_id_text(
                        self.spec_tournament().spec_id(),
                        round_number.spec_value() as int,
                        k + 1,
                    )
                    &&& publications@[k].first_entrant_id@ == proposal.matches@[k].first_entrant_id@
                    &&& publications@[k].second_entrant_id@ == proposal.matches@[k].second_entrant_id@
                },
            decreases proposal.matches@.len() - index,
        {
            let pairing = &proposal.matches[index];
            publications.push(
                MatchPublication {
                    match_id: self.match_id(round_number, index),
                    first_entrant_id: pairing.first_entrant_id.duplicate(),
                    second_entrant_id: pairing.second_entrant_id.duplicate(),
                },
            );
            index = index + 1;
        }
        let ghost publication_view = publications@;
        let published = publish_scheduled_matches(publications, RoundActivity::Active);
        let mut table_entrants: Vec<TableAssignmentEntrant> = Vec::new();
        let mut i: usize = 0;
        while i < self.entrants.len()
            invariant
                i <= self.entrants@.len(),
                table_entrants@.len() == i,
                forall|k: int| 0 <= k < i ==> (#[trigger] table_entrants@[k]).entrant_id@ == self.entrants@[k].entrant_id@
                    && table_entrants@[k].starting_elo == self.entrants@[k].starting_elo,
            decreases self.entrants@.len() - i,
        {
            table_entrants.push(
                TableAssignmentEntrant {
                    entrant_id: self.entrants[i].entrant_id.duplicate(),
                    starting_elo: self.entrants[i].starting_elo,
                },
            );
            i = i + 1;
        }
        let ghost published_view = published@;
        let ghost proposal_view = proposal;
        proof {
            assert forall|k: int| 0 <= k < published_view.len() implies listed(
                table_entrants@,
                (#[trigger] published_view[k]).home_entrant_id@,
            ) == self.knows(published_view[k].home_entrant_id@) && listed(
                table_entrants@,
                published_view[k].away_entrant_id@,
            ) == self.knows(published_view[k].away_entrant_id@) && proposal_names(
                proposal,
                published_view[k].home_entrant_id@,
            ) && proposal_names(proposal, published_view[k].away_entrant_id@) by {
                assert(published_view[k].home_entrant_id@ == publication_view[k].first_entrant_id@);
                assert(published_view[k].away_entrant_id@ == publication_view[k].second_entrant_id@);
                assert(publication_view[k].first_entrant_id@ == proposal.matches@[k].first_entrant_id@);
                assert(publication_view[k].second_entrant_id@ == proposal.matches@[k].second_entrant_id@);
                assert(proposal_names(proposal, published_view[k].home_entrant_id@));
                assert(proposal_names(proposal, published_view[k].away_entrant_id@));
                lemma_listed_iff_known(table_entrants@, self.entrants@, published_view[k].home_entrant_id@);
                lemma_listed_iff_known(table_entrants@, self.entrants@, published_view[k].away_entrant_id@);
                assert(self.spec_entrants() == self.entrants@);
            }
        }
        proof {
            if entrant_ids_distinct(self.entrants@) {
                assert forall|a: int, b: int| 0 <= a < b < table_entrants@.len() implies (
                #[trigger] table_entrants@[a]).entrant_id@ != (#[trigger] table_entrants@[b]).entrant_id@ by {
                    assert(self.entrants@[a].entrant_id@ != self.entrants@[b].entrant_id@);
                }
            }
        }
        let scheduled_matches = match assign_tables(self.tournament.table_count(), published, table_entrants.as_slice()) {
            Ok(scheduled) => scheduled,
            Err(error) => {
                proof {
                    if error is DuplicateEntrant {
                        let entrant_id = error->DuplicateEntrant_entrant_id;
                        let (a, b) = choose|a: int, b: int|
                            0 <= a < b < table_entrants@.len() && (#[trigger] table_entrants@[a]).entrant_id@
                                == entrant_id@ && (#[trigger] table_entrants@[b]).entrant_id@ == entrant_id@;
                        assert(old(self).spec_entrants() == self.entrants@);
                        assert(old(self).spec_entrants()[a].entrant_id@ == entrant_id@);
                        assert(old(self).spec_entrants()[b].entrant_id@ == entrant_id@);
                    }
                }
                proof {
                    if error is MissingEntrantSnapshot {
                        let entrant_id = error->MissingEntrantSnapshot_entrant_id;
                        lemma_listed_iff_known(table_entrants@, self.entrants@, entrant_id@);
                        let k = choose|k: int| 0 <= k < published_view.len() && ((#[trigger] published_view[k]).home_entrant_id@
                            == entrant_id@ || published_view[k].away_entrant_id@ == entrant_id@);
                        assert(proposal_names(proposal, published_view[k].home_entrant_id@));
                        assert(proposal_names(proposal, published_view[k].away_entrant_id@));
                    }
                    if entrant_ids_distinct(self.entrants@) && (forall|id: Seq<char>| #[trigger] proposal_names(proposal, id)
                        ==> self.knows(id)) {
                        assert forall|k: int| 0 <= k < published_view.len() implies listed(
                            table_entrants@,
                            (#[trigger] published_view[k]).home_entrant_id@,
                        ) && listed(table_entrants@, published_view[k].away_entrant_id@) by {
                            assert(proposal_names(proposal, published_view[k].home_entrant_id@));
                            assert(proposal_names(proposal, published_view[k].away_entrant_id@));
                        }
                        assert(false);
                    }
                }
                return Err(TournamentApplicationError::TableAssignment(error));
            },
        };
        let ghost scheduled_view = scheduled_matches@;
        proof {
            assert(elo_snapshot_of(table_entrants@, self.entrants@));
            assert forall|i: int| 0 <= i < proposal.matches@.len() implies exists|j: int|
                0 <= j < scheduled_matches@.len() && {
                    let scheduled = #[trigger] scheduled_matches@[j];
                    &&& scheduled.match_id@ == match_id_text(
                        self.spec_tournament().spec_id(),
                        round_number.spec_value() as int,
                        i + 1,
                    )
                    &&& scheduled.home_entrant_id@ == (#[trigger] proposal.matches@[i]).first_entrant_id@
                    &&& scheduled.away_entrant_id@ == proposal.matches@[i].second_entrant_id@
                    &&& scheduled.publication_status == MatchPublicationStatus::Published
                    &&& scheduled.round_activity == RoundActivity::Active
                } by {
                assert(published_view[i].match_id@ == publication_view[i].match_id@);
                let j = choose|j: int| 0 <= j < scheduled_matches@.len()
                    && (#[trigger] scheduled_matches@[j]).match_id@ == published_view[i].match_id@
                    && scheduled_matches@[j].home_entrant_id@ == published_view[i].home_entrant_id@
                    && scheduled_matches@[j].away_entrant_id@ == published_view[i].away_entrant_id@
                    && scheduled_matches@[j].publication_status == published_view[i].publication_status
                    && scheduled_matches@[j].round_activity == published_view[i].round_activity;
                assert(scheduled_matches@[j].match_id@ == match_id_text(
                        self.spec_tournament().spec_id(),
                        round_number.spec_value() as int,
                        i + 1,
                    ));
            }
        }
        let bye = match &proposal.bye {
            Some(bye) => Some(bye.entrant_id.duplicate()),
            None => None,
        };
        self.active_round = Some(
            ActiveRound { round_number, pairing_request: request, proposal, scheduled_matches, results: Vec::new(), bye },
        );
        let round = match &self.active_round {
            Some(round) => round,
            None => return Err(TournamentApplicationError::NoActiveRound),
        };
        proof {
            assert(elo_snapshot_of(table_entrants@, old(self).spec_entrants()));
            assert forall|i: int| 0 <= i < round.proposal.matches@.len() implies #[trigger] pairing_published(
                *round,
                old(self).spec_tournament().spec_id(),
                i,
            ) by {
                assert(round.proposal.matches@[i] == proposal_view.matches@[i]);
                assert(round.scheduled_matches@ == scheduled_view);
            }
        }
        Ok(round)
    }

    /// Records the result of a match at a table in the active round; its
    /// table goes to the first match still waiting for one. A refused result
    /// leaves the tournament as it was.
    #[verifier::loop_isolation(false)]
    pub fn enter_match_result(&mut self, match_id: &MatchId, games: Vec<GameScore>) -> (outcome: Result<
        MatchResult,
        TournamentApplicationError,
    >)
        ensures
            old(self).spec_active_round() is None ==> (outcome matches Err(e) && e is NoActiveRound),
            old(self).spec_active_round() matches Some(before) ==> {
                &&& has_result_for(before.results@, match_id@) ==> (outcome matches Err(e)
                    && e matches TournamentApplicationError::ResultAlreadyEntered { match_id: m } && m@ == match_id@)
                &&& !has_result_for(before.results@, match_id@) && (forall|i: int|
                    0 <= i < before.scheduled_matches@.len() ==> (#[trigger] before.scheduled_matches@[i]).match_id@
                        != match_id@) ==> (outcome matches Err(e)
                    && e matches TournamentApplicationError::UnknownMatch { match_id: m } && m@ == match_id@)
                &&& forall|i: int| #[trigger] first_match_with_id(before.scheduled_matches@, match_id@, i)
                    && !has_result_for(before.results@, match_id@) ==> {
                    &&& before.scheduled_matches@[i].spec_table_number() is None ==> (outcome matches Err(e)
                        && e matches TournamentApplicationError::MatchAwaitingTable { match_id: m } && m@ == match_id@)
                    &&& before.scheduled_matches@[i].spec_table_number() is Some ==> {
                        &&& (outcome is Ok <==> result_accepted(
                            before.scheduled_matches@[i],
                            old(self).spec_tournament().spec_match_format(),
                            games@,
                        ))
                        &&& outcome is Err ==> (outcome matches Err(e) && e is MatchResult)
                    }
                }
            },
            outcome is Err ==> *final(self) == *old(self),
            outcome matches Ok(result) ==> {
                &&& old(self).spec_active_round() matches Some(before) && final(self).spec_active_round() matches Some(after) && {
                    &&& !has_result_for(before.results@, match_id@)
                    &&& exists|p: int| 0 <= p < after.results@.len() && same_result(#[trigger] after.results@[p], result)
                        && after.results@.remove(p) == before.results@
                    &&& results_in_match_order(before.results@) ==> results_in_match_order(after.results@)
                    &&& exists|i: int| #[trigger] first_match_with_id(before.scheduled_matches@, match_id@, i)
                        && (before.scheduled_matches@[i].spec_table_number() matches Some(table)
                        && table_released_to_first_waiting(before.scheduled_matches@, after.scheduled_matches@, table))
                        && result.spec_winner_id() == if games@.last().home_won() {
                            before.scheduled_matches@[i].home_entrant_id@
                        } else {
                            before.scheduled_matches@[i].away_entrant_id@
                        }
                    &&& after.round_number == before.round_number
                    &&& after.bye == before.bye
                    &&& after.proposal == before.proposal
                }
                &&& result.spec_match_id() == match_id@
                &&& result.spec_games() == games@
                &&& result.spec_home_games_won() == home_wins(games@, games@.len() as int)
                &&& result.spec_away_games_won() == away_wins(games@, games@.len() as int)
                &&& result.spec_revision() == 1
                &&& final(self).spec_pending_proposal() == old(self).spec_pending_proposal()
                &&& final(self).spec_tournament() == old(self).spec_tournament()
            },
            final(self).spec_entrants() == old(self).spec_entrants(),
            final(self).spec_completed_rounds() == old(self).spec_completed_rounds(),
            final(self).spec_standings() == old(self).spec_standings(),
    {
        let match_format = self.tournament.match_format();
        let ghost before_self = *self;
        let mut round = match self.active_round.take() {
            Some(round) => round,
            None => return Err(TournamentApplicationError::NoActiveRound),
        };
        let ghost original = round;
        let ghost taken = *self;
        let mut r: usize = 0;
        while r < round.results.len()
            invariant
                r <= round.results@.len(),
                round == original,
                forall|i: int| 0 <= i < r ==> (#[trigger] round.results@[i]).spec_match_id() != match_id@,
                *self == taken,
            decreases round.results@.len() - r,
        {
            if round.results[r].match_id().same_as(match_id) {
                let error = TournamentApplicationError::ResultAlreadyEntered { match_id: match_id.duplicate() };
                self.active_round = Some(round);
                proof {
                    assert(*self == before_self);
                }
                return Err(error);
            }
            r = r + 1;
        }
        let mut found: Option<usize> = None;
        let mut s: usize = 0;
        while s < round.scheduled_matches.len()
            invariant
                s <= round.scheduled_matches@.len(),
                round == original,
                found matches Some(f) ==> first_match_with_id(round.scheduled_matches@, match_id@, f as int),
                found is None ==> forall|j: int| 0 <= j < s ==> (#[trigger] round.scheduled_matches@[j]).match_id@ != match_id@,
                *self == taken,
            decreases round.scheduled_matches@.len() - s,
        {
            if found.is_none() && round.scheduled_matches[s].match_id.same_as(match_id) {
                found = Some(s);
            }
            s = s + 1;
        }
        let position = match found {
            Some(position) => position,
            None => {
                let error = TournamentApplicationError::UnknownMatch { match_id: match_id.duplicate() };
                self.active_round = Some(round);
                proof {
                    assert(*self == before_self);
                }
                return Err(error);
            },
        };
        proof {
            lemma_first_match_unique(round.scheduled_matches@, match_id@, position as int);
        }
        let released_table = match round.scheduled_matches[position].table_number() {
            Some(table) => table,
            None => {
                let error = TournamentApplicationError::MatchAwaitingTable { match_id: match_id.duplicate() };
                self.active_round = Some(round);
                proof {
                    assert(*self == before_self);
                }
                return Err(error);
            },
        };
        let result = match validate_and_complete_match(&round.scheduled_matches[position], match_format, games) {
            Ok(result) => result,
            Err(error) => {
                self.active_round = Some(round);
                proof {
                    assert(*self == before_self);
                }
                return Err(TournamentApplicationError::MatchResult(error));
            },
        };
        let copy = result.duplicate();
        let ghost stored = result;
        let ghost results_before = round.results@;
        insert_result_by_match_id(&mut round.results, result);
        let ghost p = choose|p: int| 0 <= p <= results_before.len() && round.results@ == results_before.insert(p, stored);
        proof {
            assert(round.results@[p] == stored);
            assert(round.results@.remove(p) =~= results_before);
            assert(same_result(round.results@[p], copy));
            assert(!has_result_for(results_before, match_id@));
        }
        let released = release_table(&round.scheduled_matches, released_table);
        round.scheduled_matches = released;
        self.active_round = Some(round);
        proof {
            let after = self.active_round.unwrap();
            assert(results_before == original.results@);
            assert(same_result(after.results@[p], copy));
            assert(first_match_with_id(original.scheduled_matches@, match_id@, position as int));
        }
        Ok(copy)
    }

    /// Completes the active round once every match has a result: its
    /// matches become inactive, it joins the history and the standings are
    /// replayed.
    pub fn complete_round(&mut self) -> (outcome: Result<&CompletedRound, TournamentApplicationError>)
        ensures
            old(self).spec_active_round() is None ==> (outcome matches Err(e) && e is NoActiveRound),
            old(self).spec_active_round() matches Some(round) ==> (round.results@.len() < round.scheduled_matches@.len()
                ==> (outcome matches Err(e) && e matches TournamentApplicationError::RoundIncomplete { missing_result_count }
                && missing_result_count == round.scheduled_matches@.len() - round.results@.len()
                && *final(self) == *old(self))),
            outcome matches Ok(completed) ==> {
                &&& old(self).spec_active_round() matches Some(round) && {
                    &&& completed.round_number == round.round_number
                    &&& completed.results@ == round.results@
                    &&& completed.bye == round.bye
                    &&& completed.scheduled_matches@.len() == round.scheduled_matches@.len()
                    &&& forall|i: int| 0 <= i < round.scheduled_matches@.len() ==> (#[trigger] completed.scheduled_matches@[i]).round_activity
                        == RoundActivity::Inactive
                }
                &&& final(self).spec_active_round() is None
                &&& final(self).spec_completed_rounds() == old(self).spec_completed_rounds().push(*completed)
                &&& forall|i: int| 0 <= i < final(self).spec_standings().len() ==> standing_replays(
                    final(self).spec_entrants(),
                    final(self).spec_completed_rounds(),
                    #[trigger] final(self).spec_standings()[i],
                )
                &&& standings_replayed(
                    final(self).spec_entrants(),
                    final(self).spec_completed_rounds(),
                    final(self).spec_standings(),
                )
                &&& old(self).spec_active_round() matches Some(round) && {
                    &&& completed.pairing_request == round.pairing_request
                    &&& completed.proposal == round.proposal
                    &&& forall|i: int| 0 <= i < round.scheduled_matches@.len() ==> (#[trigger] completed.scheduled_matches@[i]).match_id@
                        == round.scheduled_matches@[i].match_id@
                }
            },
            outcome matches Err(e) && (e is InvalidRoundHistory || e is UnknownEntrantInRound) ==> !history_consistent(
                final(self).spec_entrants(),
                final(self).spec_completed_rounds(),
            ),
            (old(self).spec_active_round() matches Some(round) && round.results@.len() >= round.scheduled_matches@.len())
                && history_consistent(final(self).spec_entrants(), final(self).spec_completed_rounds()) && replay_fits(
                final(self).spec_entrants(),
                final(self).spec_completed_rounds(),
            ) ==> outcome is Ok,
            final(self).spec_entrants() == old(self).spec_entrants(),
            final(self).spec_tournament() == old(self).spec_tournament(),
    {
        let missing_result_count = match &self.active_round {
            Some(round) => if round.scheduled_matches.len() > round.results.len() {
                round.scheduled_matches.len() - round.results.len()
            } else {
                0
            },
            None => return Err(TournamentApplicationError::NoActiveRound),
        };
        if missing_result_count != 0 {
            return Err(TournamentApplicationError::RoundIncomplete { missing_result_count });
        }
        let round = match self.active_round.take() {
            Some(round) => round,
            None => return Err(TournamentApplicationError::NoActiveRound),
        };
        let ActiveRound { round_number, pairing_request, proposal, scheduled_matches, results, bye } = round;
        let scheduled_matches = deactivate(scheduled_matches);
        self.completed_rounds.push(
            CompletedRound { round_number, pairing_request, proposal, scheduled_matches, results, bye },
        );
        self.standings = calculate_standings(self.entrants.as_slice(), self.completed_rounds.as_slice())?;
        let last = self.completed_rounds.len() - 1;
        Ok(&self.completed_rounds[last])
    }

    /// The number of the round after the completed ones.
    fn next_round_number(&self) -> (outcome: Result<RoundNumber, TournamentApplicationError>)
        ensures
            outcome matches Ok(number) ==> number.spec_value() == self.spec_completed_rounds().len() + 1,
            outcome matches Err(e) ==> e is RoundNumberOverflow,
            outcome is Err <==> self.spec_completed_rounds().len() >= 65535,
    {
        let count = self.completed_rounds.len();
        if count >= 65535 {
            return Err(TournamentApplicationError::RoundNumberOverflow);
        }
        match RoundNumber::try_from((count + 1) as i64) {
            Ok(number) => Ok(number),
            Err(_) => Err(TournamentApplicationError::RoundNumberOverflow),
        }
    }

    /// `<tournament id>-round-<round>-match-<position + 1>`.
    fn match_id(&self, round_number: RoundNumber, index: usize) -> (id: MatchId)
        requires
            index < u64::MAX,
        ensures
            id@ == match_id_text(self.spec_tournament().spec_id(), round_number.spec_value() as int, index + 1),
    {
        let mut text = String::from_str(self.tournament.id().as_str());
        text.append("-round-");
        let round_text = decimal(round_number.value() as u64);
        text.append(round_text.as_str());
        text.append("-match-");
        let position_text = decimal(index as u64 + 1);
        text.append(position_text.as_str());
        MatchId::from_string(text)
    }
}

/// The matches, every one inactive.
fn deactivate(matches: Vec<ScheduledMatch>) -> (inactive: Vec<ScheduledMatch>)
    ensures
        inactive@.len() == matches@.len(),
        forall|i: int| 0 <= i < matches@.len() ==> (#[trigger] inactive@[i]).round_activity == RoundActivity::Inactive
            && inactive@[i].match_id@ == matches@[i].match_id@,
{
    let ghost all = matches@;
    let mut inactive: Vec<ScheduledMatch> = Vec::new();
    for scheduled in iter: matches.into_iter()
        invariant
            iter.seq() == all,
            inactive@.len() == iter.index(),
            forall|i: int| 0 <= i < inactive@.len() ==> (#[trigger] inactive@[i]).round_activity == RoundActivity::Inactive
                && inactive@[i].match_id@ == all[i].match_id@,
    {
        let ghost k = iter.index() as int;
        proof {
            assert(all[k] == scheduled);
        }
        let mut changed = scheduled;
        changed.round_activity = RoundActivity::Inactive;
        inactive.push(changed);
    }
    inactive
}

/// Inserts the result after every result whose match id does not sort
/// after it, so that results kept in match order stay in it.
fn insert_result_by_match_id(results: &mut Vec<MatchResult>, result: MatchResult)
    ensures
        exists|p: int| 0 <= p <= old(results)@.len() && final(results)@ == old(results)@.insert(p, result),
        results_in_match_order(old(results)@) ==> results_in_match_order(final(results)@),
{
    let mut position: usize = 0;
    while position < results.len() && results[position].match_id().compare(result.match_id()) <= 0
        invariant
            position <= results@.len(),
            forall|k: int| 0 <= k < position ==> text_le(#[trigger] results@[k].spec_match_id(), result.spec_match_id()),
        decreases results@.len() - position,
    {
        position = position + 1;
    }
    let ghost before = results@;
    let ghost item = result;
    let ghost p = position as int;
    proof {
        if p < before.len() {
            lemma_text_order_antisymmetric(before[p].spec_match_id(), item.spec_match_id());
        }
    }
    results.insert(position, result);
    proof {
        assert(results@ == before.insert(p, item));
        if results_in_match_order(before) {
            assert forall|i: int, j: int| 0 <= i < j < results@.len() implies text_le(
                #[trigger] results@[i].spec_match_id(),
                #[trigger] results@[j].spec_match_id(),
            ) by {
                if j < p {
                    assert(results@[i] == before[i] && results@[j] == before[j]);
                } else if j == p {
                    assert(results@[i] == before[i]);
                } else if i == p {
                    assert(results@[j] == before[j - 1]);
                    if j - 1 > p {
                        assert(text_le(before[p].spec_match_id(), before[j - 1].spec_match_id()));
                        lemma_text_le_transitive(
                            item.spec_match_id(),
                            before[p].spec_match_id(),
                            before[j - 1].spec_match_id(),
                        );
                    }
                } else if i < p {
                    assert(results@[i] == before[i] && results@[j] == before[j - 1]);
                } else {
                    assert(results@[i] == before[i - 1] && results@[j] == before[j - 1]);
                }
            }
        }
    }
}

/// The matches with the released table given to the first one waiting.
fn release_table(matches: &Vec<ScheduledMatch>, table: TableNumber) -> (released: Vec<ScheduledMatch>)
    ensures
        table_released_to_first_waiting(matches@, released@, table),
{
    let mut released: Vec<ScheduledMatch> = Vec::new();
    let mut given = false;
    let mut i: usize = 0;
    while i < matches.len()
        invariant
            i <= matches@.len(),
            released@.len() == i,
            given == exists|j: int| 0 <= j < i && (#[trigger] matches@[j]).spec_table_number() is None,
            forall|k: int| 0 <= k < i ==> {
                &&& (#[trigger] released@[k]).match_id@ == matches@[k].match_id@
                &&& released@[k].home_entrant_id@ == matches@[k].home_entrant_id@
                &&& released@[k].away_entrant_id@ == matches@[k].away_entrant_id@
                &&& released@[k].publication_status == matches@[k].publication_status
                &&& released@[k].round_activity == matches@[k].round_activity
                &&& released@[k].spec_table_number() == if matches@[k].spec_table_number() is None && forall|j: int|
                    0 <= j < k ==> (#[trigger] matches@[j]).spec_table_number() is Some {
                    Some(table)
                } else {
                    matches@[k].spec_table_number()
                }
            },
        decreases matches@.len() - i,
    {
        let copy = matches[i].duplicate();
        if !given && matches[i].table_number().is_none() {
            released.push(copy.with_table_number(Some(table)));
            given = true;
        } else {
            released.push(copy);
        }
        i = i + 1;
    }
    released
}

} // verus!
