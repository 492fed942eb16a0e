//! The tournament as the application holds it: roster, rounds, standings
//! and the pairing preview.
use vstd::prelude::*;

use crate::identity::{EntrantId, lemma_text_le_transitive, lemma_text_order_antisymmetric, text_le};
use crate::pairing::algorithms::PairingSnapshot;
use crate::pairing::algorithms::blossom_v1::{PairingProposal, lemma_filter_push};
use crate::tournament::{Tournament, TournamentState};

use super::standings::{calculate_standings, history_consistent, replay_fits, standing_replays, standings_replayed};
use super::{ActiveRound, CompletedRound, ContestantStanding, TournamentApplicationError, TournamentEntrant};
use super::entrant::same_entrant;

verus! {

pub struct TournamentApplication {
    pub tournament: Tournament,
    pub entrants: Vec<TournamentEntrant>,
    pub standings: Vec<ContestantStanding>,
    pub completed_rounds: Vec<CompletedRound>,
    pub active_round: Option<ActiveRound>,
    pub pending_pairing: Option<PendingPairing>,
    pub active_entrant_ids: Vec<EntrantId>,
}

/// A calculated, unpublished pairing and the snapshot it was made from.
pub struct PendingPairing {
    pub request: PairingSnapshot,
    pub proposal: PairingProposal,
}

/// The entrants are ordered by strictly ascending id.
pub open spec fn entrants_ordered(entrants: Seq<TournamentEntrant>) -> bool {
    forall|i: int, j: int| 0 <= i < j < entrants.len() ==> crate::identity::text_lt(
        (#[trigger] entrants[i]).entrant_id@,
        (#[trigger] entrants[j]).entrant_id@,
    )
}

/// The id views of a list of identifiers.
pub open spec fn id_views(ids: Seq<EntrantId>) -> Seq<Seq<char>> {
    ids.map_values(|id: EntrantId| id@)
}

/// The roster holds a record with the same contents as `entrant`.
pub open spec fn has_same_entrant(entrants: Seq<TournamentEntrant>, entrant: TournamentEntrant) -> bool {
    exists|k: int| 0 <= k < entrants.len() && #[trigger] same_entrant(entrants[k], entrant)
}

/// One of the replacements carries the entrant's id.
pub open spec fn replaced(replacements: Seq<TournamentEntrant>, entrant: TournamentEntrant) -> bool {
    exists|j: int| 0 <= j < replacements.len() && (#[trigger] replacements[j]).entrant_id@ == entrant.entrant_id@
}

/// The entrant's id is among the ids.
pub open spec fn active_in(ids: Seq<Seq<char>>) -> spec_fn(TournamentEntrant) -> bool {
    |entrant: TournamentEntrant| ids.contains(entrant.entrant_id@)
}

/// `copy` holds, position by position, records with the same contents as
/// `roster`.
pub open spec fn copies_roster(copy: Seq<TournamentEntrant>, roster: Seq<TournamentEntrant>) -> bool {
    &&& copy.len() == roster.len()
    &&& forall|i: int| 0 <= i < roster.len() ==> same_entrant(#[trigger] copy[i], roster[i])
}

/// The id differs from `id`.
pub open spec fn other_than(id: Seq<char>) -> spec_fn(Seq<char>) -> bool {
    |other: Seq<char>| other != id
}

/// Withdrawing an entrant a second time leaves the active ids as the first
/// withdrawal left them.
pub proof fn law_withdrawal_is_idempotent(active_ids: Seq<Seq<char>>, id: Seq<char>)
    ensures
        active_ids.filter(other_than(id)).filter(other_than(id)) == active_ids.filter(other_than(id)),
    decreases active_ids.len(),
{
    if active_ids.len() > 0 {
        let rest = active_ids.drop_last();
        let last = active_ids.last();
        assert(rest.push(last) =~= active_ids);
        law_withdrawal_is_idempotent(rest, id);
        lemma_filter_push(rest, last, other_than(id));
        if (other_than(id))(last) {
            lemma_filter_push(rest.filter(other_than(id)), last, other_than(id));
        }
    }
}

impl TournamentApplication {
    pub open spec fn spec_tournament(&self) -> Tournament {
        self.tournament
    }

    pub open spec fn spec_entrants(&self) -> Seq<TournamentEntrant> {
        self.entrants@
    }

    pub open spec fn spec_standings(&self) -> Seq<ContestantStanding> {
        self.standings@
    }

    pub open spec fn spec_completed_rounds(&self) -> Seq<CompletedRound> {
        self.completed_rounds@
    }

    pub open spec fn spec_active_round(&self) -> Option<ActiveRound> {
        self.active_round
    }

    /// The request of the pairing preview, if there is one.
    pub open spec fn spec_pending_request(&self) -> Option<PairingSnapshot> {
        match self.pending_pairing {
            Some(pending) => Some(pending.request),
            None => None,
        }
    }

    /// The registered entrants that are active, in roster order.
    pub open spec fn active_roster(&self) -> Seq<TournamentEntrant> {
        self.spec_entrants().filter(active_in(self.spec_active_ids()))
    }

    pub open spec fn spec_pending_proposal(&self) -> Option<PairingProposal> {
        match self.pending_pairing {
            Some(pending) => Some(pending.proposal),
            None => None,
        }
    }

    /// The ids of the active entrants.
    pub open spec fn spec_active_ids(&self) -> Seq<Seq<char>> {
        id_views(self.active_entrant_ids@)
    }

    /// The entrant is registered.
    pub open spec fn knows(&self, id: Seq<char>) -> bool {
        exists|i: int| 0 <= i < self.spec_entrants().len() && (#[trigger] self.spec_entrants()[i]).entrant_id@ == id
    }

    /// The tournament has started.
    pub open spec fn started(&self) -> bool {
        self.spec_tournament().spec_state() == TournamentState::Started
    }

    /// An empty application around the tournament.
    pub fn new(tournament: Tournament) -> (application: Self)
        ensures
            application.spec_tournament() == tournament,
            application.spec_entrants().len() == 0,
            application.spec_standings().len() == 0,
            application.spec_completed_rounds().len() == 0,
            application.spec_active_round() is None,
            application.spec_pending_proposal() is None,
            application.spec_active_ids().len() == 0,
    {
        TournamentApplication {
            tournament,
            entrants: Vec::new(),
            standings: Vec::new(),
            completed_rounds: Vec::new(),
            active_round: None,
            pending_pairing: None,
            active_entrant_ids: Vec::new(),
        }
    }

    pub fn tournament(&self) -> (tournament: &Tournament)
        ensures
            *tournament == self.spec_tournament(),
    {
        &self.tournament
    }

    pub fn entrants(&self) -> (entrants: &[TournamentEntrant])
        ensures
            entrants@ == self.spec_entrants(),
    {
        self.entrants.as_slice()
    }

    /// Copies of the active entrants, in roster order.
    pub fn active_entrants(&self) -> (active: Vec<TournamentEntrant>)
        ensures
            copies_roster(active@, self.active_roster()),
            active@.len() <= self.spec_entrants().len(),
            forall|i: int| 0 <= i < active@.len() ==> self.spec_active_ids().contains((#[trigger] active@[i]).entrant_id@),
            forall|i: int| 0 <= i < self.spec_entrants().len() && self.spec_active_ids().contains(
                (#[trigger] self.spec_entrants()[i]).entrant_id@,
            ) ==> exists|k: int| 0 <= k < active@.len() && active@[k].entrant_id@ == self.spec_entrants()[i].entrant_id@,
    {
        let mut active: Vec<TournamentEntrant> = Vec::new();
        let mut i: usize = 0;
        while i < self.entrants.len()
            invariant
                i <= self.entrants@.len(),
                active@.len() <= i,
                forall|k: int| 0 <= k < active@.len() ==> id_views(self.active_entrant_ids@).contains(
                    (#[trigger] active@[k]).entrant_id@,
                ),
                forall|j: int| 0 <= j < i && id_views(self.active_entrant_ids@).contains(
                    (#[trigger] self.entrants@[j]).entrant_id@,
                ) ==> exists|k: int| 0 <= k < active@.len() && active@[k].entrant_id@ == self.entrants@[j].entrant_id@,
                copies_roster(active@, self.entrants@.subrange(0, i as int).filter(active_in(self.spec_active_ids()))),
            decreases self.entrants@.len() - i,
        {
            proof {
                assert(self.entrants@.subrange(0, i + 1) =~= self.entrants@.subrange(0, i as int).push(self.entrants@[i as int]));
                lemma_filter_push(
                    self.entrants@.subrange(0, i as int),
                    self.entrants@[i as int],
                    active_in(self.spec_active_ids()),
                );
            }
            if self.is_entrant_active(&self.entrants[i].entrant_id) {
                let ghost before = active@;
                active.push(self.entrants[i].duplicate());
                proof {
                    assert(same_entrant(active@[before.len() as int], self.entrants@[i as int]));
                    assert(active@[before.len() as int].entrant_id@ == self.entrants@[i as int].entrant_id@);
                    assert forall|j: int| 0 <= j < i + 1 && id_views(self.active_entrant_ids@).contains(
                        (#[trigger] self.entrants@[j]).entrant_id@,
                    ) implies exists|k: int| 0 <= k < active@.len() && active@[k].entrant_id@ == self.entrants@[j].entrant_id@ by {
                        if j < i {
                            let k = choose|k: int| 0 <= k < before.len() && before[k].entrant_id@ == self.entrants@[j].entrant_id@;
                            assert(active@[k] == before[k]);
                        } else {
                            assert(active@[before.len() as int].entrant_id@ == self.entrants@[j].entrant_id@);
                        }
                    }
                }
            }
            i = i + 1;
        }
        proof {
            assert(self.entrants@.subrange(0, self.entrants@.len() as int) =~= self.entrants@);
        }
        active
    }

    /// Whether the entrant takes part in future pairings.
    pub fn is_entrant_active(&self, entrant_id: &EntrantId) -> (active: bool)
        ensures
            active == self.spec_active_ids().contains(entrant_id@),
    {
        let mut i: usize = 0;
        while i < self.active_entrant_ids.len()
            invariant
                i <= self.active_entrant_ids@.len(),
                forall|j: int| 0 <= j < i ==> (#[trigger] self.active_entrant_ids@[j])@ != entrant_id@,
            decreases self.active_entrant_ids@.len() - i,
        {
            if self.active_entrant_ids[i].same_as(entrant_id) {
                proof {
                    assert(id_views(self.active_entrant_ids@)[i as int] == entrant_id@);
                }
                return true;
            }
            i = i + 1;
        }
        proof {
            assert forall|j: int| 0 <= j < id_views(self.active_entrant_ids@).len() implies id_views(
                self.active_entrant_ids@,
            )[j] != entrant_id@ by {
                assert(self.active_entrant_ids@[j]@ != entrant_id@);
            }
        }
        false
    }

    pub fn standings(&self) -> (standings: &[ContestantStanding])
        ensures
            standings@ == self.spec_standings(),
    {
        self.standings.as_slice()
    }

    pub fn active_round(&self) -> (round: Option<&ActiveRound>)
        ensures
            match round {
                Some(r) => self.spec_active_round() == Some(*r),
                None => self.spec_active_round() is None,
            },
    {
        match &self.active_round {
            Some(round) => Some(round),
            None => None,
        }
    }

    pub fn completed_rounds(&self) -> (rounds: &[CompletedRound])
        ensures
            rounds@ == self.spec_completed_rounds(),
    {
        self.completed_rounds.as_slice()
    }

    pub fn pending_pairing(&self) -> (proposal: Option<&PairingProposal>)
        ensures
            match proposal {
                Some(p) => self.spec_pending_proposal() == Some(*p),
                None => self.spec_pending_proposal() is None,
            },
    {
        match &self.pending_pairing {
            Some(pending) => Some(&pending.proposal),
            None => None,
        }
    }

    /// Whether a registered entrant carries the id.
    fn find_entrant(&self, entrant_id: &EntrantId) -> (index: Option<usize>)
        ensures
            index matches Some(i) ==> i < self.spec_entrants().len() && self.spec_entrants()[i as int].entrant_id@
                == entrant_id@,
            index is None ==> !self.knows(entrant_id@),
    {
        let mut i: usize = 0;
        while i < self.entrants.len()
            invariant
                i <= self.entrants@.len(),
                forall|j: int| 0 <= j < i ==> (#[trigger] self.entrants@[j]).entrant_id@ != entrant_id@,
            decreases self.entrants@.len() - i,
        {
            if self.entrants[i].entrant_id.same_as(entrant_id) {
                return Some(i);
            }
            i = i + 1;
        }
        None
    }

    /// Registers a new entrant as active, keeps the roster ordered by id and
    /// drops the pairing preview; a started tournament recalculates the
    /// standings. An id that is already registered is refused.
    pub fn register_entrant(&mut self, entrant: TournamentEntrant) -> (outcome: Result<(), TournamentApplicationError>)
        ensures
            old(self).knows(entrant.entrant_id@) ==> (outcome matches Err(e) && e matches TournamentApplicationError::DuplicateEntrant { entrant_id } && entrant_id@ == entrant.entrant_id@),
            !old(self).knows(entrant.entrant_id@) && (!old(self).started() || old(self).spec_completed_rounds().len() == 0)
                ==> outcome is Ok,
            outcome is Ok ==> {
                &&& !old(self).knows(entrant.entrant_id@)
                &&& final(self).knows(entrant.entrant_id@)
                &&& final(self).spec_entrants().len() == old(self).spec_entrants().len() + 1
                &&& forall|i: int| 0 <= i < old(self).spec_entrants().len() ==> final(self).knows(
                    (#[trigger] old(self).spec_entrants()[i]).entrant_id@,
                )
                &&& final(self).spec_active_ids() == old(self).spec_active_ids().push(entrant.entrant_id@)
                &&& final(self).spec_entrants().contains(entrant)
                &&& forall|i: int| 0 <= i < old(self).spec_entrants().len() ==> has_same_entrant(
                    final(self).spec_entrants(),
                    #[trigger] old(self).spec_entrants()[i],
                )
                &&& final(self).spec_pending_proposal() is None
                &&& final(self).spec_completed_rounds() == old(self).spec_completed_rounds()
                &&& final(self).spec_active_round() == old(self).spec_active_round()
                &&& final(self).spec_tournament() == old(self).spec_tournament()
            },
            outcome is Err ==> *final(self) == *old(self),
            old(self).started() && outcome is Ok ==> forall|i: int| 0 <= i < final(self).spec_standings().len() ==> standing_replays(
                final(self).spec_entrants(),
                final(self).spec_completed_rounds(),
                #[trigger] final(self).spec_standings()[i],
            ),
            old(self).started() && outcome is Ok ==> standings_replayed(
                final(self).spec_entrants(),
                final(self).spec_completed_rounds(),
                final(self).spec_standings(),
            ),
            outcome is Ok ==> forall|i: int, j: int| 0 <= i < j < final(self).spec_entrants().len() ==> crate::identity::text_le(
                (#[trigger] final(self).spec_entrants()[i]).entrant_id@,
                (#[trigger] final(self).spec_entrants()[j]).entrant_id@,
            ),
    {
        match self.find_entrant(&entrant.entrant_id) {
            Some(_) => {
                return Err(TournamentApplicationError::DuplicateEntrant { entrant_id: entrant.entrant_id });
            },
            None => {},
        }
        let entrant_id = entrant.entrant_id.duplicate();
        let mut entrants = copy_entrants(&self.entrants);
        let ghost new_id = entrant.entrant_id@;
        entrants.push(entrant);
        let ghost unsorted = entrants@;
        let ghost previous = self.entrants@;
        let entrants = sort_entrants(entrants);
        let standings = self.standings_for_roster(&entrants)?;
        self.entrants = entrants;
        let ghost before = self.active_entrant_ids@;
        self.active_entrant_ids.push(entrant_id);
        proof {
            assert(id_views(self.active_entrant_ids@) =~= id_views(before).push(new_id));
        }
        self.standings = standings;
        self.pending_pairing = None;
        proof {
            let n = unsorted.len() - 1;
            assert(unsorted[n].entrant_id@ == new_id);
            assert(unsorted[n] == entrant);
            assert(self.entrants@.contains(unsorted[n]));
            let k = choose|k: int| 0 <= k < self.entrants@.len() && self.entrants@[k] == unsorted[n];
            assert(self.spec_entrants()[k].entrant_id@ == new_id);
            assert forall|i: int| 0 <= i < previous.len() implies self.knows((#[trigger] previous[i]).entrant_id@) by {
                assert(unsorted[i].entrant_id@ == previous[i].entrant_id@);
                assert(self.entrants@.contains(unsorted[i]));
                let k = choose|k: int| 0 <= k < self.entrants@.len() && self.entrants@[k] == unsorted[i];
                assert(self.spec_entrants()[k].entrant_id@ == previous[i].entrant_id@);
            }
            assert forall|i: int| 0 <= i < previous.len() implies has_same_entrant(
                self.spec_entrants(),
                #[trigger] previous[i],
            ) by {
                assert(same_entrant(unsorted[i], previous[i]));
                assert(self.entrants@.contains(unsorted[i]));
                let k = choose|k: int| 0 <= k < self.entrants@.len() && self.entrants@[k] == unsorted[i];
                assert(same_entrant(self.spec_entrants()[k], previous[i]));
            }
        }
        Ok(())
    }

    /// Replaces the registered entrant with the same id and drops the pairing
    /// preview; a started tournament recalculates the standings.
    pub fn update_entrant(&mut self, replacement: TournamentEntrant) -> (outcome: Result<(), TournamentApplicationError>)
        ensures
            !old(self).knows(replacement.entrant_id@) ==> (outcome matches Err(e) && e matches TournamentApplicationError::UnknownEntrantInRound { entrant_id } && entrant_id@ == replacement.entrant_id@),
            old(self).knows(replacement.entrant_id@) && (!old(self).started() || old(self).spec_completed_rounds().len()
                == 0) ==> outcome is Ok,
            outcome is Ok ==> {
                &&& final(self).spec_entrants().len() == old(self).spec_entrants().len()
                &&& exists|i: int| 0 <= i < final(self).spec_entrants().len() && final(self).spec_entrants()[i]
                    == replacement
                &&& final(self).spec_active_ids() == old(self).spec_active_ids()
                &&& final(self).spec_pending_proposal() is None
                &&& final(self).spec_completed_rounds() == old(self).spec_completed_rounds()
                &&& final(self).spec_active_round() == old(self).spec_active_round()
            },
            outcome is Err ==> *final(self) == *old(self),
            old(self).started() && outcome is Ok ==> forall|i: int| 0 <= i < final(self).spec_standings().len() ==> standing_replays(
                final(self).spec_entrants(),
                final(self).spec_completed_rounds(),
                #[trigger] final(self).spec_standings()[i],
            ),
            old(self).started() && outcome is Ok ==> standings_replayed(
                final(self).spec_entrants(),
                final(self).spec_completed_rounds(),
                final(self).spec_standings(),
            ),
    {
        let index = match self.find_entrant(&replacement.entrant_id) {
            Some(index) => index,
            None => {
                return Err(TournamentApplicationError::UnknownEntrantInRound { entrant_id: replacement.entrant_id });
            },
        };
        let mut entrants = copy_entrants(&self.entrants);
        let ghost kept = replacement;
        entrants.set(index, replacement);
        let standings = self.standings_for_roster(&entrants)?;
        self.entrants = entrants;
        self.standings = standings;
        self.pending_pairing = None;
        proof {
            assert(self.spec_entrants()[index as int] == kept);
        }
        Ok(())
    }

    /// Makes exactly the given entrants active: each is registered, or
    /// replaces the registered entrant with its id; the roster stays ordered
    /// by id and the pairing preview is dropped. An id given twice is refused.
    pub fn replace_active_roster(&mut self, replacements: Vec<TournamentEntrant>) -> (outcome: Result<
        (),
        TournamentApplicationError,
    >)
        ensures
            outcome is Ok ==> {
                &&& final(self).spec_active_ids().len() == replacements@.len()
                &&& forall|i: int| 0 <= i < replacements@.len() ==> final(self).spec_active_ids()[i]
                    == (#[trigger] replacements@[i]).entrant_id@
                &&& final(self).spec_pending_proposal() is None
                &&& final(self).spec_completed_rounds() == old(self).spec_completed_rounds()
                &&& final(self).spec_active_round() == old(self).spec_active_round()
                &&& forall|j: int| 0 <= j < replacements@.len() ==> final(self).spec_entrants().contains(
                    #[trigger] replacements@[j],
                )
                &&& forall|i: int| 0 <= i < old(self).spec_entrants().len() ==> replaced(
                    replacements@,
                    #[trigger] old(self).spec_entrants()[i],
                ) || has_same_entrant(final(self).spec_entrants(), old(self).spec_entrants()[i])
            },
            outcome matches Err(e) ==> e is DuplicateEntrant || e is InvalidRoundHistory || e is UnknownEntrantInRound
                || e is StandingOverflow,
            outcome matches Err(TournamentApplicationError::DuplicateEntrant { entrant_id }) ==> exists|i: int, j: int|
                0 <= i < j < replacements@.len() && (#[trigger] replacements@[i]).entrant_id@ == entrant_id@
                    && (#[trigger] replacements@[j]).entrant_id@ == entrant_id@,
            (!old(self).started() || old(self).spec_completed_rounds().len() == 0) && (forall|i: int, j: int| 0 <= i < j < replacements@.len() ==> (
            #[trigger] replacements@[i]).entrant_id@ != (#[trigger] replacements@[j]).entrant_id@) ==> outcome is Ok,
            outcome is Err ==> *final(self) == *old(self),
            old(self).started() && outcome is Ok ==> forall|i: int| 0 <= i < final(self).spec_standings().len() ==> standing_replays(
                final(self).spec_entrants(),
                final(self).spec_completed_rounds(),
                #[trigger] final(self).spec_standings()[i],
            ),
            old(self).started() && outcome is Ok ==> standings_replayed(
                final(self).spec_entrants(),
                final(self).spec_completed_rounds(),
                final(self).spec_standings(),
            ),
            outcome is Ok ==> forall|i: int, j: int| 0 <= i < j < final(self).spec_entrants().len() ==> crate::identity::text_le(
                (#[trigger] final(self).spec_entrants()[i]).entrant_id@,
                (#[trigger] final(self).spec_entrants()[j]).entrant_id@,
            ),
    {
        let ghost given = replacements@;
        let ghost previous = self.entrants@;
        let mut active_entrant_ids: Vec<EntrantId> = Vec::new();
        let mut entrants = copy_entrants(&self.entrants);
        proof {
            assert forall|i: int| 0 <= i < previous.len() implies has_same_entrant(entrants@, #[trigger] previous[i]) by {
                assert(same_entrant(entrants@[i], previous[i]));
            }
        }
        for replacement in iter: replacements.into_iter()
            invariant
                iter.seq() == given,
                previous == self.entrants@,
                active_entrant_ids@.len() == iter.index(),
                forall|i: int| 0 <= i < iter.index() ==> (#[trigger] active_entrant_ids@[i])@ == given[i].entrant_id@,
                forall|j: int| 0 <= j < iter.index() ==> entrants@.contains(#[trigger] given[j]),
                forall|i: int| 0 <= i < previous.len() ==> replaced(
                    given.subrange(0, iter.index() as int),
                    #[trigger] previous[i],
                ) || has_same_entrant(entrants@, previous[i]),
        {
            let ghost position = iter.index() as int;
            proof {
                assert(given[position] == replacement);
            }
            if contains_id(&active_entrant_ids, &replacement.entrant_id) {
                proof {
                    let i = choose|i: int| 0 <= i < active_entrant_ids@.len() && (#[trigger] active_entrant_ids@[i])@
                        == replacement.entrant_id@;
                    assert(given[i].entrant_id@ == replacement.entrant_id@);
                    assert(given[position].entrant_id@ == replacement.entrant_id@);
                }
                return Err(TournamentApplicationError::DuplicateEntrant { entrant_id: replacement.entrant_id });
            }
            active_entrant_ids.push(replacement.entrant_id.duplicate());
            let ghost before = entrants@;
            let ghost done = given.subrange(0, position);
            match index_of(&entrants, &replacement.entrant_id) {
                Some(index) => {
                    entrants.set(index, replacement);
                    proof {
                        assert(entrants@[index as int] == replacement);
                    }
                },
                None => {
                    entrants.push(replacement);
                    proof {
                        assert(entrants@[before.len() as int] == replacement);
                    }
                },
            }
            proof {
                assert(given.subrange(0, position + 1) =~= done.push(replacement));
                assert(entrants@.contains(replacement));
                assert forall|j: int| 0 <= j < position + 1 implies entrants@.contains(#[trigger] given[j]) by {
                    if j < position {
                        assert(before.contains(given[j]));
                        let p = choose|p: int| 0 <= p < before.len() && before[p] == given[j];
                        if p < entrants@.len() && entrants@[p] != before[p] {
                            assert(before[p].entrant_id@ == replacement.entrant_id@);
                            assert(active_entrant_ids@[j]@ == given[j].entrant_id@);
                        }
                        assert(entrants@[p] == given[j]);
                    }
                }
                assert forall|i: int| 0 <= i < previous.len() implies replaced(
                    given.subrange(0, position + 1),
                    #[trigger] previous[i],
                ) || has_same_entrant(entrants@, previous[i]) by {
                    if replaced(done, previous[i]) {
                        let j = choose|j: int| 0 <= j < done.len() && (#[trigger] done[j]).entrant_id@ == previous[i].entrant_id@;
                        assert(given.subrange(0, position + 1)[j] == done[j]);
                    } else {
                        let k = choose|k: int| 0 <= k < before.len() && #[trigger] same_entrant(before[k], previous[i]);
                        if k < entrants@.len() && entrants@[k] != before[k] {
                            assert(given.subrange(0, position + 1)[position] == replacement);
                        } else {
                            assert(same_entrant(entrants@[k], previous[i]));
                        }
                    }
                }
            }
        }
        proof {
            assert(given.subrange(0, given.len() as int) =~= given);
        }
        let ghost unsorted = entrants@;
        let entrants = sort_entrants(entrants);
        proof {
            assert forall|j: int| 0 <= j < given.len() implies entrants@.contains(#[trigger] given[j]) by {
                let p = choose|p: int| 0 <= p < unsorted.len() && unsorted[p] == given[j];
                assert(entrants@.contains(unsorted[p]));
            }
            assert forall|i: int| 0 <= i < previous.len() implies replaced(given, #[trigger] previous[i])
                || has_same_entrant(entrants@, previous[i]) by {
                if !replaced(given, previous[i]) {
                    let k = choose|k: int| 0 <= k < unsorted.len() && #[trigger] same_entrant(unsorted[k], previous[i]);
                    assert(entrants@.contains(unsorted[k]));
                    let q = choose|q: int| 0 <= q < entrants@.len() && entrants@[q] == unsorted[k];
                    assert(same_entrant(entrants@[q], previous[i]));
                }
            }
        }
        let standings = self.standings_for_roster(&entrants)?;
        self.entrants = entrants;
        self.active_entrant_ids = active_entrant_ids;
        self.standings = standings;
        self.pending_pairing = None;
        Ok(())
    }

    /// Takes the entrant out of future pairings; its history stays.
    pub fn withdraw_entrant(&mut self, entrant_id: &EntrantId) -> (outcome: Result<(), TournamentApplicationError>)
        ensures
            !old(self).knows(entrant_id@) ==> (outcome matches Err(e) && e matches TournamentApplicationError::UnknownEntrantInRound { entrant_id: id } && id@ == entrant_id@),
            old(self).knows(entrant_id@) ==> outcome is Ok,
            outcome is Ok ==> {
                &&& !final(self).spec_active_ids().contains(entrant_id@)
                &&& forall|i: int| 0 <= i < old(self).spec_active_ids().len() && old(self).spec_active_ids()[i] != entrant_id@
                    ==> final(self).spec_active_ids().contains(#[trigger] old(self).spec_active_ids()[i])
                &&& final(self).spec_entrants() == old(self).spec_entrants()
                &&& final(self).spec_standings() == old(self).spec_standings()
                &&& final(self).spec_pending_proposal() is None
                &&& final(self).spec_active_ids() == old(self).spec_active_ids().filter(other_than(entrant_id@))
                &&& final(self).spec_completed_rounds() == old(self).spec_completed_rounds()
                &&& final(self).spec_active_round() == old(self).spec_active_round()
                &&& final(self).spec_tournament() == old(self).spec_tournament()
            },
            outcome is Err ==> *final(self) == *old(self),
    {
        match self.find_entrant(entrant_id) {
            Some(_) => {},
            None => {
                return Err(TournamentApplicationError::UnknownEntrantInRound { entrant_id: entrant_id.duplicate() });
            },
        }
        let ghost before = self.active_entrant_ids@;
        let mut kept: Vec<EntrantId> = Vec::new();
        let mut i: usize = 0;
        while i < self.active_entrant_ids.len()
            invariant
                i <= self.active_entrant_ids@.len(),
                self.active_entrant_ids@ == before,
                forall|k: int| 0 <= k < kept@.len() ==> (#[trigger] kept@[k])@ != entrant_id@,
                forall|j: int| 0 <= j < i && before[j]@ != entrant_id@ ==> id_views(kept@).contains(#[trigger] id_views(before)[j]),
                id_views(kept@) == id_views(before.subrange(0, i as int)).filter(other_than(entrant_id@)),
            decreases self.active_entrant_ids@.len() - i,
        {
            proof {
                assert(id_views(before.subrange(0, i + 1)) =~= id_views(before.subrange(0, i as int)).push(before[i as int]@));
                lemma_filter_push(id_views(before.subrange(0, i as int)), before[i as int]@, other_than(entrant_id@));
            }
            if !self.active_entrant_ids[i].same_as(entrant_id) {
                let ghost previous = kept@;
                kept.push(self.active_entrant_ids[i].duplicate());
                proof {
                    assert(id_views(kept@) =~= id_views(previous).push(before[i as int]@));
                    assert forall|j: int| 0 <= j < i + 1 && before[j]@ != entrant_id@ implies id_views(kept@).contains(
                        #[trigger] id_views(before)[j],
                    ) by {
                        if j < i {
                            let t = choose|t: int| 0 <= t < id_views(previous).len() && id_views(previous)[t] == id_views(before)[j];
                            assert(id_views(kept@)[t] == id_views(previous)[t]);
                        } else {
                            assert(id_views(kept@)[previous.len() as int] == id_views(before)[j]);
                        }
                    }
                }
            }
            i = i + 1;
        }
        proof {
            assert forall|t: int| 0 <= t < id_views(kept@).len() implies id_views(kept@)[t] != entrant_id@ by {
                assert(kept@[t]@ != entrant_id@);
            }
            assert(before.subrange(0, before.len() as int) =~= before);
        }
        self.active_entrant_ids = kept;
        self.pending_pairing = None;
        Ok(())
    }

    /// Starts the tournament with at least two active entrants and computes
    /// the standings.
    pub fn start_tournament(&mut self) -> (outcome: Result<(), TournamentApplicationError>)
        ensures
            old(self).spec_active_ids().len() < 2 ==> (outcome matches Err(e) && e matches TournamentApplicationError::NotEnoughEntrants { entrant_count } && entrant_count == old(self).spec_active_ids().len()),
            old(self).spec_active_ids().len() >= 2 && old(self).started() ==> (outcome matches Err(e) && e matches TournamentApplicationError::Tournament(inner) && inner == crate::tournament::TournamentError::AlreadyStarted),
            old(self).spec_active_ids().len() >= 2 && !old(self).started() && old(self).spec_completed_rounds().len() == 0
                ==> outcome is Ok,
            old(self).spec_active_ids().len() >= 2 && !old(self).started() && history_consistent(
                old(self).spec_entrants(),
                old(self).spec_completed_rounds(),
            ) && replay_fits(old(self).spec_entrants(), old(self).spec_completed_rounds()) ==> outcome is Ok,
            outcome is Ok ==> {
                &&& final(self).started()
                &&& !old(self).started()
                &&& final(self).spec_entrants() == old(self).spec_entrants()
                &&& final(self).spec_completed_rounds() == old(self).spec_completed_rounds()
                &&& forall|i: int| 0 <= i < final(self).spec_standings().len() ==> standing_replays(
                    final(self).spec_entrants(),
                    final(self).spec_completed_rounds(),
                    #[trigger] final(self).spec_standings()[i],
                )
                &&& standings_replayed(
                    final(self).spec_entrants(),
                    final(self).spec_completed_rounds(),
                    final(self).spec_standings(),
                )
            },
    {
        let entrant_count = self.active_entrant_ids.len();
        proof {
            assert(id_views(self.active_entrant_ids@).len() == self.active_entrant_ids@.len());
        }
        if entrant_count < 2 {
            return Err(TournamentApplicationError::NotEnoughEntrants { entrant_count });
        }
        match self.tournament.start() {
            Ok(()) => {},
            Err(error) => return Err(TournamentApplicationError::Tournament(error)),
        }
        self.standings = calculate_standings(self.entrants.as_slice(), self.completed_rounds.as_slice())?;
        Ok(())
    }

    /// Drops the pairing preview.
    pub fn discard_pairing_preview(&mut self)
        ensures
            final(self).spec_pending_proposal() is None,
            final(self).spec_entrants() == old(self).spec_entrants(),
            final(self).spec_active_round() == old(self).spec_active_round(),
            final(self).spec_completed_rounds() == old(self).spec_completed_rounds(),
    {
        self.pending_pairing = None;
    }

    /// Fails unless the tournament has started.
    pub fn ensure_started(&self) -> (outcome: Result<(), TournamentApplicationError>)
        ensures
            outcome is Ok <==> self.started(),
            outcome matches Err(e) ==> e is TournamentNotStarted,
    {
        match self.tournament.state() {
            TournamentState::Started => Ok(()),
            TournamentState::Draft => Err(TournamentApplicationError::TournamentNotStarted),
        }
    }

    /// The standings for a changed roster: recalculated once started, the
    /// current ones before.
    fn standings_for_roster(&self, entrants: &Vec<TournamentEntrant>) -> (outcome: Result<
        Vec<ContestantStanding>,
        TournamentApplicationError,
    >)
        ensures
            outcome matches Err(e) ==> e is InvalidRoundHistory || e is UnknownEntrantInRound || e is StandingOverflow,
            outcome matches Err(e) && !(e is StandingOverflow) ==> !history_consistent(
                entrants@,
                self.spec_completed_rounds(),
            ),
            !self.started() || self.spec_completed_rounds().len() == 0 ==> outcome is Ok,
            self.started() ==> (outcome matches Ok(standings) ==> forall|i: int| 0 <= i < standings@.len() ==> standing_replays(
                entrants@,
                self.spec_completed_rounds(),
                #[trigger] standings@[i],
            )),
            self.started() ==> (outcome matches Ok(standings) ==> standings_replayed(
                entrants@,
                self.spec_completed_rounds(),
                standings@,
            )),
    {
        match self.tournament.state() {
            TournamentState::Started => calculate_standings(entrants.as_slice(), self.completed_rounds.as_slice()),
            TournamentState::Draft => Ok(copy_standings(&self.standings)),
        }
    }
}

/// Whether the list holds the id.
fn contains_id(ids: &Vec<EntrantId>, id: &EntrantId) -> (found: bool)
    ensures
        found == exists|i: int| 0 <= i < ids@.len() && (#[trigger] ids@[i])@ == id@,
{
    let mut i: usize = 0;
    while i < ids.len()
        invariant
            i <= ids@.len(),
            forall|j: int| 0 <= j < i ==> (#[trigger] ids@[j])@ != id@,
        decreases ids@.len() - i,
    {
        if ids[i].same_as(id) {
            return true;
        }
        i = i + 1;
    }
    false
}

/// The position of the entrant with the id.
fn index_of(entrants: &Vec<TournamentEntrant>, id: &EntrantId) -> (index: Option<usize>)
    ensures
        index matches Some(i) ==> i < entrants@.len() && entrants@[i as int].entrant_id@ == id@,
{
    let mut i: usize = 0;
    while i < entrants.len()
        invariant
            i <= entrants@.len(),
        decreases entrants@.len() - i,
    {
        if entrants[i].entrant_id.same_as(id) {
            return Some(i);
        }
        i = i + 1;
    }
    None
}

/// Copies of the entrants, in order.
fn copy_entrants(entrants: &Vec<TournamentEntrant>) -> (copy: Vec<TournamentEntrant>)
    ensures
        copy@.len() == entrants@.len(),
        forall|i: int| 0 <= i < entrants@.len() ==> (#[trigger] copy@[i]).entrant_id@ == entrants@[i].entrant_id@,
        forall|i: int| 0 <= i < entrants@.len() ==> same_entrant(#[trigger] copy@[i], entrants@[i]),
{
    let mut copy: Vec<TournamentEntrant> = Vec::new();
    let mut i: usize = 0;
    while i < entrants.len()
        invariant
            i <= entrants@.len(),
            copy@.len() == i,
            forall|j: int| 0 <= j < i ==> (#[trigger] copy@[j]).entrant_id@ == entrants@[j].entrant_id@,
            forall|j: int| 0 <= j < i ==> same_entrant(#[trigger] copy@[j], entrants@[j]),
        decreases entrants@.len() - i,
    {
        copy.push(entrants[i].duplicate());
        i = i + 1;
    }
    copy
}

/// Copies of the standings, in order.
fn copy_standings(standings: &Vec<ContestantStanding>) -> (copy: Vec<ContestantStanding>)
    ensures
        copy@.len() == standings@.len(),
{
    let mut copy: Vec<ContestantStanding> = Vec::new();
    let mut i: usize = 0;
    while i < standings.len()
        invariant
            i <= standings@.len(),
            copy@.len() == i,
        decreases standings@.len() - i,
    {
        copy.push(standings[i].duplicate());
        i = i + 1;
    }
    copy
}

/// The entrants ordered by ascending id, each kept as it was.
fn sort_entrants(entrants: Vec<TournamentEntrant>) -> (sorted: Vec<TournamentEntrant>)
    ensures
        sorted@.len() == entrants@.len(),
        forall|i: int, j: int| 0 <= i < j < sorted@.len() ==> text_le(
            (#[trigger] sorted@[i]).entrant_id@,
            (#[trigger] sorted@[j]).entrant_id@,
        ),
        forall|i: int| 0 <= i < entrants@.len() ==> sorted@.contains(#[trigger] entrants@[i]),
{
    let ghost all = entrants@;
    let mut sorted: Vec<TournamentEntrant> = Vec::new();
    for entrant in iter: entrants.into_iter()
        invariant
            iter.seq() == all,
            sorted@.len() == iter.index(),
            forall|i: int, j: int| 0 <= i < j < sorted@.len() ==> text_le(
                (#[trigger] sorted@[i]).entrant_id@,
                (#[trigger] sorted@[j]).entrant_id@,
            ),
            forall|i: int| 0 <= i < iter.index() ==> sorted@.contains(#[trigger] all[i]),
    {
        let ghost k = iter.index() as int;
        proof {
            assert(all[k] == entrant);
        }
        let mut position: usize = 0;
        while position < sorted.len() && sorted[position].entrant_id.compare(&entrant.entrant_id) <= 0
            invariant
                position <= sorted@.len(),
                forall|q: int| 0 <= q < position ==> text_le((#[trigger] sorted@[q]).entrant_id@, entrant.entrant_id@),
            decreases sorted@.len() - position,
        {
            position = position + 1;
        }
        let ghost before = sorted@;
        let ghost item = entrant;
        sorted.insert(position, entrant);
        proof {
            let p = position as int;
            assert(sorted@ == before.insert(p, item));
            if p < before.len() {
                lemma_text_order_antisymmetric(before[p].entrant_id@, item.entrant_id@);
            }
            assert forall|i: int, j: int| 0 <= i < j < sorted@.len() implies text_le(
                (#[trigger] sorted@[i]).entrant_id@,
                (#[trigger] sorted@[j]).entrant_id@,
            ) by {
                if j < p {
                    assert(sorted@[i] == before[i] && sorted@[j] == before[j]);
                } else if j == p {
                    assert(sorted@[i] == before[i]);
                } else if i == p {
                    assert(sorted@[j] == before[j - 1]);
                    if j - 1 > p {
                        lemma_text_le_transitive(item.entrant_id@, before[p].entrant_id@, before[j - 1].entrant_id@);
                    }
                } else if i < p {
                    assert(sorted@[i] == before[i] && sorted@[j] == before[j - 1]);
                    assert(text_le(before[i].entrant_id@, before[j - 1].entrant_id@));
                } else {
                    assert(sorted@[i] == before[i - 1] && sorted@[j] == before[j - 1]);
                }
            }
            assert forall|i: int| 0 <= i < k + 1 implies sorted@.contains(#[trigger] all[i]) by {
                if i < k {
                    assert(before.contains(all[i]));
                    let t = choose|t: int| 0 <= t < before.len() && before[t] == all[i];
                    if t < p {
                        assert(sorted@[t] == before[t]);
                    } else {
                        assert(sorted@[t + 1] == before[t]);
                    }
                } else {
                    assert(sorted@[p] == all[i]);
                }
            }
        }
    }
    sorted
}

} // verus!
