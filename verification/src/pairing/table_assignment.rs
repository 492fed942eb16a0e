//! Ranks published matches by the entrants' starting ELO and numbers the
//! tables in that order.
use vstd::prelude::*;

use crate::identity::{EntrantId, lemma_text_le_transitive, lemma_text_order_antisymmetric, text_le, text_lt};
use crate::scheduling::{MatchPublicationStatus, RoundActivity, ScheduledMatch};
use crate::table::TableNumber;
use crate::tournament::TableCount;

use super::EloRating;
use vstd::string::StringExecFns;

verus! {

#[derive(Clone, Debug, PartialEq, Eq)]
pub struct TableAssignmentEntrant {
    pub entrant_id: EntrantId,
    pub starting_elo: EloRating,
}

#[derive(Clone, Debug, PartialEq, Eq)]
pub enum TableAssignmentError {
    DuplicateEntrant { entrant_id: EntrantId },
    MissingEntrantSnapshot { entrant_id: EntrantId },
}

/// The table assignment error in words.
pub open spec fn table_assignment_error_text(error: TableAssignmentError) -> Seq<char> {
    match error {
        TableAssignmentError::DuplicateEntrant { entrant_id } => "entrant "@ + entrant_id@
            + " occurs more than once in the table-ranking snapshot"@,
        TableAssignmentError::MissingEntrantSnapshot { entrant_id } => "published match entrant "@ + entrant_id@
            + " is missing from the table-ranking snapshot"@,
    }
}

impl TableAssignmentError {
    /// The error in words.
    pub fn message(&self) -> (text: String)
        ensures
            text@ == table_assignment_error_text(*self),
    {
        match self {
            TableAssignmentError::DuplicateEntrant { entrant_id } => {
                let mut text = String::from_str("entrant ");
                text.append(entrant_id.as_str());
                text.append(" occurs more than once in the table-ranking snapshot");
                text
            },
            TableAssignmentError::MissingEntrantSnapshot { entrant_id } => {
                let mut text = String::from_str("published match entrant ");
                text.append(entrant_id.as_str());
                text.append(" is missing from the table-ranking snapshot");
                text
            },
        }
    }
}

/// The starting ELO of the first entrant from position `from` on with the
/// id, 0 when none has it.
pub open spec fn elo_of(entrants: Seq<TableAssignmentEntrant>, id: Seq<char>, from: int) -> int
    decreases entrants.len() - from,
{
    if from < 0 || from >= entrants.len() {
        0
    } else if entrants[from].entrant_id@ == id {
        entrants[from].starting_elo.0 as int
    } else {
        elo_of(entrants, id, from + 1)
    }
}

/// Some entrant of the snapshot carries the id.
pub open spec fn listed(entrants: Seq<TableAssignmentEntrant>, id: Seq<char>) -> bool {
    exists|i: int| 0 <= i < entrants.len() && (#[trigger] entrants[i]).entrant_id@ == id
}

/// The sum of the two entrants' starting ELO.
pub open spec fn elo_sum_of(entrants: Seq<TableAssignmentEntrant>, scheduled: ScheduledMatch) -> int {
    elo_of(entrants, scheduled.home_entrant_id@, 0) + elo_of(entrants, scheduled.away_entrant_id@, 0)
}

/// The lower and the higher entrant id of the match, and its match id.
pub open spec fn match_key(scheduled: ScheduledMatch) -> (Seq<char>, Seq<char>, Seq<char>) {
    let home = scheduled.home_entrant_id@;
    let away = scheduled.away_entrant_id@;
    if text_le(home, away) {
        (home, away, scheduled.match_id@)
    } else {
        (away, home, scheduled.match_id@)
    }
}

/// Lexicographic order of the match keys.
pub open spec fn match_key_precedes(a: ScheduledMatch, b: ScheduledMatch) -> bool {
    let ka = match_key(a);
    let kb = match_key(b);
    ||| text_lt(ka.0, kb.0)
    ||| (ka.0 == kb.0 && text_lt(ka.1, kb.1))
    ||| (ka.0 == kb.0 && ka.1 == kb.1 && text_lt(ka.2, kb.2))
}

/// `a` takes a better table than `b`: a higher ELO sum, or an equal sum and
/// a smaller match key.
pub open spec fn ranks_before(entrants: Seq<TableAssignmentEntrant>, a: ScheduledMatch, b: ScheduledMatch) -> bool {
    ||| elo_sum_of(entrants, a) > elo_sum_of(entrants, b)
    ||| (elo_sum_of(entrants, a) == elo_sum_of(entrants, b) && match_key_precedes(a, b))
}

/// Match `i` of the ranking sits at table `i + 1` while the venue has that
/// many tables, and waits for a table after that.
pub open spec fn tables_assigned(table_count: u16, ranked: Seq<ScheduledMatch>) -> bool {
    forall|i: int| 0 <= i < ranked.len() ==> {
        &&& i + 1 <= table_count ==> ((#[trigger] ranked[i]).spec_table_number() matches Some(t) && t.spec_value() == i + 1)
        &&& i + 1 > table_count ==> ranked[i].spec_table_number() is None
    }
}

proof fn lemma_key_precedes_transitive(a: ScheduledMatch, b: ScheduledMatch, c: ScheduledMatch)
    requires
        match_key_precedes(a, b),
        match_key_precedes(b, c),
    ensures
        match_key_precedes(a, c),
{
    let (ka, kb, kc) = (match_key(a), match_key(b), match_key(c));
    lemma_text_order_antisymmetric(ka.0, kb.0);
    lemma_text_order_antisymmetric(kb.0, kc.0);
    lemma_text_order_antisymmetric(ka.1, kb.1);
    lemma_text_order_antisymmetric(kb.1, kc.1);
    lemma_text_order_antisymmetric(ka.2, kb.2);
    lemma_text_order_antisymmetric(kb.2, kc.2);
    if text_lt(ka.0, kb.0) && text_lt(kb.0, kc.0) {
        lemma_text_le_transitive(ka.0, kb.0, kc.0);
    } else if ka.0 == kb.0 && kb.0 == kc.0 {
        if text_lt(ka.1, kb.1) && text_lt(kb.1, kc.1) {
            lemma_text_le_transitive(ka.1, kb.1, kc.1);
        } else if ka.1 == kb.1 && kb.1 == kc.1 {
            lemma_text_le_transitive(ka.2, kb.2, kc.2);
        }
    }
}

proof fn lemma_key_precedes_asymmetric(a: ScheduledMatch, b: ScheduledMatch)
    ensures
        !(match_key_precedes(a, b) && match_key_precedes(b, a)),
{
    let (ka, kb) = (match_key(a), match_key(b));
    lemma_text_order_antisymmetric(ka.0, kb.0);
    lemma_text_order_antisymmetric(ka.1, kb.1);
    lemma_text_order_antisymmetric(ka.2, kb.2);
}

proof fn lemma_ranks_transitive(entrants: Seq<TableAssignmentEntrant>, a: ScheduledMatch, b: ScheduledMatch, c: ScheduledMatch)
    requires
        ranks_before(entrants, a, b),
        ranks_before(entrants, b, c),
    ensures
        ranks_before(entrants, a, c),
{
    if match_key_precedes(a, b) && match_key_precedes(b, c) {
        lemma_key_precedes_transitive(a, b, c);
    }
}

proof fn lemma_ranks_asymmetric(entrants: Seq<TableAssignmentEntrant>, a: ScheduledMatch, b: ScheduledMatch)
    ensures
        !(ranks_before(entrants, a, b) && ranks_before(entrants, b, a)),
{
    lemma_key_precedes_asymmetric(a, b);
}

/// What a match keeps when its table changes: its ids, its publication
/// status and its round activity.
pub open spec fn match_fields(scheduled: ScheduledMatch) -> (
    Seq<char>,
    Seq<char>,
    Seq<char>,
    MatchPublicationStatus,
    RoundActivity,
) {
    (
        scheduled.match_id@,
        scheduled.home_entrant_id@,
        scheduled.away_entrant_id@,
        scheduled.publication_status,
        scheduled.round_activity,
    )
}

/// The fields of each match, in order.
pub open spec fn field_seq(matches: Seq<ScheduledMatch>) -> Seq<
    (Seq<char>, Seq<char>, Seq<char>, MatchPublicationStatus, RoundActivity),
> {
    Seq::new(matches.len(), |i: int| match_fields(matches[i]))
}

/// Entrant `j` repeats an earlier id, and no entrant before it does.
pub open spec fn first_repeat_at(entrants: Seq<TableAssignmentEntrant>, j: int) -> bool {
    &&& 0 <= j < entrants.len()
    &&& exists|i: int| 0 <= i < j && (#[trigger] entrants[i]).entrant_id@ == entrants[j].entrant_id@
    &&& forall|a: int, b: int| 0 <= a < b < j ==> (#[trigger] entrants[a]).entrant_id@ != (#[trigger] entrants[b]).entrant_id@
}

/// Match `i` is the first with an entrant missing from the snapshot, and
/// `id` is that entrant: the home entrant when it is missing, else the away
/// entrant.
pub open spec fn first_missing_at(
    entrants: Seq<TableAssignmentEntrant>,
    matches: Seq<ScheduledMatch>,
    i: int,
    id: Seq<char>,
) -> bool {
    &&& 0 <= i < matches.len()
    &&& forall|q: int| 0 <= q < i ==> listed(entrants, (#[trigger] matches[q]).home_entrant_id@) && listed(
        entrants,
        matches[q].away_entrant_id@,
    )
    &&& !listed(entrants, matches[i].home_entrant_id@) ==> id == matches[i].home_entrant_id@
    &&& listed(entrants, matches[i].home_entrant_id@) ==> !listed(entrants, matches[i].away_entrant_id@) && id
        == matches[i].away_entrant_id@
}

/// The starting ELO of the entrant with the id, when listed.
fn entrant_elo(entrants: &[TableAssignmentEntrant], id: &EntrantId) -> (elo: Option<u32>)
    ensures
        elo matches Some(value) ==> listed(entrants@, id@) && value == elo_of(entrants@, id@, 0),
        elo is None ==> !listed(entrants@, id@),
{
    let mut i: usize = 0;
    while i < entrants.len()
        invariant
            i <= entrants@.len(),
            forall|j: int| 0 <= j < i ==> (#[trigger] entrants@[j]).entrant_id@ != id@,
            elo_of(entrants@, id@, 0) == elo_of(entrants@, id@, i as int),
        decreases entrants@.len() - i,
    {
        if entrants[i].entrant_id.same_as(id) {
            return Some(entrants[i].starting_elo.value());
        }
        i = i + 1;
    }
    None
}

/// The first entrant whose id an earlier entrant already carries.
fn first_duplicate(entrants: &[TableAssignmentEntrant]) -> (duplicate: Option<EntrantId>)
    ensures
        duplicate matches Some(id) ==> exists|i: int, j: int|
            0 <= i < j < entrants@.len() && (#[trigger] entrants@[i]).entrant_id@ == id@ && (#[trigger] entrants@[j]).entrant_id@
                == id@,
        duplicate matches Some(id) ==> exists|j: int| #[trigger] first_repeat_at(entrants@, j) && entrants@[j].entrant_id@ == id@,
        duplicate is None ==> forall|i: int, j: int|
            0 <= i < j < entrants@.len() ==> (#[trigger] entrants@[i]).entrant_id@ != (#[trigger] entrants@[j]).entrant_id@,
{
    let mut j: usize = 0;
    while j < entrants.len()
        invariant
            j <= entrants@.len(),
            forall|a: int, b: int| 0 <= a < b < j ==> (#[trigger] entrants@[a]).entrant_id@ != (#[trigger] entrants@[b]).entrant_id@,
        decreases entrants@.len() - j,
    {
        let mut i: usize = 0;
        while i < j
            invariant
                i <= j < entrants@.len(),
                forall|a: int| 0 <= a < i ==> (#[trigger] entrants@[a]).entrant_id@ != entrants@[j as int].entrant_id@,
                forall|a: int, b: int| 0 <= a < b < j ==> (#[trigger] entrants@[a]).entrant_id@ != (#[trigger] entrants@[b]).entrant_id@,
            decreases j - i,
        {
            if entrants[i].entrant_id.same_as(&entrants[j].entrant_id) {
                proof {
                    assert(first_repeat_at(entrants@, j as int));
                }
                return Some(entrants[j].entrant_id.duplicate());
            }
            i = i + 1;
        }
        j = j + 1;
    }
    None
}

/// The first entrant of a match, in match order and home before away,
/// that the snapshot does not list.
fn first_missing_entrant(entrants: &[TableAssignmentEntrant], matches: &Vec<ScheduledMatch>) -> (missing: Option<
    EntrantId,
>)
    ensures
        match missing {
            Some(id) => exists|i: int| #![trigger matches@[i]] first_missing_at(entrants@, matches@, i, id@),
            None => true,
        },
        missing is None ==> forall|i: int| 0 <= i < matches@.len() ==> listed(
            entrants@,
            (#[trigger] matches@[i]).home_entrant_id@,
        ) && listed(entrants@, matches@[i].away_entrant_id@),
{
    let mut i: usize = 0;
    while i < matches.len()
        invariant
            i <= matches@.len(),
            forall|q: int| 0 <= q < i ==> listed(entrants@, (#[trigger] matches@[q]).home_entrant_id@) && listed(
                entrants@,
                matches@[q].away_entrant_id@,
            ),
        decreases matches@.len() - i,
    {
        let scheduled = &matches[i];
        if entrant_elo(entrants, &scheduled.home_entrant_id).is_none() {
            let id = scheduled.home_entrant_id.duplicate();
            proof {
                assert(first_missing_at(entrants@, matches@, i as int, id@));
            }
            return Some(id);
        }
        if entrant_elo(entrants, &scheduled.away_entrant_id).is_none() {
            let id = scheduled.away_entrant_id.duplicate();
            proof {
                assert(first_missing_at(entrants@, matches@, i as int, id@));
            }
            return Some(id);
        }
        i = i + 1;
    }
    None
}

/// The table of rank `index`: number `index + 1` when the venue has it.
fn table_number_for_rank(index: usize, table_count: TableCount) -> (table: Option<TableNumber>)
    ensures
        index + 1 <= table_count.spec_value() ==> (table matches Some(t) && t.spec_value() == index + 1),
        index + 1 > table_count.spec_value() ==> table is None,
{
    if index >= 65535 {
        return None;
    }
    TableNumber::within_configured_count((index + 1) as u16, table_count.value())
}

/// Orders published matches independently of solver output and assigns tables.
/// Descending ELO sum is equivalent to descending average for two contestants.
/// Ties go to the match with the smaller (lower id, higher id, match id).
/// Fails on an entrant listed twice in the snapshot, then on a match entrant
/// missing from it.
pub fn assign_tables(
    table_count: TableCount,
    published_matches: Vec<ScheduledMatch>,
    entrants: &[TableAssignmentEntrant],
) -> (outcome: Result<Vec<ScheduledMatch>, TableAssignmentError>)
    ensures
        outcome matches Ok(ranked) ==> {
            &&& ranked@.len() == published_matches@.len()
            &&& forall|i: int, j: int| 0 <= i < j < ranked@.len() ==> !ranks_before(entrants@, #[trigger] ranked@[j], #[trigger] ranked@[i])
            &&& tables_assigned(table_count.spec_value(), ranked@)
            &&& field_seq(ranked@).to_multiset() == field_seq(published_matches@).to_multiset()
            &&& forall|i: int| 0 <= i < published_matches@.len() ==> exists|j: int| 0 <= j < ranked@.len()
                && (#[trigger] ranked@[j]).match_id@ == (#[trigger] published_matches@[i]).match_id@
                && ranked@[j].home_entrant_id@ == published_matches@[i].home_entrant_id@
                && ranked@[j].away_entrant_id@ == published_matches@[i].away_entrant_id@
                && ranked@[j].publication_status == published_matches@[i].publication_status
                && ranked@[j].round_activity == published_matches@[i].round_activity
        },
        outcome matches Err(TableAssignmentError::DuplicateEntrant { entrant_id }) ==> exists|i: int, j: int|
            0 <= i < j < entrants@.len() && (#[trigger] entrants@[i]).entrant_id@ == entrant_id@
                && (#[trigger] entrants@[j]).entrant_id@ == entrant_id@,
        outcome matches Err(TableAssignmentError::DuplicateEntrant { entrant_id }) ==> exists|j: int|
            #[trigger] first_repeat_at(entrants@, j) && entrants@[j].entrant_id@ == entrant_id@,
        match outcome {
            Err(TableAssignmentError::MissingEntrantSnapshot { entrant_id }) => exists|i: int|
                #![trigger published_matches@[i]]
                first_missing_at(entrants@, published_matches@, i, entrant_id@),
            _ => true,
        },
        (exists|i: int, j: int| 0 <= i < j < entrants@.len() && (#[trigger] entrants@[i]).entrant_id@
            == (#[trigger] entrants@[j]).entrant_id@) ==> outcome matches Err(TableAssignmentError::DuplicateEntrant { .. }),
        outcome matches Err(TableAssignmentError::MissingEntrantSnapshot { entrant_id }) ==> !listed(entrants@, entrant_id@)
            && exists|i: int| 0 <= i < published_matches@.len() && ((#[trigger] published_matches@[i]).home_entrant_id@
                == entrant_id@ || published_matches@[i].away_entrant_id@ == entrant_id@),
        (forall|i: int, j: int| 0 <= i < j < entrants@.len() ==> (#[trigger] entrants@[i]).entrant_id@
            != (#[trigger] entrants@[j]).entrant_id@) && (forall|i: int| 0 <= i < published_matches@.len() ==> listed(
            entrants@,
            (#[trigger] published_matches@[i]).home_entrant_id@,
        ) && listed(entrants@, published_matches@[i].away_entrant_id@)) ==> outcome is Ok,
{
    match first_duplicate(entrants) {
        Some(entrant_id) => return Err(TableAssignmentError::DuplicateEntrant { entrant_id }),
        None => {},
    }
    match first_missing_entrant(entrants, &published_matches) {
        Some(entrant_id) => return Err(TableAssignmentError::MissingEntrantSnapshot { entrant_id }),
        None => {},
    }
    let ghost original = published_matches@;
    let mut ranked: Vec<ScheduledMatch> = Vec::new();
    let mut sums: Vec<u64> = Vec::new();
    proof {
        assert(field_seq(ranked@) =~= field_seq(original.subrange(0, 0)));
    }
    for scheduled in iter: published_matches.into_iter()
        invariant
            iter.seq() == original,
            original == published_matches@,
            ranked@.len() == iter.index(),
            sums@.len() == ranked@.len(),
            forall|i: int, j: int| 0 <= i < j < entrants@.len() ==> (#[trigger] entrants@[i]).entrant_id@
                != (#[trigger] entrants@[j]).entrant_id@,
            forall|i: int| 0 <= i < ranked@.len() ==> #[trigger] sums@[i] == elo_sum_of(entrants@, ranked@[i]),
            forall|i: int, j: int| 0 <= i < j < ranked@.len() ==> !ranks_before(entrants@, #[trigger] ranked@[j], #[trigger] ranked@[i]),
            forall|i: int| 0 <= i < iter.index() ==> ranked@.contains(#[trigger] original[i]),
            forall|i: int| 0 <= i < ranked@.len() ==> original.contains(#[trigger] ranked@[i]),
            forall|i: int| 0 <= i < original.len() ==> listed(entrants@, (#[trigger] original[i]).home_entrant_id@)
                && listed(entrants@, original[i].away_entrant_id@),
            field_seq(ranked@).to_multiset() == field_seq(original.subrange(0, iter.index() as int)).to_multiset(),
    {
        let ghost index = iter.index();
        proof {
            assert(original[index as int] == scheduled);
        }
        let home = match entrant_elo(entrants, &scheduled.home_entrant_id) {
            Some(elo) => elo,
            None => {
                proof {
                    assert(listed(entrants@, original[index as int].home_entrant_id@));
                }
                return Err(
                    TableAssignmentError::MissingEntrantSnapshot { entrant_id: scheduled.home_entrant_id.duplicate() },
                );
            },
        };
        let away = match entrant_elo(entrants, &scheduled.away_entrant_id) {
            Some(elo) => elo,
            None => {
                proof {
                    assert(listed(entrants@, original[index as int].away_entrant_id@));
                }
                return Err(
                    TableAssignmentError::MissingEntrantSnapshot { entrant_id: scheduled.away_entrant_id.duplicate() },
                );
            },
        };
        let sum: u64 = home as u64 + away as u64;
        let mut position: usize = 0;
        while position < ranked.len() && !ranks_ahead(entrants, &scheduled, sum, &ranked[position], sums[position])
            invariant
                position <= ranked@.len(),
                sums@.len() == ranked@.len(),
                forall|i: int| 0 <= i < ranked@.len() ==> #[trigger] sums@[i] == elo_sum_of(entrants@, ranked@[i]),
                sum == elo_sum_of(entrants@, scheduled),
                forall|q: int| 0 <= q < position ==> !ranks_before(entrants@, scheduled, #[trigger] ranked@[q]),
            decreases ranked@.len() - position,
        {
            position = position + 1;
        }
        let ghost before = ranked@;
        let ghost sums_before = sums@;
        proof {
            assert(original[index as int] == scheduled);
        }
        ranked.insert(position, scheduled);
        sums.insert(position, sum);
        proof {
            assert(ranked@ == before.insert(position as int, scheduled));
            assert(sums@ == sums_before.insert(position as int, sum));
            let p = position as int;
            assert forall|i: int| 0 <= i < ranked@.len() implies #[trigger] sums@[i] == elo_sum_of(entrants@, ranked@[i]) by {
                if i < p {
                    assert(sums@[i] == sums_before[i] && ranked@[i] == before[i]);
                } else if i > p {
                    assert(sums@[i] == sums_before[i - 1] && ranked@[i] == before[i - 1]);
                }
            }
            assert forall|i: int, j: int| 0 <= i < j < ranked@.len() implies !ranks_before(
                entrants@,
                #[trigger] ranked@[j],
                #[trigger] ranked@[i],
            ) by {
                let e = entrants@;
                if j < p {
                    assert(ranked@[i] == before[i] && ranked@[j] == before[j]);
                } else if j == p {
                    assert(ranked@[i] == before[i]);
                } else if i == p {
                    assert(ranked@[j] == before[j - 1]);
                    if ranks_before(e, ranked@[j], ranked@[i]) {
                        assert(ranks_before(e, scheduled, before[p]));
                        if j - 1 > p {
                            assert(!ranks_before(e, before[j - 1], before[p]));
                            lemma_ranks_transitive(e, before[j - 1], scheduled, before[p]);
                        } else {
                            lemma_ranks_asymmetric(e, scheduled, before[p]);
                        }
                    }
                } else if i < p {
                    assert(ranked@[i] == before[i] && ranked@[j] == before[j - 1]);
                } else {
                    assert(ranked@[i] == before[i - 1] && ranked@[j] == before[j - 1]);
                }
            }
            assert forall|i: int| 0 <= i < index + 1 implies ranked@.contains(#[trigger] original[i]) by {
                if i < index {
                    let t = choose|t: int| 0 <= t < before.len() && before[t] == original[i];
                    if t < p {
                        assert(ranked@[t] == original[i]);
                    } else {
                        assert(ranked@[t + 1] == original[i]);
                    }
                } else {
                    assert(ranked@[p] == original[i]);
                }
            }
            assert forall|i: int| 0 <= i < ranked@.len() implies original.contains(#[trigger] ranked@[i]) by {
                if i < p {
                    assert(ranked@[i] == before[i]);
                } else if i > p {
                    assert(ranked@[i] == before[i - 1]);
                }
            }
            assert(field_seq(ranked@) =~= field_seq(before).insert(p, match_fields(scheduled)));
            vstd::seq_lib::to_multiset_insert(field_seq(before), p, match_fields(scheduled));
            assert(field_seq(original.subrange(0, index + 1)) =~= field_seq(original.subrange(0, index as int)).push(
                match_fields(scheduled),
            ));
            vstd::seq_lib::to_multiset_build(field_seq(original.subrange(0, index as int)), match_fields(scheduled));
        }
    }
    proof {
        assert(original.subrange(0, original.len() as int) =~= original);
    }
    let ghost sorted = ranked@;
    let mut assigned: Vec<ScheduledMatch> = Vec::new();
    for scheduled in iter: ranked.into_iter()
        invariant
            iter.seq() == sorted,
            assigned@.len() == iter.index(),
            forall|i: int| 0 <= i < assigned@.len() ==> {
                let placed = #[trigger] assigned@[i];
                &&& placed.match_id@ == sorted[i].match_id@
                &&& placed.home_entrant_id@ == sorted[i].home_entrant_id@
                &&& placed.away_entrant_id@ == sorted[i].away_entrant_id@
                &&& placed.publication_status == sorted[i].publication_status
                &&& placed.round_activity == sorted[i].round_activity
                &&& i + 1 <= table_count.spec_value() ==> (placed.spec_table_number() matches Some(t) && t.spec_value()
                    == i + 1)
                &&& i + 1 > table_count.spec_value() ==> placed.spec_table_number() is None
            },
    {
        let ghost index = iter.index();
        proof {
            assert(sorted[index as int] == scheduled);
        }
        let table = table_number_for_rank(assigned.len(), table_count);
        assigned.push(scheduled.with_table_number(table));
    }
    proof {
        assert forall|i: int, j: int| 0 <= i < j < assigned@.len() implies !ranks_before(
            entrants@,
            #[trigger] assigned@[j],
            #[trigger] assigned@[i],
        ) by {
            assert(elo_sum_of(entrants@, assigned@[j]) == elo_sum_of(entrants@, sorted[j]));
            assert(elo_sum_of(entrants@, assigned@[i]) == elo_sum_of(entrants@, sorted[i]));
            assert(match_key(assigned@[j]) == match_key(sorted[j]));
            assert(match_key(assigned@[i]) == match_key(sorted[i]));
        }
        assert forall|i: int| 0 <= i < original.len() implies exists|j: int| 0 <= j < assigned@.len()
            && (#[trigger] assigned@[j]).match_id@ == (#[trigger] original[i]).match_id@
            && assigned@[j].home_entrant_id@ == original[i].home_entrant_id@
            && assigned@[j].away_entrant_id@ == original[i].away_entrant_id@
            && assigned@[j].publication_status == original[i].publication_status
            && assigned@[j].round_activity == original[i].round_activity by {
            assert(sorted.contains(original[i]));
            let t = choose|t: int| 0 <= t < sorted.len() && sorted[t] == original[i];
            assert(assigned@[t].match_id@ == original[i].match_id@);
        }
        assert(field_seq(assigned@) =~= field_seq(sorted));
    }
    Ok(assigned)
}

/// Whether the match with ELO sum `sum` takes a better table than `other`.
fn ranks_ahead(
    entrants: &[TableAssignmentEntrant],
    scheduled: &ScheduledMatch,
    sum: u64,
    other: &ScheduledMatch,
    other_sum: u64,
) -> (ahead: bool)
    requires
        sum == elo_sum_of(entrants@, *scheduled),
        other_sum == elo_sum_of(entrants@, *other),
    ensures
        ahead == ranks_before(entrants@, *scheduled, *other),
{
    if sum != other_sum {
        return sum > other_sum;
    }
    key_precedes(scheduled, other)
}

/// The lower and higher entrant id of the match.
fn ordered_pair(scheduled: &ScheduledMatch) -> (pair: (&EntrantId, &EntrantId))
    ensures
        pair.0@ == match_key(*scheduled).0,
        pair.1@ == match_key(*scheduled).1,
{
    if scheduled.home_entrant_id.compare(&scheduled.away_entrant_id) <= 0 {
        (&scheduled.home_entrant_id, &scheduled.away_entrant_id)
    } else {
        (&scheduled.away_entrant_id, &scheduled.home_entrant_id)
    }
}

/// Whether the first match key sorts strictly before the second.
fn key_precedes(a: &ScheduledMatch, b: &ScheduledMatch) -> (before: bool)
    ensures
        before == match_key_precedes(*a, *b),
{
    let (a_low, a_high) = ordered_pair(a);
    let (b_low, b_high) = ordered_pair(b);
    if a_low.precedes(b_low) {
        return true;
    }
    if !a_low.same_as(b_low) {
        return false;
    }
    if a_high.precedes(b_high) {
        return true;
    }
    if !a_high.same_as(b_high) {
        return false;
    }
    a.match_id.precedes(&b.match_id)
}

} // verus!
