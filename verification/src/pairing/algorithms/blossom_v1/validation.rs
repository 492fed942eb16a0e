use vstd::prelude::*;

use crate::identity::EntrantId;

use super::{BlossomPairingError, PairingEntrant, PairingRequest, PreviousMatch};

verus! {

/// The ids of the first `k` entrants are pairwise distinct.
pub open spec fn ids_distinct_prefix(entrants: Seq<PairingEntrant>, k: int) -> bool {
    forall|i: int, j: int|
        0 <= i < j < k ==> (#[trigger] entrants[i]).entrant_id@ != (#[trigger] entrants[j]).entrant_id@
}

/// Some entrant carries the id `id`.
pub open spec fn has_entrant(entrants: Seq<PairingEntrant>, id: Seq<char>) -> bool {
    exists|i: int| 0 <= i < entrants.len() && (#[trigger] entrants[i]).entrant_id@ == id
}

/// A history entry names two different known entrants and a round no later
/// than the one requested.
pub open spec fn history_entry_valid(request: PairingRequest, entry: PreviousMatch) -> bool {
    &&& has_entrant(request.entrants@, entry.first_entrant_id@)
    &&& has_entrant(request.entrants@, entry.second_entrant_id@)
    &&& entry.first_entrant_id@ != entry.second_entrant_id@
    &&& entry.round_number.spec_value() <= request.round_number.spec_value()
}

/// The first `k` history entries are valid.
pub open spec fn history_prefix_valid(request: PairingRequest, k: int) -> bool {
    forall|i: int| 0 <= i < k ==> history_entry_valid(request, #[trigger] request.previous_matches@[i])
}

pub open spec fn entrant_count_valid(request: PairingRequest) -> bool {
    2 <= request.entrants@.len() <= request.policy.maximum_entrant_count
}

/// A request that can be paired: between two entrants and the policy limit,
/// distinct entrant ids, and a history that only names known entrants, never
/// an entrant against itself, and no round after the requested one.
pub open spec fn request_valid(request: PairingRequest) -> bool {
    &&& entrant_count_valid(request)
    &&& ids_distinct_prefix(request.entrants@, request.entrants@.len() as int)
    &&& history_prefix_valid(request, request.previous_matches@.len() as int)
}

/// `k` is the first history entry that is invalid.
pub open spec fn first_invalid_history_entry(request: PairingRequest, k: int) -> bool {
    &&& 0 <= k < request.previous_matches@.len()
    &&& history_prefix_valid(request, k)
    &&& !history_entry_valid(request, request.previous_matches@[k])
}

/// `j` is the first entrant whose id repeats an earlier one.
pub open spec fn first_duplicate_entrant(entrants: Seq<PairingEntrant>, j: int) -> bool {
    &&& 0 <= j < entrants.len()
    &&& ids_distinct_prefix(entrants, j)
    &&& exists|i: int| 0 <= i < j && (#[trigger] entrants[i]).entrant_id@ == entrants[j].entrant_id@
}

/// Checks a pairing request. The checks run in this order and the first that
/// fails names the error: too few entrants, more than the policy allows, a
/// repeated entrant, then each history entry in turn for an unknown entrant,
/// an entrant recorded against itself, or a round after the requested one.
pub fn validate_request(request: &PairingRequest) -> (outcome: Result<(), BlossomPairingError>)
    ensures
        outcome is Ok <==> request_valid(*request),
        (outcome matches Err(BlossomPairingError::NotEnoughEntrants { .. }))
            <==> request.entrants@.len() < 2,
        outcome matches Err(BlossomPairingError::NotEnoughEntrants { entrant_count })
            ==> entrant_count == request.entrants@.len(),
        outcome matches Err(BlossomPairingError::EntrantLimitExceeded { entrant_count, maximum })
            ==> entrant_count == request.entrants@.len() && maximum
            == request.policy.maximum_entrant_count,
        (outcome matches Err(BlossomPairingError::EntrantLimitExceeded { .. })) <==> (2
            <= request.entrants@.len() && request.entrants@.len()
            > request.policy.maximum_entrant_count),
        (outcome matches Err(BlossomPairingError::DuplicateEntrant { .. })) <==> (
        entrant_count_valid(*request) && !ids_distinct_prefix(
            request.entrants@,
            request.entrants@.len() as int,
        )),
        outcome matches Err(BlossomPairingError::DuplicateEntrant { entrant_id }) ==> exists|
            j: int,
        |
            first_duplicate_entrant(request.entrants@, j) && entrant_id@
                == request.entrants@[j].entrant_id@,
        (outcome matches Err(
            BlossomPairingError::UnknownEntrantInHistory { .. }
            | BlossomPairingError::SelfMatchInHistory { .. }
            | BlossomPairingError::InvalidHistoryRound { .. },
        )) <==> (entrant_count_valid(*request) && ids_distinct_prefix(
            request.entrants@,
            request.entrants@.len() as int,
        ) && !history_prefix_valid(*request, request.previous_matches@.len() as int)),
        outcome matches Err(BlossomPairingError::UnknownEntrantInHistory { unknown_entrant_id })
            ==> exists|k: int|
            first_invalid_history_entry(*request, k) && ({
                let entry = request.previous_matches@[k];
                if !has_entrant(request.entrants@, entry.first_entrant_id@) {
                    unknown_entrant_id@ == entry.first_entrant_id@
                } else {
                    !has_entrant(request.entrants@, entry.second_entrant_id@)
                        && unknown_entrant_id@ == entry.second_entrant_id@
                }
            }),
        outcome matches Err(BlossomPairingError::SelfMatchInHistory { entrant_id }) ==> exists|
            k: int,
        |
            first_invalid_history_entry(*request, k) && ({
                let entry = request.previous_matches@[k];
                &&& has_entrant(request.entrants@, entry.first_entrant_id@)
                &&& has_entrant(request.entrants@, entry.second_entrant_id@)
                &&& entry.first_entrant_id@ == entry.second_entrant_id@
                &&& entrant_id@ == entry.first_entrant_id@
            }),
        outcome matches Err(
            BlossomPairingError::InvalidHistoryRound { history_round, requested_round },
        ) ==> exists|k: int|
            first_invalid_history_entry(*request, k) && ({
                let entry = request.previous_matches@[k];
                &&& has_entrant(request.entrants@, entry.first_entrant_id@)
                &&& has_entrant(request.entrants@, entry.second_entrant_id@)
                &&& entry.first_entrant_id@ != entry.second_entrant_id@
                &&& history_round == entry.round_number
                &&& requested_round == request.round_number
            }),
        outcome matches Err(e) ==> (e is NotEnoughEntrants || e is EntrantLimitExceeded
            || e is DuplicateEntrant || e is UnknownEntrantInHistory || e is SelfMatchInHistory
            || e is InvalidHistoryRound),
{
    let entrant_count = request.entrants.len();
    if entrant_count < 2 {
        return Err(BlossomPairingError::NotEnoughEntrants { entrant_count });
    }
    if entrant_count > request.policy.maximum_entrant_count {
        return Err(
            BlossomPairingError::EntrantLimitExceeded {
                entrant_count,
                maximum: request.policy.maximum_entrant_count,
            },
        );
    }
    validate_distinct_entrants(request)?;
    let mut k: usize = 0;
    while k < request.previous_matches.len()
        invariant
            k <= request.previous_matches@.len(),
            entrant_count_valid(*request),
            ids_distinct_prefix(request.entrants@, request.entrants@.len() as int),
            history_prefix_valid(*request, k as int),
        decreases request.previous_matches@.len() - k,
    {
        validate_history_entry(request, &request.previous_matches[k], Ghost(k as int))?;
        k = k + 1;
    }
    Ok(())
}

fn validate_distinct_entrants(request: &PairingRequest) -> (outcome: Result<(), BlossomPairingError>)
    ensures
        outcome is Ok <==> ids_distinct_prefix(request.entrants@, request.entrants@.len() as int),
        outcome matches Err(e) ==> e is DuplicateEntrant,
        outcome matches Err(BlossomPairingError::DuplicateEntrant { entrant_id }) ==> exists|
            j: int,
        |
            first_duplicate_entrant(request.entrants@, j) && entrant_id@
                == request.entrants@[j].entrant_id@,
{
    let n = request.entrants.len();
    let mut j: usize = 0;
    while j < n
        invariant
            n == request.entrants@.len(),
            j <= n,
            ids_distinct_prefix(request.entrants@, j as int),
        decreases n - j,
    {
        let mut i: usize = 0;
        while i < j
            invariant
                n == request.entrants@.len(),
                i <= j < n,
                ids_distinct_prefix(request.entrants@, j as int),
                forall|p: int|
                    0 <= p < i ==> (#[trigger] request.entrants@[p]).entrant_id@
                        != request.entrants@[j as int].entrant_id@,
            decreases j - i,
        {
            if request.entrants[i].entrant_id.same_as(&request.entrants[j].entrant_id) {
                proof {
                    assert(first_duplicate_entrant(request.entrants@, j as int));
                }
                return Err(
                    BlossomPairingError::DuplicateEntrant {
                        entrant_id: request.entrants[j].entrant_id.duplicate(),
                    },
                );
            }
            i = i + 1;
        }
        j = j + 1;
    }
    Ok(())
}

/// Whether some entrant of the request carries the id.
fn contains_entrant(entrants: &Vec<PairingEntrant>, id: &EntrantId) -> (found: bool)
    ensures
        found == has_entrant(entrants@, id@),
{
    let mut i: usize = 0;
    while i < entrants.len()
        invariant
            i <= entrants@.len(),
            forall|p: int| 0 <= p < i ==> (#[trigger] entrants@[p]).entrant_id@ != id@,
        decreases entrants@.len() - i,
    {
        if entrants[i].entrant_id.same_as(id) {
            return true;
        }
        i = i + 1;
    }
    false
}

fn validate_history_entry(
    request: &PairingRequest,
    entry: &PreviousMatch,
    Ghost(k): Ghost<int>,
) -> (outcome: Result<(), BlossomPairingError>)
    requires
        0 <= k < request.previous_matches@.len(),
        *entry == request.previous_matches@[k],
        history_prefix_valid(*request, k),
    ensures
        outcome is Ok <==> history_entry_valid(*request, *entry),
        outcome is Ok ==> history_prefix_valid(*request, k + 1),
        outcome matches Err(e) ==> first_invalid_history_entry(*request, k) && (
        e is UnknownEntrantInHistory || e is SelfMatchInHistory || e is InvalidHistoryRound),
        outcome matches Err(BlossomPairingError::UnknownEntrantInHistory { unknown_entrant_id })
            ==> if !has_entrant(request.entrants@, entry.first_entrant_id@) {
            unknown_entrant_id@ == entry.first_entrant_id@
        } else {
            !has_entrant(request.entrants@, entry.second_entrant_id@) && unknown_entrant_id@
                == entry.second_entrant_id@
        },
        outcome matches Err(BlossomPairingError::SelfMatchInHistory { entrant_id }) ==> {
            &&& has_entrant(request.entrants@, entry.first_entrant_id@)
            &&& has_entrant(request.entrants@, entry.second_entrant_id@)
            &&& entry.first_entrant_id@ == entry.second_entrant_id@
            &&& entrant_id@ == entry.first_entrant_id@
        },
        outcome matches Err(
            BlossomPairingError::InvalidHistoryRound { history_round, requested_round },
        ) ==> {
            &&& has_entrant(request.entrants@, entry.first_entrant_id@)
            &&& has_entrant(request.entrants@, entry.second_entrant_id@)
            &&& entry.first_entrant_id@ != entry.second_entrant_id@
            &&& history_round == entry.round_number
            &&& requested_round == request.round_number
        },
{
    if !contains_entrant(&request.entrants, &entry.first_entrant_id) {
        return Err(
            BlossomPairingError::UnknownEntrantInHistory {
                unknown_entrant_id: entry.first_entrant_id.duplicate(),
            },
        );
    }
    if !contains_entrant(&request.entrants, &entry.second_entrant_id) {
        return Err(
            BlossomPairingError::UnknownEntrantInHistory {
                unknown_entrant_id: entry.second_entrant_id.duplicate(),
            },
        );
    }
    if entry.first_entrant_id.same_as(&entry.second_entrant_id) {
        return Err(
            BlossomPairingError::SelfMatchInHistory {
                entrant_id: entry.first_entrant_id.duplicate(),
            },
        );
    }
    if entry.round_number.value() > request.round_number.value() {
        return Err(
            BlossomPairingError::InvalidHistoryRound {
                history_round: entry.round_number,
                requested_round: request.round_number,
            },
        );
    }
    proof {
        assert forall|i: int| 0 <= i < k + 1 implies history_entry_valid(
            *request,
            #[trigger] request.previous_matches@[i],
        ) by {
            if i < k {
                assert(history_entry_valid(*request, request.previous_matches@[i]));
            }
        }
    }
    Ok(())
}

} // verus!
