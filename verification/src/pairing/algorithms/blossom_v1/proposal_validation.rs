//! Checks that a solver selection is a valid pairing of the request.
use vstd::prelude::*;

use crate::identity::EntrantId;

use super::blossom_feasibility::{ids_view, maximum_cardinality_matching};
use super::solver_graph::{SolverGraph, invalid};
use super::{
    BlossomPairingError, InvalidSolverOutputReason, PairingCandidateEdge, PairingCandidateGraph,
    PairingEdgeTarget, PairingEntrant, PairingRequest, ProposedBye, RelaxationTier, has_entrant,
};

verus! {

/// The first rule that the selected edge breaks, if any: both ends are
/// known entrants, the breakdown total equals the cost, a same-club or
/// rematch pairing is allowed by the tier where the policy avoids it, and an
/// entrant is not paired with itself.
pub open spec fn edge_violation(request: PairingRequest, tier: RelaxationTier, edge: PairingCandidateEdge) -> Option<
    InvalidSolverOutputReason,
> {
    if !has_entrant(request.entrants@, edge.first_entrant_id@) {
        Some(InvalidSolverOutputReason::UnknownEdge)
    } else if edge.breakdown.total != edge.cost.0 {
        Some(InvalidSolverOutputReason::InconsistentEdgeCost)
    } else if request.policy.avoid_same_club && edge.same_club && !tier.spec_allows_same_club() {
        Some(InvalidSolverOutputReason::ForbiddenSameClubPairing)
    } else if request.policy.avoid_rematches && edge.rematch && !tier.spec_allows_rematches() {
        Some(InvalidSolverOutputReason::ForbiddenRematch)
    } else {
        match edge.target {
            PairingEdgeTarget::Entrant(second) => if edge.first_entrant_id@ == second@ {
                Some(InvalidSolverOutputReason::SelfPair)
            } else if !has_entrant(request.entrants@, second@) {
                Some(InvalidSolverOutputReason::UnknownEdge)
            } else {
                None
            },
            PairingEdgeTarget::Bye => None,
        }
    }
}

/// Whether some request entrant carries the id.
pub fn knows_entrant(request: &PairingRequest, id: &EntrantId) -> (known: bool)
    ensures
        known == has_entrant(request.entrants@, id@),
{
    let mut i: usize = 0;
    while i < request.entrants.len()
        invariant
            i <= request.entrants@.len(),
            forall|j: int| 0 <= j < i ==> (#[trigger] request.entrants@[j]).entrant_id@ != id@,
        decreases request.entrants@.len() - i,
    {
        if request.entrants[i].entrant_id.same_as(id) {
            return true;
        }
        i = i + 1;
    }
    false
}

/// Checks one selected edge against the request and the tier.
pub fn validate_edge(request: &PairingRequest, tier: RelaxationTier, edge: &PairingCandidateEdge) -> (outcome:
    Result<(), BlossomPairingError>)
    ensures
        outcome == match edge_violation(*request, tier, *edge) {
            None => Ok(()),
            Some(reason) => Err(BlossomPairingError::InvalidSolverOutput { reason }),
        },
{
    if !knows_entrant(request, &edge.first_entrant_id) {
        return Err(invalid(InvalidSolverOutputReason::UnknownEdge));
    }
    if edge.breakdown.total != edge.cost.value() {
        return Err(invalid(InvalidSolverOutputReason::InconsistentEdgeCost));
    }
    if request.policy.avoid_same_club && edge.same_club && !tier.allows_same_club() {
        return Err(invalid(InvalidSolverOutputReason::ForbiddenSameClubPairing));
    }
    if request.policy.avoid_rematches && edge.rematch && !tier.allows_rematches() {
        return Err(invalid(InvalidSolverOutputReason::ForbiddenRematch));
    }
    match &edge.target {
        PairingEdgeTarget::Entrant(second) => {
            if edge.first_entrant_id.same_as(second) {
                return Err(invalid(InvalidSolverOutputReason::SelfPair));
            }
            if !knows_entrant(request, second) {
                return Err(invalid(InvalidSolverOutputReason::UnknownEdge));
            }
        },
        PairingEdgeTarget::Bye => {},
    }
    Ok(())
}

/// Records the entrant as seen, or reports a duplicate when it already was.
pub fn mark_once(seen: &mut Vec<EntrantId>, entrant_id: &EntrantId) -> (outcome: Result<(), BlossomPairingError>)
    ensures
        ids_view(old(seen)@).contains(entrant_id@) ==> outcome == Err::<(), BlossomPairingError>(
            BlossomPairingError::InvalidSolverOutput { reason: InvalidSolverOutputReason::DuplicateEntrant },
        ) && final(seen)@ == old(seen)@,
        !ids_view(old(seen)@).contains(entrant_id@) ==> outcome is Ok && ids_view(final(seen)@) == ids_view(
            old(seen)@,
        ).push(entrant_id@),
{
    let mut i: usize = 0;
    while i < seen.len()
        invariant
            i <= seen@.len(),
            forall|j: int| 0 <= j < i ==> (#[trigger] seen@[j])@ != entrant_id@,
        decreases seen@.len() - i,
    {
        if seen[i].same_as(entrant_id) {
            proof {
                assert(ids_view(seen@)[i as int] == entrant_id@);
            }
            return Err(invalid(InvalidSolverOutputReason::DuplicateEntrant));
        }
        i = i + 1;
    }
    proof {
        assert forall|j: int| 0 <= j < ids_view(seen@).len() implies ids_view(seen@)[j] != entrant_id@ by {
            assert(seen@[j]@ != entrant_id@);
        }
    }
    let ghost before = seen@;
    seen.push(entrant_id.duplicate());
    proof {
        assert(ids_view(seen@) =~= ids_view(before).push(entrant_id@));
    }
    Ok(())
}

/// Whether the id is among the seen ones.
fn was_seen(seen: &Vec<EntrantId>, id: &EntrantId) -> (found: bool)
    ensures
        found == ids_view(seen@).contains(id@),
{
    let mut i: usize = 0;
    while i < seen.len()
        invariant
            i <= seen@.len(),
            forall|j: int| 0 <= j < i ==> (#[trigger] seen@[j])@ != id@,
        decreases seen@.len() - i,
    {
        if seen[i].same_as(id) {
            proof {
                assert(ids_view(seen@)[i as int] == id@);
            }
            return true;
        }
        i = i + 1;
    }
    proof {
        assert forall|j: int| 0 <= j < ids_view(seen@).len() implies ids_view(seen@)[j] != id@ by {
            assert(seen@[j]@ != id@);
        }
    }
    false
}

/// Every request entrant was seen.
pub open spec fn all_entrants_seen(request: PairingRequest, seen: Seq<Seq<char>>) -> bool {
    forall|i: int| 0 <= i < request.entrants@.len() ==> seen.contains(#[trigger] request.entrants@[i].entrant_id@)
}

/// Every entrant is covered, and a bye is present exactly in an odd field.
pub fn validate_coverage(request: &PairingRequest, seen: &Vec<EntrantId>, bye: Option<&ProposedBye>) -> (outcome:
    Result<(), BlossomPairingError>)
    ensures
        outcome == if !all_entrants_seen(*request, ids_view(seen@)) {
            invalid_reason(InvalidSolverOutputReason::MissingEntrant)
        } else if request.entrants@.len() % 2 == 0 && bye is Some {
            invalid_reason(InvalidSolverOutputReason::UnexpectedBye)
        } else if request.entrants@.len() % 2 == 1 && bye is None {
            invalid_reason(InvalidSolverOutputReason::MissingEntrant)
        } else {
            Ok(())
        },
{
    let mut i: usize = 0;
    while i < request.entrants.len()
        invariant
            i <= request.entrants@.len(),
            forall|j: int| 0 <= j < i ==> ids_view(seen@).contains(#[trigger] request.entrants@[j].entrant_id@),
        decreases request.entrants@.len() - i,
    {
        if !was_seen(seen, &request.entrants[i].entrant_id) {
            return Err(invalid(InvalidSolverOutputReason::MissingEntrant));
        }
        i = i + 1;
    }
    let odd = request.entrants.len() % 2 == 1;
    match bye {
        Some(_) => if !odd {
            Err(invalid(InvalidSolverOutputReason::UnexpectedBye))
        } else {
            Ok(())
        },
        None => if odd {
            Err(invalid(InvalidSolverOutputReason::MissingEntrant))
        } else {
            Ok(())
        },
    }
}

/// The error for a selection that breaks rule `reason`.
pub open spec fn invalid_reason(reason: InvalidSolverOutputReason) -> Result<(), BlossomPairingError> {
    Err(BlossomPairingError::InvalidSolverOutput { reason })
}

/// Some bye edge of the graph belongs to entrant `id`.
pub open spec fn graph_offers_bye(graph: PairingCandidateGraph, id: Seq<char>) -> bool {
    exists|k: int| 0 <= k < graph.edges@.len() && (#[trigger] graph.edges@[k]).first_entrant_id@ == id
        && graph.edges@[k].target is Bye
}

/// The bye count of the first entrant from position `from` on that carries
/// the id, 0 when none does.
pub open spec fn first_bye_count(entrants: Seq<PairingEntrant>, id: Seq<char>, from: int) -> u16
    decreases entrants.len() - from,
{
    if from < 0 || from >= entrants.len() {
        0
    } else if entrants[from].entrant_id@ == id {
        entrants[from].bye_count
    } else {
        first_bye_count(entrants, id, from + 1)
    }
}

/// The bye count of the selected entrant, 0 when it is not listed.
fn selected_bye_count(request: &PairingRequest, id: &EntrantId) -> (count: u16)
    ensures
        count == first_bye_count(request.entrants@, id@, 0),
{
    let mut i: usize = 0;
    while i < request.entrants.len()
        invariant
            i <= request.entrants@.len(),
            first_bye_count(request.entrants@, id@, 0) == first_bye_count(request.entrants@, id@, i as int),
        decreases request.entrants@.len() - i,
    {
        if request.entrants[i].entrant_id.same_as(id) {
            return request.entrants[i].bye_count;
        }
        i = i + 1;
    }
    0
}

/// Rejects a bye for an entrant when another entrant with fewer byes has a
/// bye edge and leaves a completely pairable remainder. In particular the
/// bye passes when no entrant with fewer byes has a bye edge at all.
pub fn validate_bye_fairness(request: &PairingRequest, graph: &PairingCandidateGraph, selected_bye: &ProposedBye) -> (outcome:
    Result<(), BlossomPairingError>)
    ensures
        outcome is Err ==> outcome == invalid_reason(InvalidSolverOutputReason::AvoidableRepeatedBye),
        (forall|i: int| 0 <= i < request.entrants@.len() ==> !(#[trigger] request.entrants@[i].bye_count
            < first_bye_count(request.entrants@, selected_bye.entrant_id@, 0) && graph_offers_bye(
            *graph,
            request.entrants@[i].entrant_id@,
        ))) ==> outcome is Ok,
{
    let selected_count = selected_bye_count(request, &selected_bye.entrant_id);
    let mut i: usize = 0;
    while i < request.entrants.len()
        invariant
            i <= request.entrants@.len(),
            selected_count == first_bye_count(request.entrants@, selected_bye.entrant_id@, 0),
        decreases request.entrants@.len() - i,
    {
        let entrant = &request.entrants[i];
        if entrant.bye_count < selected_count && has_bye_edge(graph, &entrant.entrant_id)
            && remainder_has_complete_matching(graph, &entrant.entrant_id) {
            proof {
                assert(request.entrants@[i as int].bye_count < first_bye_count(request.entrants@, selected_bye.entrant_id@, 0));
            }
            return Err(invalid(InvalidSolverOutputReason::AvoidableRepeatedBye));
        }
        i = i + 1;
    }
    Ok(())
}

/// Whether the entrant has a bye edge in the graph.
fn has_bye_edge(graph: &PairingCandidateGraph, entrant_id: &EntrantId) -> (found: bool)
    ensures
        found == graph_offers_bye(*graph, entrant_id@),
{
    let mut k: usize = 0;
    while k < graph.edges.len()
        invariant
            k <= graph.edges@.len(),
            forall|j: int| 0 <= j < k ==> !((#[trigger] graph.edges@[j]).first_entrant_id@ == entrant_id@
                && graph.edges@[j].target is Bye),
        decreases graph.edges@.len() - k,
    {
        let edge = &graph.edges[k];
        if edge.first_entrant_id.same_as(entrant_id) && matches!(edge.target, PairingEdgeTarget::Bye) {
            return true;
        }
        k = k + 1;
    }
    false
}

/// Whether the graph without `bye` and its edges admits a complete pairing.
fn remainder_has_complete_matching(graph: &PairingCandidateGraph, bye: &EntrantId) -> (matchable: bool) {
    let mut entrant_ids: Vec<EntrantId> = Vec::new();
    let mut i: usize = 0;
    while i < graph.entrant_ids.len()
        decreases graph.entrant_ids@.len() - i,
    {
        if !graph.entrant_ids[i].same_as(bye) {
            entrant_ids.push(graph.entrant_ids[i].duplicate());
        }
        i = i + 1;
    }
    let mut edges: Vec<PairingCandidateEdge> = Vec::new();
    let mut k: usize = 0;
    while k < graph.edges.len()
        decreases graph.edges@.len() - k,
    {
        let edge = &graph.edges[k];
        let keep = !edge.first_entrant_id.same_as(bye) && match &edge.target {
            PairingEdgeTarget::Entrant(id) => !id.same_as(bye),
            PairingEdgeTarget::Bye => false,
        };
        if keep {
            edges.push(edge.duplicate());
        }
        k = k + 1;
    }
    let remainder = PairingCandidateGraph {
        relaxation_tier: graph.relaxation_tier,
        entrant_ids,
        edges,
        diagnostics: graph.diagnostics,
    };
    match SolverGraph::from_candidate_graph(&remainder) {
        Ok(solver_graph) => maximum_cardinality_matching(&solver_graph).is_complete(),
        Err(_) => false,
    }
}

} // verus!
