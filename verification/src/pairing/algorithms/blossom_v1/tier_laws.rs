//! What loosening the relaxation tier does to a request's candidate graph.
use vstd::prelude::*;

use crate::identity::text_lt;

use super::edge_cost::EdgeCostModel;
use super::edge_generation::{
    PairingCandidateEdge, PairingCandidateGraph, PairingEdgeTarget, candidate_graph_matches, graph_edge_sound,
    is_match_edge_for, rematch_forbidden, same_club_forbidden,
};
use super::{PairingRequest, RelaxationTier};

verus! {

/// The position of the tier in the relaxation sequence: strict first, then
/// same-club pairings allowed, then rematches allowed.
pub open spec fn tier_rank(tier: RelaxationTier) -> int {
    match tier {
        RelaxationTier::Strict => 0,
        RelaxationTier::SameClubAllowed => 1,
        RelaxationTier::RematchesAllowed => 2,
    }
}

/// The two edges pair the same two entrants, the same one first.
pub open spec fn same_pairing(first: PairingCandidateEdge, second: PairingCandidateEdge) -> bool {
    &&& first.first_entrant_id@ == second.first_entrant_id@
    &&& first.target matches PairingEdgeTarget::Entrant(a) && second.target matches PairingEdgeTarget::Entrant(b)
        && a@ == b@
}

/// A looser tier keeps every pairing of a stricter one: of the candidate
/// graphs of one request and cost model, each pairing edge of the graph at
/// the stricter tier pairs the same entrants as some edge of the graph at the
/// looser tier.
pub proof fn law_looser_tier_keeps_pairings(
    request: PairingRequest,
    model: EdgeCostModel,
    stricter: RelaxationTier,
    looser: RelaxationTier,
    strict_graph: PairingCandidateGraph,
    loose_graph: PairingCandidateGraph,
)
    requires
        tier_rank(stricter) <= tier_rank(looser),
        candidate_graph_matches(request, stricter, model, strict_graph),
        candidate_graph_matches(request, looser, model, loose_graph),
    ensures
        forall|k: int|
            0 <= k < strict_graph.edges@.len() && (#[trigger] strict_graph.edges@[k]).target is Entrant ==> exists|l: int|
                0 <= l < loose_graph.edges@.len() && same_pairing(strict_graph.edges@[k], #[trigger] loose_graph.edges@[l]),
{
    let entrants = request.entrants@;
    assert forall|k: int|
        0 <= k < strict_graph.edges@.len() && (#[trigger] strict_graph.edges@[k]).target is Entrant implies exists|l: int|
            0 <= l < loose_graph.edges@.len() && same_pairing(strict_graph.edges@[k], #[trigger] loose_graph.edges@[l]) by {
        assert(graph_edge_sound(request, stricter, model, strict_graph, k));
        let edge = strict_graph.edges@[k];
        let (a, b) = choose|a: int, b: int| #![trigger entrants[a], entrants[b]]
            0 <= a < entrants.len() && 0 <= b < entrants.len() && {
                let first = entrants[a];
                let second = entrants[b];
                &&& first.entrant_id@ == edge.first_entrant_id@
                &&& if edge.target is Bye {
                    true
                } else {
                    &&& is_match_edge_for(edge, first, second)
                    &&& text_lt(first.entrant_id@, second.entrant_id@)
                    &&& !same_club_forbidden(request, stricter, first, second)
                    &&& !rematch_forbidden(request, stricter, first, second)
                }
            };
        assert(!same_club_forbidden(request, looser, entrants[a], entrants[b]));
        assert(!rematch_forbidden(request, looser, entrants[a], entrants[b]));
        let l = choose|l: int| 0 <= l < loose_graph.edges@.len() && is_match_edge_for(
            #[trigger] loose_graph.edges@[l],
            entrants[a],
            entrants[b],
        );
        assert(same_pairing(edge, loose_graph.edges@[l]));
    }
}

} // verus!
