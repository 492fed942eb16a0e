//! The candidate graph does not depend on the order in which a request
//! lists its entrants or its history.
use vstd::prelude::*;

use crate::identity::{lemma_text_le_transitive, lemma_text_order_zero, text_lt};

use super::edge_cost::{CostContext, EdgeCostModel, spec_bye_cost, spec_match_cost};
use super::edge_generation::{
    PairingCandidateEdge, PairingCandidateGraph, PairingEdgeTarget, candidate_graph_matches, edge_precedes,
    graph_edge_sound, graph_has_bye_edge, graph_tie_break_scale, is_match_edge_for, recent_rematch, rematch_forbidden, same_club_forbidden,
};
use super::validation::request_valid;
use super::{PairingCostBreakdown, PairingCostComponent, PairingRequest, RelaxationTier};

verus! {

/// The sort key of an edge: whether it is a bye, its first id, and its
/// second id for a pairing.
pub open spec fn edge_key(edge: PairingCandidateEdge) -> (bool, Seq<char>, Seq<char>) {
    match edge.target {
        PairingEdgeTarget::Entrant(second) => (false, edge.first_entrant_id@, second@),
        PairingEdgeTarget::Bye => (true, edge.first_entrant_id@, Seq::empty()),
    }
}

/// What an edge records, identifiers taken by their text.
pub open spec fn edge_record(edge: PairingCandidateEdge) -> (
    (bool, Seq<char>, Seq<char>),
    bool,
    bool,
    u64,
    PairingCostBreakdown,
) {
    (edge_key(edge), edge.same_club, edge.rematch, edge.cost.0, edge.breakdown)
}

/// The order of edge keys: pairings before byes, pairings by first and
/// then second id, byes by id.
pub open spec fn key_lt(a: (bool, Seq<char>, Seq<char>), b: (bool, Seq<char>, Seq<char>)) -> bool {
    if !a.0 && b.0 {
        true
    } else if a.0 && !b.0 {
        false
    } else if !a.0 {
        text_lt(a.1, b.1) || (a.1 == b.1 && text_lt(a.2, b.2))
    } else {
        text_lt(a.1, b.1)
    }
}

/// A key as edges have them: a bye has no second id.
pub open spec fn key_well_formed(a: (bool, Seq<char>, Seq<char>)) -> bool {
    a.0 ==> a.2 == Seq::<char>::empty()
}

/// The two requests list the same entrants and the same history, each
/// possibly in another order, for the same round under the same policy.
pub open spec fn same_request_contents(first: PairingRequest, second: PairingRequest) -> bool {
    &&& first.round_number == second.round_number
    &&& first.policy == second.policy
    &&& first.entrants@.len() == second.entrants@.len()
    &&& forall|i: int| 0 <= i < first.entrants@.len() ==> second.entrants@.contains(#[trigger] first.entrants@[i])
    &&& forall|i: int| 0 <= i < second.entrants@.len() ==> first.entrants@.contains(#[trigger] second.entrants@[i])
    &&& forall|i: int| 0 <= i < first.previous_matches@.len() ==> second.previous_matches@.contains(
        #[trigger] first.previous_matches@[i],
    )
    &&& forall|i: int| 0 <= i < second.previous_matches@.len() ==> first.previous_matches@.contains(
        #[trigger] second.previous_matches@[i],
    )
}

/// Entrants `a` and `b` of the request witness that edge `k` of the graph
/// is sound.
spec fn sound_at(
    request: PairingRequest,
    tier: RelaxationTier,
    model: EdgeCostModel,
    graph: PairingCandidateGraph,
    k: int,
    a: int,
    b: int,
) -> bool {
    let entrants = request.entrants@;
    let edge = graph.edges@[k];
    &&& 0 <= a < entrants.len()
    &&& 0 <= b < entrants.len()
    &&& entrants[a].entrant_id@ == edge.first_entrant_id@
    &&& if edge.target is Bye {
        &&& entrants.len() % 2 == 1
        &&& !edge.same_club && !edge.rematch
        &&& spec_bye_cost(model, entrants[a], k as u64, graph_tie_break_scale(graph)) == Ok::<
            PairingCostBreakdown,
            PairingCostComponent,
        >(edge.breakdown)
    } else {
        &&& is_match_edge_for(edge, entrants[a], entrants[b])
        &&& text_lt(entrants[a].entrant_id@, entrants[b].entrant_id@)
        &&& !same_club_forbidden(request, tier, entrants[a], entrants[b])
        &&& !rematch_forbidden(request, tier, entrants[a], entrants[b])
        &&& edge.same_club == (entrants[a].club_id@ == entrants[b].club_id@)
        &&& edge.rematch == recent_rematch(
            request,
            request.policy.recent_rematch_window,
            entrants[a].entrant_id@,
            entrants[b].entrant_id@,
        )
        &&& spec_match_cost(model, entrants[a], entrants[b], CostContext {
            tie_break: k as u64,
            tie_break_scale: graph_tie_break_scale(graph),
            same_club: edge.same_club,
            rematch: edge.rematch,
        }) == Ok::<PairingCostBreakdown, PairingCostComponent>(edge.breakdown)
    }
}

proof fn lemma_sound_witness(
    request: PairingRequest,
    tier: RelaxationTier,
    model: EdgeCostModel,
    graph: PairingCandidateGraph,
    k: int,
) -> (witness: (int, int))
    requires
        0 <= k < graph.edges@.len(),
        graph_edge_sound(request, tier, model, graph, k),
    ensures
        sound_at(request, tier, model, graph, k, witness.0, witness.1),
{
    let entrants = request.entrants@;
    choose|a: int, b: int| #![trigger entrants[a], entrants[b]] sound_at(request, tier, model, graph, k, a, b)
}

/// In a request with distinct ids, the entrant of the other request with the
/// same id is the same entrant.
proof fn lemma_entrant_by_id(first: PairingRequest, second: PairingRequest, a: int, c: int)
    requires
        request_valid(second),
        same_request_contents(first, second),
        0 <= a < first.entrants@.len(),
        0 <= c < second.entrants@.len(),
        first.entrants@[a].entrant_id@ == second.entrants@[c].entrant_id@,
    ensures
        first.entrants@[a] == second.entrants@[c],
{
    assert(second.entrants@.contains(first.entrants@[a]));
    let d = choose|d: int| 0 <= d < second.entrants@.len() && second.entrants@[d] == first.entrants@[a];
    if d != c {
        if d < c {
            assert(second.entrants@[d].entrant_id@ != second.entrants@[c].entrant_id@);
        } else {
            assert(second.entrants@[c].entrant_id@ != second.entrants@[d].entrant_id@);
        }
    }
}

proof fn lemma_text_lt_irreflexive(a: Seq<char>)
    ensures
        !text_lt(a, a),
{
    lemma_text_order_zero(a, a);
}

proof fn lemma_text_lt_transitive(a: Seq<char>, b: Seq<char>, c: Seq<char>)
    requires
        text_lt(a, b),
        text_lt(b, c),
    ensures
        text_lt(a, c),
{
    lemma_text_le_transitive(a, b, c);
}

proof fn lemma_key_lt_irreflexive(a: (bool, Seq<char>, Seq<char>))
    ensures
        !key_lt(a, a),
{
    lemma_text_lt_irreflexive(a.1);
    lemma_text_lt_irreflexive(a.2);
}

proof fn lemma_key_lt_transitive(a: (bool, Seq<char>, Seq<char>), b: (bool, Seq<char>, Seq<char>), c: (bool, Seq<char>, Seq<char>))
    requires
        key_lt(a, b),
        key_lt(b, c),
    ensures
        key_lt(a, c),
{
    if !a.0 && !b.0 && !c.0 {
        if text_lt(a.1, b.1) && text_lt(b.1, c.1) {
            lemma_text_lt_transitive(a.1, b.1, c.1);
        } else if text_lt(a.1, b.1) {
            assert(b.1 == c.1);
        } else if text_lt(b.1, c.1) {
            assert(a.1 == b.1);
        } else {
            lemma_text_lt_transitive(a.2, b.2, c.2);
        }
    } else if a.0 && b.0 && c.0 {
        lemma_text_lt_transitive(a.1, b.1, c.1);
    }
}

proof fn lemma_precedes_is_key_lt(a: PairingCandidateEdge, b: PairingCandidateEdge)
    ensures
        edge_precedes(a, b) == key_lt(edge_key(a), edge_key(b)),
        key_well_formed(edge_key(a)),
{
}

/// Two key sequences, each strictly ascending, with the same keys, are the
/// same sequence.
proof fn lemma_sorted_keys_unique(s1: Seq<(bool, Seq<char>, Seq<char>)>, s2: Seq<(bool, Seq<char>, Seq<char>)>)
    requires
        forall|i: int, j: int| 0 <= i < j < s1.len() ==> key_lt(#[trigger] s1[i], #[trigger] s1[j]),
        forall|i: int, j: int| 0 <= i < j < s2.len() ==> key_lt(#[trigger] s2[i], #[trigger] s2[j]),
        forall|i: int| 0 <= i < s1.len() ==> key_well_formed(#[trigger] s1[i]),
        forall|i: int| 0 <= i < s1.len() ==> s2.contains(#[trigger] s1[i]),
        forall|i: int| 0 <= i < s2.len() ==> s1.contains(#[trigger] s2[i]),
    ensures
        s1 == s2,
    decreases s1.len(),
{
    if s1.len() == 0 {
        if s2.len() > 0 {
            assert(s1.contains(s2[0]));
        }
        assert(s1 =~= s2);
    } else {
        assert(s2.contains(s1[0]));
        let j = choose|j: int| 0 <= j < s2.len() && s2[j] == s1[0];
        assert(s1.contains(s2[0]));
        let i = choose|i: int| 0 <= i < s1.len() && s1[i] == s2[0];
        if j > 0 {
            assert(key_lt(s2[0], s2[j]));
            if i > 0 {
                assert(key_lt(s1[0], s1[i]));
                lemma_key_lt_transitive(s1[0], s1[i], s1[0]);
                lemma_key_lt_irreflexive(s1[0]);
            } else {
                lemma_key_lt_irreflexive(s1[0]);
            }
        }
        assert(s2[0] == s1[0]);
        let t1 = s1.drop_first();
        let t2 = s2.drop_first();
        assert forall|a: int| 0 <= a < t1.len() implies t2.contains(#[trigger] t1[a]) by {
            assert(t1[a] == s1[a + 1]);
            assert(s2.contains(s1[a + 1]));
            let b = choose|b: int| 0 <= b < s2.len() && s2[b] == s1[a + 1];
            if b == 0 {
                assert(key_lt(s1[0], s1[a + 1]));
                lemma_key_lt_irreflexive(s1[0]);
            }
            assert(t2[b - 1] == s2[b]);
        }
        assert forall|a: int| 0 <= a < t2.len() implies t1.contains(#[trigger] t2[a]) by {
            assert(t2[a] == s2[a + 1]);
            assert(s1.contains(s2[a + 1]));
            let b = choose|b: int| 0 <= b < s1.len() && s1[b] == s2[a + 1];
            if b == 0 {
                assert(key_lt(s2[0], s2[a + 1]));
                lemma_key_lt_irreflexive(s2[0]);
            }
            assert(t1[b - 1] == s1[b]);
        }
        assert forall|a: int, b: int| 0 <= a < b < t1.len() implies key_lt(#[trigger] t1[a], #[trigger] t1[b]) by {
            assert(key_lt(s1[a + 1], s1[b + 1]));
        }
        assert forall|a: int, b: int| 0 <= a < b < t2.len() implies key_lt(#[trigger] t2[a], #[trigger] t2[b]) by {
            assert(key_lt(s2[a + 1], s2[b + 1]));
        }
        assert forall|a: int| 0 <= a < t1.len() implies key_well_formed(#[trigger] t1[a]) by {
            assert(key_well_formed(s1[a + 1]));
        }
        lemma_sorted_keys_unique(t1, t2);
        assert(s1 =~= seq![s1[0]] + t1);
        assert(s2 =~= seq![s2[0]] + t2);
    }
}

/// Equal requests contents agree on whether a pair is a recent rematch.
proof fn lemma_same_rematches(first: PairingRequest, second: PairingRequest, window: u16, a: Seq<char>, b: Seq<char>)
    requires
        same_request_contents(first, second),
    ensures
        recent_rematch(first, window, a, b) == recent_rematch(second, window, a, b),
{
    if recent_rematch(first, window, a, b) {
        let k = choose|k: int|
            0 <= k < first.previous_matches@.len() && {
                let entry = #[trigger] first.previous_matches@[k];
                &&& first.round_number.spec_value() - entry.round_number.spec_value() <= window
                &&& ((entry.first_entrant_id@ == a && entry.second_entrant_id@ == b) || (entry.first_entrant_id@ == b
                    && entry.second_entrant_id@ == a))
            };
        assert(second.previous_matches@.contains(first.previous_matches@[k]));
        let m = choose|m: int| 0 <= m < second.previous_matches@.len() && second.previous_matches@[m] == first.previous_matches@[k];
        assert(second.previous_matches@[m] == first.previous_matches@[k]);
    }
    if recent_rematch(second, window, a, b) {
        let k = choose|k: int|
            0 <= k < second.previous_matches@.len() && {
                let entry = #[trigger] second.previous_matches@[k];
                &&& second.round_number.spec_value() - entry.round_number.spec_value() <= window
                &&& ((entry.first_entrant_id@ == a && entry.second_entrant_id@ == b) || (entry.first_entrant_id@ == b
                    && entry.second_entrant_id@ == a))
            };
        assert(first.previous_matches@.contains(second.previous_matches@[k]));
        let m = choose|m: int| 0 <= m < first.previous_matches@.len() && first.previous_matches@[m] == second.previous_matches@[k];
        assert(first.previous_matches@[m] == second.previous_matches@[k]);
    }
}

/// Every edge of the first graph has its key among the second graph's
/// edges.
proof fn lemma_keys_within(
    first: PairingRequest,
    second: PairingRequest,
    tier: RelaxationTier,
    model: EdgeCostModel,
    g1: PairingCandidateGraph,
    g2: PairingCandidateGraph,
)
    requires
        candidate_graph_matches(first, tier, model, g1),
        candidate_graph_matches(second, tier, model, g2),
        same_request_contents(first, second),
    ensures
        forall|k: int| 0 <= k < g1.edges@.len() ==> g2.edges@.map_values(|e: PairingCandidateEdge| edge_key(e)).contains(
            edge_key(#[trigger] g1.edges@[k]),
        ),
{
    let keys2 = g2.edges@.map_values(|e: PairingCandidateEdge| edge_key(e));
    assert forall|k: int| 0 <= k < g1.edges@.len() implies keys2.contains(edge_key(#[trigger] g1.edges@[k])) by {
        assert(graph_edge_sound(first, tier, model, g1, k));
        let edge = g1.edges@[k];
        let entrants = first.entrants@;
        let (a, b) = lemma_sound_witness(first, tier, model, g1, k);
        assert(second.entrants@.contains(entrants[a]));
        let a2 = choose|i: int| 0 <= i < second.entrants@.len() && second.entrants@[i] == entrants[a];
        if edge.target is Bye {
            assert(graph_has_bye_edge(g2, second.entrants@[a2].entrant_id@));
            let l = choose|l: int| 0 <= l < g2.edges@.len() && (#[trigger] g2.edges@[l]).target is Bye
                && g2.edges@[l].first_entrant_id@ == second.entrants@[a2].entrant_id@;
            assert(keys2[l] == edge_key(edge));
        } else {
            assert(second.entrants@.contains(entrants[b]));
            let b2 = choose|i: int| 0 <= i < second.entrants@.len() && second.entrants@[i] == entrants[b];
            lemma_same_rematches(
                first,
                second,
                first.policy.recent_rematch_window,
                entrants[a].entrant_id@,
                entrants[b].entrant_id@,
            );
            assert(!rematch_forbidden(second, tier, second.entrants@[a2], second.entrants@[b2]));
            assert(!same_club_forbidden(second, tier, second.entrants@[a2], second.entrants@[b2]));
            assert(text_lt(second.entrants@[a2].entrant_id@, second.entrants@[b2].entrant_id@));
            let l = choose|l: int| 0 <= l < g2.edges@.len() && is_match_edge_for(
                #[trigger] g2.edges@[l],
                second.entrants@[a2],
                second.entrants@[b2],
            );
            assert(keys2[l] == edge_key(edge));
        }
    }
}

/// The law: two requests that list the same entrants and the same history,
/// in any order, for the same round and policy, give candidate graphs at a
/// tier whose edges record the same pairs and byes, relationship facts and
/// costs, in the same order.
pub proof fn law_candidate_graph_ignores_listing_order(
    first: PairingRequest,
    second: PairingRequest,
    tier: RelaxationTier,
    model: EdgeCostModel,
    g1: PairingCandidateGraph,
    g2: PairingCandidateGraph,
)
    requires
        request_valid(first),
        request_valid(second),
        same_request_contents(first, second),
        candidate_graph_matches(first, tier, model, g1),
        candidate_graph_matches(second, tier, model, g2),
    ensures
        g1.edges@.len() == g2.edges@.len(),
        forall|k: int| 0 <= k < g1.edges@.len() ==> edge_record(#[trigger] g1.edges@[k]) == edge_record(g2.edges@[k]),
{
    let keys1 = g1.edges@.map_values(|e: PairingCandidateEdge| edge_key(e));
    let keys2 = g2.edges@.map_values(|e: PairingCandidateEdge| edge_key(e));
    assert(same_request_contents(second, first));
    lemma_keys_within(first, second, tier, model, g1, g2);
    lemma_keys_within(second, first, tier, model, g2, g1);
    assert forall|i: int, j: int| 0 <= i < j < keys1.len() implies key_lt(#[trigger] keys1[i], #[trigger] keys1[j]) by {
        lemma_precedes_is_key_lt(g1.edges@[i], g1.edges@[j]);
    }
    assert forall|i: int, j: int| 0 <= i < j < keys2.len() implies key_lt(#[trigger] keys2[i], #[trigger] keys2[j]) by {
        lemma_precedes_is_key_lt(g2.edges@[i], g2.edges@[j]);
    }
    assert forall|i: int| 0 <= i < keys1.len() implies key_well_formed(#[trigger] keys1[i]) by {
        lemma_precedes_is_key_lt(g1.edges@[i], g1.edges@[i]);
    }
    assert forall|i: int| 0 <= i < keys1.len() implies keys2.contains(#[trigger] keys1[i]) by {
        assert(keys1[i] == edge_key(g1.edges@[i]));
    }
    assert forall|i: int| 0 <= i < keys2.len() implies keys1.contains(#[trigger] keys2[i]) by {
        assert(keys2[i] == edge_key(g2.edges@[i]));
    }
    lemma_sorted_keys_unique(keys1, keys2);
    assert(g1.edges@.len() == g2.edges@.len());
    assert forall|k: int| 0 <= k < g1.edges@.len() implies edge_record(#[trigger] g1.edges@[k]) == edge_record(
        g2.edges@[k],
    ) by {
        assert(keys1[k] == edge_key(g1.edges@[k]));
        assert(keys2[k] == edge_key(g2.edges@[k]));
        lemma_same_edge(first, second, tier, model, g1, g2, k);
    }
}

proof fn lemma_same_edge(
    first: PairingRequest,
    second: PairingRequest,
    tier: RelaxationTier,
    model: EdgeCostModel,
    g1: PairingCandidateGraph,
    g2: PairingCandidateGraph,
    k: int,
)
    requires
        request_valid(first),
        request_valid(second),
        same_request_contents(first, second),
        candidate_graph_matches(first, tier, model, g1),
        candidate_graph_matches(second, tier, model, g2),
        g1.edges@.len() == g2.edges@.len(),
        0 <= k < g1.edges@.len(),
        edge_key(g1.edges@[k]) == edge_key(g2.edges@[k]),
    ensures
        edge_record(g1.edges@[k]) == edge_record(g2.edges@[k]),
{
    let e1 = g1.edges@[k];
    let e2 = g2.edges@[k];
    assert(graph_edge_sound(first, tier, model, g1, k));
    assert(graph_edge_sound(second, tier, model, g2, k));
    let (a, b) = lemma_sound_witness(first, tier, model, g1, k);
    let (c, d) = lemma_sound_witness(second, tier, model, g2, k);
    assert(graph_tie_break_scale(g1) == graph_tie_break_scale(g2));
    assert(e1.cost.0 == e1.breakdown.total);
    assert(e2.cost.0 == e2.breakdown.total);
    lemma_entrant_by_id(first, second, a, c);
    if e1.target is Bye {
        assert(e2.target is Bye);
    } else {
        assert(e2.target is Entrant);
        lemma_entrant_by_id(first, second, b, d);
        lemma_same_rematches(
            first,
            second,
            first.policy.recent_rematch_window,
            first.entrants@[a].entrant_id@,
            first.entrants@[b].entrant_id@,
        );
        assert(e1.same_club == e2.same_club);
        assert(e1.rematch == e2.rematch);
        assert(e1.breakdown == e2.breakdown);
    }
}

} // verus!
