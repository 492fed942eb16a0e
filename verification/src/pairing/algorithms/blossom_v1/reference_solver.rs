//! Exhaustive minimum-cost perfect matching for small candidate graphs, the
//! oracle against which the weighted kernel is held.
use vstd::prelude::*;

use crate::identity::EntrantId;

use super::proposal_builder::selected_cost;
use super::solver_graph::{invalid, node_count_for};
use super::{
    BlossomPairingError, InvalidSolverOutputReason, PairingCandidateEdge, PairingCandidateGraph, PairingCostComponent,
    PairingEdgeTarget, SolverError,
};

verus! {

/// The largest node count that the exhaustive search takes on.
pub const MAXIMUM_REFERENCE_NODE_COUNT: usize = 20;

#[derive(Clone, Debug, PartialEq, Eq)]
pub struct ReferenceMatching {
    pub edge_indices: Vec<usize>,
    pub total_cost: u64,
}

#[derive(Clone, Copy)]
struct ReferenceEdge {
    first_node: usize,
    second_node: usize,
    cost: u64,
    graph_index: usize,
}

/// Edge `index` of the graph meets node `node`: an entrant node by the
/// entrant's id, or the bye node, numbered after the entrants.
pub open spec fn edge_touches(graph: PairingCandidateGraph, index: int, node: int) -> bool {
    let edge = graph.edges@[index];
    let ids = graph.entrant_ids@;
    ||| 0 <= node < ids.len() && edge.first_entrant_id@ == ids[node]@
    ||| 0 <= node < ids.len() && (edge.target matches PairingEdgeTarget::Entrant(t) && t@ == ids[node]@)
    ||| node == ids.len() && edge.target is Bye
}

/// Some listed edge meets node `v`.
pub open spec fn node_met(graph: PairingCandidateGraph, indices: Seq<usize>, v: int) -> bool {
    exists|i: int| 0 <= i < indices.len() && #[trigger] edge_touches(graph, indices[i] as int, v)
}

/// Every node of the graph, the bye node of an odd field included, is met
/// by exactly one of the listed edges.
pub open spec fn covers_each_node_once(graph: PairingCandidateGraph, indices: Seq<usize>) -> bool {
    let node_count = node_count_for(graph.entrant_ids@.len() as int);
    &&& forall|v: int| 0 <= v < node_count ==> #[trigger] node_met(graph, indices, v)
    &&& forall|i: int, j: int, v: int|
        0 <= i < indices.len() && 0 <= j < indices.len() && i != j && 0 <= v < node_count && #[trigger] edge_touches(
            graph,
            indices[i] as int,
            v,
        ) ==> !#[trigger] edge_touches(graph, indices[j] as int, v)
}

/// A complete matching on `node_count` nodes: ascending candidate edges,
/// one per pair of nodes, meeting every node once, whose costs add up to
/// the total.
pub open spec fn reference_matching_valid(graph: PairingCandidateGraph, matching: ReferenceMatching) -> bool {
    let indices = matching.edge_indices@;
    &&& indices.len() == node_count_for(graph.entrant_ids@.len() as int) / 2
    &&& forall|i: int, j: int| 0 <= i < j < indices.len() ==> indices[i] < indices[j]
    &&& forall|i: int| 0 <= i < indices.len() ==> #[trigger] indices[i] < graph.edges@.len()
    &&& covers_each_node_once(graph, indices)
    &&& matching.total_cost == selected_cost(graph.edges@, indices, indices.len())
}

/// The graph's entrant ids are distinct.
pub open spec fn ids_distinct(graph: PairingCandidateGraph) -> bool {
    forall|i: int, j: int| 0 <= i < j < graph.entrant_ids@.len() ==> (#[trigger] graph.entrant_ids@[i])@
        != (#[trigger] graph.entrant_ids@[j])@
}

/// The search edge stands for candidate edge `graph_index`, which meets
/// exactly its two distinct end nodes.
spec fn reference_edge_sound(graph: PairingCandidateGraph, node_count: int, edge: ReferenceEdge) -> bool {
    &&& edge.graph_index < graph.edges@.len()
    &&& edge.cost == graph.edges@[edge.graph_index as int].cost.0
    &&& edge.first_node != edge.second_node
    &&& edge.first_node < node_count
    &&& edge.second_node < node_count
    &&& forall|v: int| 0 <= v < node_count ==> (#[trigger] edge_touches(graph, edge.graph_index as int, v) <==> (v
        == edge.first_node || v == edge.second_node))
}

/// The flags mark exactly the nodes that the selected edges meet, and no
/// two selected edges meet the same node.
spec fn selection_consistent(graph: PairingCandidateGraph, matched: Seq<bool>, selected: Seq<usize>) -> bool {
    &&& forall|k: int| 0 <= k < selected.len() ==> #[trigger] selected[k] < graph.edges@.len()
    &&& forall|v: int| 0 <= v < matched.len() ==> (#[trigger] matched[v] <==> exists|i: int|
        0 <= i < selected.len() && edge_touches(graph, selected[i] as int, v))
    &&& forall|i: int, j: int|
        0 <= i < selected.len() && 0 <= j < selected.len() && i != j ==> #[trigger] selected[i] != #[trigger] selected[j]
    &&& forall|i: int, j: int, v: int|
        0 <= i < selected.len() && 0 <= j < selected.len() && i != j && 0 <= v < matched.len() && #[trigger] edge_touches(
            graph,
            selected[i] as int,
            v,
        ) ==> !#[trigger] edge_touches(graph, selected[j] as int, v)
}

proof fn lemma_select_edge(
    graph: PairingCandidateGraph,
    matched: Seq<bool>,
    selected: Seq<usize>,
    edge: ReferenceEdge,
    a: int,
    b: int,
)
    requires
        selection_consistent(graph, matched, selected),
        reference_edge_sound(graph, matched.len() as int, edge),
        (a == edge.first_node && b == edge.second_node) || (a == edge.second_node && b == edge.first_node),
        !matched[a],
        !matched[b],
    ensures
        selection_consistent(graph, matched.update(a, true).update(b, true), selected.push(edge.graph_index)),
{
    let marked = matched.update(a, true).update(b, true);
    let chosen = selected.push(edge.graph_index);
    let g = edge.graph_index as int;
    assert forall|v: int| 0 <= v < marked.len() implies (#[trigger] marked[v] <==> exists|i: int|
        0 <= i < chosen.len() && edge_touches(graph, chosen[i] as int, v)) by {
        if v == a || v == b {
            assert(edge_touches(graph, chosen[selected.len() as int] as int, v));
        } else {
            assert(!edge_touches(graph, g, v));
            if matched[v] {
                let i = choose|i: int| 0 <= i < selected.len() && edge_touches(graph, selected[i] as int, v);
                assert(chosen[i] == selected[i]);
            }
            if exists|i: int| 0 <= i < chosen.len() && edge_touches(graph, chosen[i] as int, v) {
                let i = choose|i: int| 0 <= i < chosen.len() && edge_touches(graph, chosen[i] as int, v);
                assert(i < selected.len());
                assert(chosen[i] == selected[i]);
            }
        }
    }
    assert forall|i: int, j: int|
        0 <= i < chosen.len() && 0 <= j < chosen.len() && i != j implies #[trigger] chosen[i] != #[trigger] chosen[j] by {
        if i == selected.len() || j == selected.len() {
            let other = if i == selected.len() { j } else { i };
            assert(edge_touches(graph, g, a));
            if chosen[other] == edge.graph_index {
                assert(chosen[other] == selected[other]);
                assert(edge_touches(graph, selected[other] as int, a));
                assert(matched[a]);
            }
        } else {
            assert(chosen[i] == selected[i] && chosen[j] == selected[j]);
        }
    }
    assert forall|i: int, j: int, v: int|
        0 <= i < chosen.len() && 0 <= j < chosen.len() && i != j && 0 <= v < marked.len() && #[trigger] edge_touches(
            graph,
            chosen[i] as int,
            v,
        ) implies !#[trigger] edge_touches(graph, chosen[j] as int, v) by {
        if i == selected.len() || j == selected.len() {
            let other = if i == selected.len() { j } else { i };
            assert(chosen[other] == selected[other]);
            if edge_touches(graph, chosen[i] as int, v) && edge_touches(graph, chosen[j] as int, v) {
                assert(edge_touches(graph, g, v));
                assert(v == a || v == b);
                assert(edge_touches(graph, selected[other] as int, v));
                assert(matched[v]);
            }
        } else {
            assert(chosen[i] == selected[i] && chosen[j] == selected[j]);
        }
    }
}

/// The cheapest complete matching of the graph by exhaustive search, ties
/// going to the lexicographically smallest ascending edge list; `None` when
/// no complete matching exists. Graphs with more than
/// `MAXIMUM_REFERENCE_NODE_COUNT` nodes are refused. The matching found is
/// no costlier than any complete matching of the graph, and among those as
/// cheap its ascending edge list comes first.
pub fn solve_exactly(graph: &PairingCandidateGraph) -> (outcome: Result<
    Option<ReferenceMatching>,
    BlossomPairingError,
>)
    ensures
        node_count_for(graph.entrant_ids@.len() as int) > MAXIMUM_REFERENCE_NODE_COUNT ==> (outcome matches Err(
            e,
        ) && e is SolverFailure),
        outcome matches Ok(Some(matching)) ==> reference_matching_valid(*graph, matching),
        outcome matches Ok(Some(matching)) ==> forall|other: Seq<usize>| #[trigger] is_complete_matching(*graph, other)
            ==> matching.total_cost <= selected_cost(graph.edges@, other, other.len()),
        outcome matches Ok(Some(matching)) ==> forall|other: Seq<usize>| #[trigger] is_complete_matching(*graph, other)
            && (forall|i: int, j: int| 0 <= i < j < other.len() ==> other[i] < other[j]) && selected_cost(
            graph.edges@,
            other,
            other.len(),
        ) == matching.total_cost ==> !lex_less(other, matching.edge_indices@),
        outcome is Ok && outcome->Ok_0 is None ==> forall|other: Seq<usize>| !#[trigger] is_complete_matching(
            *graph,
            other,
        ),
        outcome matches Err(e) ==> e is SolverFailure || e is InvalidSolverOutput || e == (
        BlossomPairingError::PairingCostOverflow { component: PairingCostComponent::Total }),
        (outcome matches Err(e) && e is SolverFailure) <==> node_count_for(graph.entrant_ids@.len() as int)
            > MAXIMUM_REFERENCE_NODE_COUNT,
        outcome matches Err(e) && e is InvalidSolverOutput ==> !(ids_distinct(*graph) && edges_well_formed(*graph)),
        outcome matches Err(e) && e is PairingCostOverflow ==> edges_total(graph.edges@, graph.edges@.len())
            > u64::MAX,
        node_count_for(graph.entrant_ids@.len() as int) <= MAXIMUM_REFERENCE_NODE_COUNT && ids_distinct(*graph)
            && edges_well_formed(*graph) && edges_total(graph.edges@, graph.edges@.len()) <= u64::MAX
            ==> outcome is Ok,
{
    let entrant_count = graph.entrant_ids.len();
    if entrant_count > MAXIMUM_REFERENCE_NODE_COUNT {
        return Err(
            BlossomPairingError::SolverFailure {
                source: SolverError::new("reference solver supports at most 20 nodes"),
            },
        );
    }
    let has_bye_node = entrant_count % 2 == 1;
    let node_count = entrant_count + if has_bye_node { 1 } else { 0 };
    if node_count > MAXIMUM_REFERENCE_NODE_COUNT {
        return Err(
            BlossomPairingError::SolverFailure {
                source: SolverError::new("reference solver supports at most 20 nodes"),
            },
        );
    }
    check_distinct_ids(&graph.entrant_ids)?;
    let edges = reference_edges(graph, has_bye_node)?;
    let mut matched: Vec<bool> = Vec::new();
    let mut i: usize = 0;
    while i < node_count
        invariant
            i <= node_count,
            matched@.len() == i,
            forall|v: int| 0 <= v < i ==> !#[trigger] matched@[v],
        decreases node_count - i,
    {
        matched.push(false);
        i = i + 1;
    }
    let mut selected: Vec<usize> = Vec::new();
    let mut best: Option<ReferenceMatching> = None;
    proof {
        assert(selection_consistent(*graph, matched@, selected@));
        lemma_set_count_none(matched@, matched@.len());
    }
    visit(graph, &edges, &mut matched, &mut selected, &mut best, 0, node_count / 2 + 1)?;
    proof {
        assert forall|other: Seq<usize>| #[trigger] is_complete_matching(*graph, other) implies bound_holds(
            best,
            selected_cost(graph.edges@, other, other.len()),
        ) by {
            assert(Seq::<usize>::empty() + other =~= other);
        }
        assert forall|other: Seq<usize>| #[trigger] is_complete_matching(*graph, other) && (forall|i: int, j: int|
            0 <= i < j < other.len() ==> other[i] < other[j]) implies ranks_first(
            best,
            selected_cost(graph.edges@, other, other.len()),
            other,
        ) by {
            assert(Seq::<usize>::empty() + other =~= other);
            assert(ascending_listing(other, Seq::<usize>::empty() + other));
        }
    }
    Ok(best)
}

/// Rejects a graph that lists an entrant twice.
fn check_distinct_ids(entrant_ids: &Vec<EntrantId>) -> (outcome: Result<(), BlossomPairingError>)
    ensures
        outcome is Ok <==> forall|a: int, b: int| 0 <= a < b < entrant_ids@.len() ==> (#[trigger] entrant_ids@[a])@
            != (#[trigger] entrant_ids@[b])@,
        outcome matches Err(e) ==> e is InvalidSolverOutput,
{
    let mut i: usize = 0;
    while i < entrant_ids.len()
        invariant
            i <= entrant_ids@.len(),
            forall|a: int, b: int| 0 <= a < b < entrant_ids@.len() && a < i ==> (#[trigger] entrant_ids@[a])@
                != (#[trigger] entrant_ids@[b])@,
        decreases entrant_ids@.len() - i,
    {
        let mut j: usize = i + 1;
        while j < entrant_ids.len()
            invariant
                i < entrant_ids@.len(),
                i + 1 <= j <= entrant_ids@.len(),
                forall|a: int, b: int| 0 <= a < b < entrant_ids@.len() && a < i ==> (#[trigger] entrant_ids@[a])@
                    != (#[trigger] entrant_ids@[b])@,
                forall|b: int| i < b < j ==> entrant_ids@[i as int]@ != (#[trigger] entrant_ids@[b])@,
            decreases entrant_ids@.len() - j,
        {
            if entrant_ids[i].same_as(&entrant_ids[j]) {
                return Err(invalid(InvalidSolverOutputReason::DuplicateEntrant));
            }
            j = j + 1;
        }
        i = i + 1;
    }
    Ok(())
}

/// The position of the id among the graph's entrants.
fn entrant_node(entrant_id: &EntrantId, entrant_ids: &Vec<EntrantId>) -> (outcome: Result<usize, BlossomPairingError>)
    ensures
        outcome matches Ok(node) ==> node < entrant_ids@.len() && entrant_ids@[node as int]@ == entrant_id@,
        outcome matches Err(e) ==> e is InvalidSolverOutput,
        (exists|i: int| 0 <= i < entrant_ids@.len() && (#[trigger] entrant_ids@[i])@ == entrant_id@) ==> outcome is Ok,
{
    let mut i: usize = 0;
    while i < entrant_ids.len()
        invariant
            i <= entrant_ids@.len(),
            forall|j: int| 0 <= j < i ==> (#[trigger] entrant_ids@[j])@ != entrant_id@,
        decreases entrant_ids@.len() - i,
    {
        if entrant_ids[i].same_as(entrant_id) {
            return Ok(i);
        }
        i = i + 1;
    }
    Err(invalid(InvalidSolverOutputReason::UnknownEdge))
}

/// The candidate edges as pairs of node numbers, the bye node last.
fn reference_edges(graph: &PairingCandidateGraph, has_bye_node: bool) -> (outcome: Result<
    Vec<ReferenceEdge>,
    BlossomPairingError,
>)
    requires
        ids_distinct(*graph),
        has_bye_node == (graph.entrant_ids@.len() % 2 == 1),
    ensures
        outcome matches Ok(edges) ==> forall|k: int| 0 <= k < edges@.len() ==> reference_edge_sound(
            *graph,
            node_count_for(graph.entrant_ids@.len() as int),
            #[trigger] edges@[k],
        ),
        outcome matches Ok(edges) ==> edges@.len() == graph.edges@.len() && forall|k: int|
            0 <= k < edges@.len() ==> (#[trigger] edges@[k]).graph_index == k,
        outcome matches Err(e) ==> e is InvalidSolverOutput,
        edges_well_formed(*graph) ==> outcome is Ok,
{
    let ghost node_count = node_count_for(graph.entrant_ids@.len() as int);
    let mut edges: Vec<ReferenceEdge> = Vec::new();
    let mut k: usize = 0;
    while k < graph.edges.len()
        invariant
            k <= graph.edges@.len(),
            ids_distinct(*graph),
            has_bye_node == (graph.entrant_ids@.len() % 2 == 1),
            node_count == node_count_for(graph.entrant_ids@.len() as int),
            forall|j: int| 0 <= j < edges@.len() ==> reference_edge_sound(*graph, node_count, #[trigger] edges@[j]),
            edges@.len() == k,
            forall|j: int| 0 <= j < edges@.len() ==> (#[trigger] edges@[j]).graph_index == j,
        decreases graph.edges@.len() - k,
    {
        let edge = &graph.edges[k];
        let first_node = entrant_node(&edge.first_entrant_id, &graph.entrant_ids)?;
        let second_node = match &edge.target {
            PairingEdgeTarget::Entrant(entrant_id) => entrant_node(entrant_id, &graph.entrant_ids)?,
            PairingEdgeTarget::Bye => if has_bye_node {
                graph.entrant_ids.len()
            } else {
                return Err(invalid(InvalidSolverOutputReason::UnexpectedBye));
            },
        };
        if first_node == second_node {
            return Err(invalid(InvalidSolverOutputReason::SelfPair));
        }
        let reference = ReferenceEdge { first_node, second_node, cost: edge.cost.value(), graph_index: k };
        proof {
            let ids = graph.entrant_ids@;
            assert forall|v: int| 0 <= v < node_count implies (#[trigger] edge_touches(*graph, k as int, v) <==> (v
                == first_node || v == second_node)) by {
                if 0 <= v < ids.len() && v != first_node as int {
                    if v < first_node {
                        assert(ids[v]@ != ids[first_node as int]@);
                    } else {
                        assert(ids[first_node as int]@ != ids[v]@);
                    }
                }
                if 0 <= v < ids.len() && v != second_node as int && second_node < ids.len() {
                    if v < second_node {
                        assert(ids[v]@ != ids[second_node as int]@);
                    } else {
                        assert(ids[second_node as int]@ != ids[v]@);
                    }
                }
            }
        }
        edges.push(reference);
        k = k + 1;
    }
    Ok(edges)
}

/// The other end of the edge, when `node` is one of its ends.
fn other_endpoint(edge: &ReferenceEdge, node: usize) -> (other: Option<usize>)
    ensures
        other == if edge.first_node == node {
            Some(edge.second_node)
        } else if edge.second_node == node {
            Some(edge.first_node)
        } else {
            None::<usize>
        },
{
    if edge.first_node == node {
        Some(edge.second_node)
    } else if edge.second_node == node {
        Some(edge.first_node)
    } else {
        None
    }
}

/// The listed candidate edges, none listed twice and each one of the
/// graph, meet every node of the graph exactly once.
pub open spec fn is_complete_matching(graph: PairingCandidateGraph, indices: Seq<usize>) -> bool {
    &&& indices.no_duplicates()
    &&& forall|i: int| 0 <= i < indices.len() ==> #[trigger] indices[i] < graph.edges@.len()
    &&& covers_each_node_once(graph, indices)
}

/// The total cost of the first `count` candidate edges.
pub open spec fn edges_total(edges: Seq<PairingCandidateEdge>, count: nat) -> int
    decreases count,
{
    if count == 0 {
        0
    } else {
        edges_total(edges, (count - 1) as nat) + edges[count - 1].cost.0
    }
}

/// Some entrant of the graph has the id.
pub open spec fn graph_knows(graph: PairingCandidateGraph, id: Seq<char>) -> bool {
    exists|i: int| 0 <= i < graph.entrant_ids@.len() && (#[trigger] graph.entrant_ids@[i])@ == id
}

/// Every edge joins a known entrant to another known entrant, or to the
/// bye node of an odd field.
pub open spec fn edges_well_formed(graph: PairingCandidateGraph) -> bool {
    forall|k: int| 0 <= k < graph.edges@.len() ==> {
        let edge = #[trigger] graph.edges@[k];
        &&& graph_knows(graph, edge.first_entrant_id@)
        &&& match edge.target {
            PairingEdgeTarget::Entrant(second) => graph_knows(graph, second@) && second@ != edge.first_entrant_id@,
            PairingEdgeTarget::Bye => graph.entrant_ids@.len() % 2 == 1,
        }
    }
}

/// A list of distinct edges among the first `count` costs no more than
/// those edges together.
proof fn lemma_distinct_cost_bound(edges: Seq<PairingCandidateEdge>, indices: Seq<usize>, count: nat)
    requires
        indices.no_duplicates(),
        forall|i: int| 0 <= i < indices.len() ==> #[trigger] indices[i] < count,
    ensures
        selected_cost(edges, indices, indices.len()) <= edges_total(edges, count),
    decreases count,
{
    if count == 0 {
        if indices.len() > 0 {
            assert(indices[0] < count);
        }
    } else {
        let top: int = count - 1;
        if exists|p: int| 0 <= p < indices.len() && indices[p] == top {
            let p = choose|p: int| 0 <= p < indices.len() && indices[p] == top;
            let rest = indices.remove(p);
            assert forall|i: int, j: int| 0 <= i < rest.len() && 0 <= j < rest.len() && i != j implies rest[i]
                != rest[j] by {
                let a = if i < p { i } else { i + 1 };
                let b = if j < p { j } else { j + 1 };
                assert(rest[i] == indices[a]);
                assert(rest[j] == indices[b]);
            }
            assert forall|i: int| 0 <= i < rest.len() implies #[trigger] rest[i] < top by {
                let a = if i < p { i } else { i + 1 };
                assert(rest[i] == indices[a]);
                assert(a != p);
            }
            lemma_distinct_cost_bound(edges, rest, top as nat);
            lemma_cost_remove(edges, indices, p);
        } else {
            assert forall|i: int| 0 <= i < indices.len() implies #[trigger] indices[i] < top by {
                assert(indices[i] != top);
            }
            lemma_distinct_cost_bound(edges, indices, top as nat);
        }
    }
}

/// A best matching is recorded and costs at most `cost`.
spec fn bound_holds(best: Option<ReferenceMatching>, cost: int) -> bool {
    best matches Some(matching) && matching.total_cost <= cost
}

/// A best matching is recorded and ranks no later than a matching of cost
/// `cost` listed as `listing`: it is cheaper, or as cheap and its listing
/// does not come after `listing` in lexicographic order.
spec fn ranks_first(best: Option<ReferenceMatching>, cost: int, listing: Seq<usize>) -> bool {
    best matches Some(matching) && (matching.total_cost < cost || (matching.total_cost == cost && !lex_less(
        listing,
        matching.edge_indices@,
    )))
}

/// Whenever a best matching was recorded before, one is recorded after that
/// ranks no later.
spec fn improves(before: Option<ReferenceMatching>, after: Option<ReferenceMatching>) -> bool {
    before matches Some(earlier) ==> ranks_first(after, earlier.total_cost as int, earlier.edge_indices@)
}

/// `listing` holds the edges of `indices` in strictly ascending order.
pub open spec fn ascending_listing(listing: Seq<usize>, indices: Seq<usize>) -> bool {
    &&& forall|i: int, j: int| 0 <= i < j < listing.len() ==> listing[i] < listing[j]
    &&& listing.to_multiset() == indices.to_multiset()
}

proof fn lemma_ranks_transfer(
    before: Option<ReferenceMatching>,
    after: Option<ReferenceMatching>,
    cost: int,
    listing: Seq<usize>,
)
    requires
        ranks_first(before, cost, listing),
        improves(before, after),
    ensures
        ranks_first(after, cost, listing),
{
    let earlier = before.unwrap();
    let later = after.unwrap();
    if later.total_cost == earlier.total_cost && earlier.total_cost == cost && lex_less(listing, later.edge_indices@) {
        lemma_lex_total(earlier.edge_indices@, later.edge_indices@);
        if lex_less(later.edge_indices@, earlier.edge_indices@) {
            lemma_lex_transitive(listing, later.edge_indices@, earlier.edge_indices@);
        }
    }
}

proof fn lemma_improves_reflexive(best: Option<ReferenceMatching>)
    ensures
        improves(best, best),
{
    if best is Some {
        lemma_lex_irreflexive(best.unwrap().edge_indices@);
    }
}

proof fn lemma_improves_transitive(
    first: Option<ReferenceMatching>,
    second: Option<ReferenceMatching>,
    third: Option<ReferenceMatching>,
)
    requires
        improves(first, second),
        improves(second, third),
    ensures
        improves(first, third),
{
    if first is Some {
        let earlier = first.unwrap();
        lemma_ranks_transfer(second, third, earlier.total_cost as int, earlier.edge_indices@);
    }
}

/// How many of the first `count` flags are set.
spec fn set_count(flags: Seq<bool>, count: nat) -> nat
    decreases count,
{
    if count == 0 {
        0
    } else {
        set_count(flags, (count - 1) as nat) + if flags[count - 1] { 1nat } else { 0nat }
    }
}

proof fn lemma_set_count_update(flags: Seq<bool>, a: int, count: nat)
    requires
        0 <= a < flags.len(),
        !flags[a],
        count <= flags.len(),
    ensures
        set_count(flags.update(a, true), count) == set_count(flags, count) + if a < count { 1nat } else { 0nat },
    decreases count,
{
    if count > 0 {
        lemma_set_count_update(flags, a, (count - 1) as nat);
    }
}

proof fn lemma_set_count_full(flags: Seq<bool>, count: nat)
    requires
        count <= flags.len(),
        forall|v: int| 0 <= v < count ==> #[trigger] flags[v],
    ensures
        set_count(flags, count) == count,
    decreases count,
{
    if count > 0 {
        lemma_set_count_full(flags, (count - 1) as nat);
    }
}

proof fn lemma_set_count_none(flags: Seq<bool>, count: nat)
    requires
        count <= flags.len(),
        forall|v: int| 0 <= v < count ==> !#[trigger] flags[v],
    ensures
        set_count(flags, count) == 0,
    decreases count,
{
    if count > 0 {
        lemma_set_count_none(flags, (count - 1) as nat);
    }
}

proof fn lemma_set_count_gap(flags: Seq<bool>, a: int, count: nat)
    requires
        0 <= a < count <= flags.len(),
        !flags[a],
    ensures
        set_count(flags, count) < count,
    decreases count,
{
    if a < count - 1 {
        lemma_set_count_gap(flags, a, (count - 1) as nat);
    } else {
        lemma_set_count_at_most(flags, (count - 1) as nat);
    }
}

proof fn lemma_set_count_at_most(flags: Seq<bool>, count: nat)
    requires
        count <= flags.len(),
    ensures
        set_count(flags, count) <= count,
    decreases count,
{
    if count > 0 {
        lemma_set_count_at_most(flags, (count - 1) as nat);
    }
}

proof fn lemma_cost_agree(edges: Seq<PairingCandidateEdge>, first: Seq<usize>, second: Seq<usize>, count: nat)
    requires
        count <= first.len(),
        count <= second.len(),
        forall|i: int| 0 <= i < count ==> first[i] == second[i],
    ensures
        selected_cost(edges, first, count) == selected_cost(edges, second, count),
    decreases count,
{
    if count > 0 {
        lemma_cost_agree(edges, first, second, (count - 1) as nat);
    }
}

proof fn lemma_cost_nonnegative(edges: Seq<PairingCandidateEdge>, indices: Seq<usize>, count: nat)
    ensures
        selected_cost(edges, indices, count) >= 0,
    decreases count,
{
    if count > 0 {
        lemma_cost_nonnegative(edges, indices, (count - 1) as nat);
    }
}

proof fn lemma_cost_monotone(edges: Seq<PairingCandidateEdge>, indices: Seq<usize>, shorter: nat, longer: nat)
    requires
        shorter <= longer,
    ensures
        selected_cost(edges, indices, shorter) <= selected_cost(edges, indices, longer),
    decreases longer - shorter,
{
    if shorter < longer {
        lemma_cost_monotone(edges, indices, shorter, (longer - 1) as nat);
    }
}

/// Taking one edge out of a list takes its cost out of the total.
proof fn lemma_cost_remove(edges: Seq<PairingCandidateEdge>, indices: Seq<usize>, position: int)
    requires
        0 <= position < indices.len(),
    ensures
        selected_cost(edges, indices, indices.len()) == selected_cost(
            edges,
            indices.remove(position),
            (indices.len() - 1) as nat,
        ) + edges[indices[position] as int].cost.0,
    decreases indices.len(),
{
    let last = indices.len() - 1;
    let rest = indices.remove(position);
    if position == last {
        lemma_cost_agree(edges, indices, rest, last as nat);
    } else {
        let shorter = indices.drop_last();
        lemma_cost_remove(edges, shorter, position);
        assert(shorter.remove(position) =~= rest.drop_last());
        lemma_cost_agree(edges, indices, shorter, last as nat);
        lemma_cost_agree(edges, rest, rest.drop_last(), (last - 1) as nat);
        assert(rest[last - 1] == indices[last]);
    }
}

/// Two lists holding the same edges have the same total.
pub(crate) proof fn lemma_cost_permutation(edges: Seq<PairingCandidateEdge>, first: Seq<usize>, second: Seq<usize>)
    requires
        first.to_multiset() =~= second.to_multiset(),
    ensures
        selected_cost(edges, first, first.len()) == selected_cost(edges, second, second.len()),
    decreases first.len(),
{
    vstd::seq_lib::to_multiset_len(first);
    vstd::seq_lib::to_multiset_len(second);
    if first.len() > 0 {
        let last = first.last();
        let shorter = first.drop_last();
        assert(first =~= shorter.push(last));
        vstd::seq_lib::to_multiset_build(shorter, last);
        vstd::seq_lib::to_multiset_contains(second, last);
        assert(first.to_multiset().count(last) > 0);
        assert(second.contains(last));
        let position = choose|q: int| 0 <= q < second.len() && second[q] == last;
        vstd::seq_lib::to_multiset_remove(second, position);
        assert(shorter.to_multiset() =~= second.remove(position).to_multiset());
        lemma_cost_permutation(edges, shorter, second.remove(position));
        lemma_cost_remove(edges, second, position);
        lemma_cost_agree(edges, first, shorter, shorter.len());
    }
}

/// Listing the edges of a complete matching in another order keeps it one.
proof fn lemma_complete_permutation(graph: PairingCandidateGraph, first: Seq<usize>, second: Seq<usize>)
    requires
        is_complete_matching(graph, first),
        first.to_multiset() =~= second.to_multiset(),
    ensures
        is_complete_matching(graph, second),
{
    first.lemma_multiset_has_no_duplicates();
    second.lemma_multiset_has_no_duplicates_conv();
    assert forall|i: int| 0 <= i < second.len() implies first.contains(#[trigger] second[i]) by {
        vstd::seq_lib::to_multiset_contains(second, second[i]);
        vstd::seq_lib::to_multiset_contains(first, second[i]);
    }
    assert forall|i: int| 0 <= i < first.len() implies second.contains(#[trigger] first[i]) by {
        vstd::seq_lib::to_multiset_contains(second, first[i]);
        vstd::seq_lib::to_multiset_contains(first, first[i]);
    }
    assert forall|i: int| 0 <= i < second.len() implies #[trigger] second[i] < graph.edges@.len() by {
        assert(first.contains(second[i]));
    }
    let node_count = node_count_for(graph.entrant_ids@.len() as int);
    assert forall|v: int| 0 <= v < node_count implies #[trigger] node_met(graph, second, v) by {
        assert(node_met(graph, first, v));
        let p = choose|p: int| 0 <= p < first.len() && edge_touches(graph, first[p] as int, v);
        assert(second.contains(first[p]));
        let q = choose|q: int| 0 <= q < second.len() && second[q] == first[p];
        assert(edge_touches(graph, second[q] as int, v));
    }
    assert forall|i: int, j: int, v: int|
        0 <= i < second.len() && 0 <= j < second.len() && i != j && 0 <= v < node_count && #[trigger] edge_touches(
            graph,
            second[i] as int,
            v,
        ) implies !#[trigger] edge_touches(graph, second[j] as int, v) by {
        assert(first.contains(second[i]));
        assert(first.contains(second[j]));
        let p = choose|p: int| 0 <= p < first.len() && first[p] == second[i];
        let q = choose|q: int| 0 <= q < first.len() && first[q] == second[j];
        assert(second[i] != second[j]);
        if edge_touches(graph, second[j] as int, v) {
            assert(edge_touches(graph, first[p] as int, v));
            assert(edge_touches(graph, first[q] as int, v));
        }
    }
}

/// The recorded best matching is valid for the graph.
pub open spec fn best_valid(graph: PairingCandidateGraph, best: Option<ReferenceMatching>) -> bool {
    best matches Some(matching) ==> reference_matching_valid(graph, matching)
}

/// Tries every edge at the first unmatched node and recurses; records each
/// complete matching that beats the best so far. Branches already costlier
/// than the best are cut. Every complete matching that extends the current
/// selection ends up no cheaper than the best recorded.
fn visit(
    graph: &PairingCandidateGraph,
    edges: &Vec<ReferenceEdge>,
    matched: &mut Vec<bool>,
    selected: &mut Vec<usize>,
    best: &mut Option<ReferenceMatching>,
    current_cost: u64,
    depth: usize,
) -> (outcome: Result<(), BlossomPairingError>)
    requires
        graph.entrant_ids@.len() <= MAXIMUM_REFERENCE_NODE_COUNT,
        best_valid(*graph, *old(best)),
        old(matched)@.len() == node_count_for(graph.entrant_ids@.len() as int),
        forall|k: int| 0 <= k < edges@.len() ==> reference_edge_sound(*graph, old(matched)@.len() as int, #[trigger] edges@[k]),
        edges@.len() == graph.edges@.len(),
        forall|k: int| 0 <= k < edges@.len() ==> (#[trigger] edges@[k]).graph_index == k,
        selection_consistent(*graph, old(matched)@, old(selected)@),
        set_count(old(matched)@, old(matched)@.len()) == 2 * old(selected)@.len(),
        current_cost == selected_cost(graph.edges@, old(selected)@, old(selected)@.len()),
        depth + old(selected)@.len() > old(matched)@.len() / 2,
    ensures
        best_valid(*graph, *final(best)),
        final(matched)@.len() == old(matched)@.len(),
        outcome is Ok ==> final(selected)@ == old(selected)@ && final(matched)@ == old(matched)@,
        outcome is Ok ==> improves(*old(best), *final(best)),
        outcome is Ok ==> forall|extra: Seq<usize>| #[trigger] is_complete_matching(*graph, old(selected)@ + extra) ==> bound_holds(
            *final(best),
            current_cost + selected_cost(graph.edges@, extra, extra.len()),
        ),
        outcome is Ok ==> forall|extra: Seq<usize>, listing: Seq<usize>|
            #![trigger is_complete_matching(*graph, old(selected)@ + extra), ascending_listing(listing, old(selected)@ + extra)]
            is_complete_matching(*graph, old(selected)@ + extra) && ascending_listing(listing, old(selected)@ + extra)
                ==> ranks_first(*final(best), current_cost + selected_cost(graph.edges@, extra, extra.len()), listing),
        outcome matches Err(e) ==> e == (BlossomPairingError::PairingCostOverflow {
            component: PairingCostComponent::Total,
        }),
        outcome is Err ==> edges_total(graph.edges@, graph.edges@.len()) > u64::MAX,
    decreases depth,
{
    let pruned = match best {
        Some(current_best) => current_cost > current_best.total_cost,
        None => false,
    };
    if pruned {
        proof {
            assert forall|extra: Seq<usize>| #[trigger] is_complete_matching(*graph, selected@ + extra) implies bound_holds(
                *best,
                current_cost + selected_cost(graph.edges@, extra, extra.len()),
            ) by {
                lemma_cost_nonnegative(graph.edges@, extra, extra.len());
            }
            assert forall|extra: Seq<usize>, listing: Seq<usize>|
                #![trigger is_complete_matching(*graph, selected@ + extra), ascending_listing(listing, selected@ + extra)]
                is_complete_matching(*graph, selected@ + extra) && ascending_listing(listing, selected@ + extra)
                    implies ranks_first(*best, current_cost + selected_cost(graph.edges@, extra, extra.len()), listing) by {
                lemma_cost_nonnegative(graph.edges@, extra, extra.len());
            }
            lemma_improves_reflexive(*best);
        }
        return Ok(());
    }
    let mut first_unmatched: usize = 0;
    while first_unmatched < matched.len() && matched[first_unmatched]
        invariant
            first_unmatched <= matched@.len(),
            forall|q: int| 0 <= q < first_unmatched ==> #[trigger] matched@[q],
        decreases matched@.len() - first_unmatched,
    {
        first_unmatched = first_unmatched + 1;
    }
    if first_unmatched == matched.len() {
        proof {
            lemma_set_count_full(matched@, matched@.len());
            lemma_complete_extension_empty(*graph, edges@, matched@, selected@);
        }
        let recorded = record_complete_matching(graph, matched, selected, best);
        proof {
            assert forall|extra: Seq<usize>, listing: Seq<usize>|
                #![trigger is_complete_matching(*graph, selected@ + extra), ascending_listing(listing, selected@ + extra)]
                recorded is Ok && is_complete_matching(*graph, selected@ + extra) && ascending_listing(
                    listing,
                    selected@ + extra,
                ) implies ranks_first(*best, current_cost + selected_cost(graph.edges@, extra, extra.len()), listing) by {
                assert(selected@ + extra == selected@);
                assert(ascending_listing(listing, selected@));
            }
        }
        return recorded;
    }
    proof {
        lemma_set_count_gap(matched@, first_unmatched as int, matched@.len());
    }
    if depth == 0 {
        return Err(invalid(InvalidSolverOutputReason::InvalidBlossomStructure));
    }
    let ghost original_matched = matched@;
    let ghost original_selected = selected@;
    let ghost original_best = *best;
    proof {
        lemma_improves_reflexive(*best);
    }
    let mut edge_index: usize = 0;
    while edge_index < edges.len()
        invariant
            graph.entrant_ids@.len() <= MAXIMUM_REFERENCE_NODE_COUNT,
            best_valid(*graph, *best),
            first_unmatched < matched@.len(),
            !matched@[first_unmatched as int],
            matched@ == original_matched,
            selected@ == original_selected,
            original_matched == old(matched)@,
            original_selected == old(selected)@,
            original_best == *old(best),
            matched@.len() == node_count_for(graph.entrant_ids@.len() as int),
            depth > 0,
            depth + selected@.len() > matched@.len() / 2,
            forall|k: int| 0 <= k < edges@.len() ==> reference_edge_sound(*graph, matched@.len() as int, #[trigger] edges@[k]),
            edges@.len() == graph.edges@.len(),
            forall|k: int| 0 <= k < edges@.len() ==> (#[trigger] edges@[k]).graph_index == k,
            selection_consistent(*graph, matched@, selected@),
            set_count(matched@, matched@.len()) == 2 * selected@.len(),
            current_cost == selected_cost(graph.edges@, selected@, selected@.len()),
            improves(original_best, *best),
            forall|extra: Seq<usize>, p: int|
                #![trigger is_complete_matching(*graph, original_selected + extra), extra[p]]
                is_complete_matching(*graph, original_selected + extra) && 0 <= p < extra.len() && extra[p]
                    < edge_index && edge_touches(*graph, extra[p] as int, first_unmatched as int) ==> bound_holds(
                    *best,
                    current_cost + selected_cost(graph.edges@, extra, extra.len()),
                ),
            forall|extra: Seq<usize>, p: int, listing: Seq<usize>|
                #![trigger is_complete_matching(*graph, original_selected + extra), extra[p], ascending_listing(listing, original_selected + extra)]
                is_complete_matching(*graph, original_selected + extra) && 0 <= p < extra.len() && extra[p]
                    < edge_index && edge_touches(*graph, extra[p] as int, first_unmatched as int) && ascending_listing(
                    listing,
                    original_selected + extra,
                ) ==> ranks_first(*best, current_cost + selected_cost(graph.edges@, extra, extra.len()), listing),
        decreases edges@.len() - edge_index,
    {
        let edge = edges[edge_index];
        let ghost g = edge_index as int;
        edge_index = edge_index + 1;
        proof {
            assert(reference_edge_sound(*graph, matched@.len() as int, edges@[g]));
        }
        let other_node = match other_endpoint(&edge, first_unmatched) {
            Some(other) => other,
            None => {
                proof {
                    assert(!edge_touches(*graph, g, first_unmatched as int));
                }
                continue;
            },
        };
        if other_node >= matched.len() || matched[other_node] {
            proof {
                lemma_edge_blocked(*graph, matched@, selected@, g, other_node as int);
            }
            continue;
        }
        let next_cost = match current_cost.checked_add(edge.cost) {
            Some(cost) => cost,
            None => {
                proof {
                    lemma_overflow_exceeds_total(*graph, matched@, selected@, edge.graph_index, first_unmatched as int);
                }
                return Err(BlossomPairingError::PairingCostOverflow { component: PairingCostComponent::Total });
            },
        };
        proof {
            lemma_select_edge(*graph, matched@, selected@, edge, first_unmatched as int, other_node as int);
            lemma_set_count_update(matched@, first_unmatched as int, matched@.len());
            lemma_set_count_update(matched@.update(first_unmatched as int, true), other_node as int, matched@.len());
            lemma_cost_agree(graph.edges@, selected@.push(edge.graph_index), selected@, selected@.len());
        }
        let ghost best_before = *best;
        matched.set(first_unmatched, true);
        matched.set(other_node, true);
        selected.push(edge.graph_index);
        visit(graph, edges, matched, selected, best, next_cost, depth - 1)?;
        selected.pop();
        matched.set(first_unmatched, false);
        matched.set(other_node, false);
        proof {
            assert(selected@ =~= original_selected);
            assert(matched@ =~= original_matched);
            assert forall|extra: Seq<usize>, p: int|
                #![trigger is_complete_matching(*graph, original_selected + extra), extra[p]]
                is_complete_matching(*graph, original_selected + extra) && 0 <= p < extra.len() && extra[p]
                    < edge_index && edge_touches(*graph, extra[p] as int, first_unmatched as int) implies bound_holds(
                    *best,
                    current_cost + selected_cost(graph.edges@, extra, extra.len()),
                ) by {
                if extra[p] == g {
                    lemma_extension_step(*graph, original_selected, extra, p);
                    lemma_cost_remove(graph.edges@, extra, p);
                    assert(is_complete_matching(*graph, original_selected.push(edge.graph_index) + extra.remove(p)));
                }
            }
            lemma_improves_transitive(original_best, best_before, *best);
            assert forall|extra: Seq<usize>, p: int, listing: Seq<usize>|
                #![trigger is_complete_matching(*graph, original_selected + extra), extra[p], ascending_listing(listing, original_selected + extra)]
                is_complete_matching(*graph, original_selected + extra) && 0 <= p < extra.len() && extra[p]
                    < edge_index && edge_touches(*graph, extra[p] as int, first_unmatched as int) && ascending_listing(
                    listing,
                    original_selected + extra,
                ) implies ranks_first(*best, current_cost + selected_cost(graph.edges@, extra, extra.len()), listing) by {
                if extra[p] == g {
                    lemma_extension_step(*graph, original_selected, extra, p);
                    lemma_cost_remove(graph.edges@, extra, p);
                    assert(is_complete_matching(*graph, original_selected.push(edge.graph_index) + extra.remove(p)));
                    assert(ascending_listing(listing, original_selected.push(edge.graph_index) + extra.remove(p)));
                } else {
                    lemma_ranks_transfer(
                        best_before,
                        *best,
                        current_cost + selected_cost(graph.edges@, extra, extra.len()),
                        listing,
                    );
                }
            }
        }
    }
    proof {
        assert forall|extra: Seq<usize>| #[trigger] is_complete_matching(*graph, selected@ + extra) implies bound_holds(
            *best,
            current_cost + selected_cost(graph.edges@, extra, extra.len()),
        ) by {
            let p = lemma_extension_meets(*graph, matched@, selected@, extra, first_unmatched as int);
        }
        assert forall|extra: Seq<usize>, listing: Seq<usize>|
            #![trigger is_complete_matching(*graph, selected@ + extra), ascending_listing(listing, selected@ + extra)]
            is_complete_matching(*graph, selected@ + extra) && ascending_listing(listing, selected@ + extra)
                implies ranks_first(*best, current_cost + selected_cost(graph.edges@, extra, extra.len()), listing) by {
            let p = lemma_extension_meets(*graph, matched@, selected@, extra, first_unmatched as int);
        }
    }
    Ok(())
}

/// The selection with one more edge at an unmatched node lists distinct
/// edges, so its cost is bounded by the total of all edges.
proof fn lemma_overflow_exceeds_total(
    graph: PairingCandidateGraph,
    matched: Seq<bool>,
    selected: Seq<usize>,
    g: usize,
    node: int,
)
    requires
        selection_consistent(graph, matched, selected),
        0 <= node < matched.len(),
        !matched[node],
        g < graph.edges@.len(),
        edge_touches(graph, g as int, node),
    ensures
        selected_cost(graph.edges@, selected, selected.len()) + graph.edges@[g as int].cost.0 <= edges_total(
            graph.edges@,
            graph.edges@.len(),
        ),
{
    let longer = selected.push(g);
    assert forall|i: int| 0 <= i < selected.len() implies #[trigger] selected[i] != g by {
        if selected[i] == g {
            assert(edge_touches(graph, selected[i] as int, node));
        }
    }
    assert forall|i: int, j: int| 0 <= i < longer.len() && 0 <= j < longer.len() && i != j implies longer[i]
        != longer[j] by {
        if i < selected.len() && j < selected.len() {
            assert(longer[i] == selected[i] && longer[j] == selected[j]);
        } else if i < selected.len() {
            assert(longer[i] == selected[i]);
        } else {
            assert(longer[j] == selected[j]);
        }
    }
    assert forall|i: int| 0 <= i < longer.len() implies #[trigger] longer[i] < graph.edges@.len() by {
        if i < selected.len() {
            assert(longer[i] == selected[i]);
        }
    }
    lemma_distinct_cost_bound(graph.edges@, longer, graph.edges@.len());
    lemma_cost_agree(graph.edges@, longer, selected, selected.len());
}

/// An edge at a node that the selection already meets extends no complete
/// matching of the selection.
proof fn lemma_edge_blocked(
    graph: PairingCandidateGraph,
    matched: Seq<bool>,
    selected: Seq<usize>,
    g: int,
    other: int,
)
    requires
        selection_consistent(graph, matched, selected),
        matched.len() == node_count_for(graph.entrant_ids@.len() as int),
        0 <= other < matched.len(),
        matched[other],
        edge_touches(graph, g, other),
    ensures
        forall|extra: Seq<usize>, p: int|
            #![trigger is_complete_matching(graph, selected + extra), extra[p]]
            is_complete_matching(graph, selected + extra) && 0 <= p < extra.len() ==> extra[p] != g,
{
    assert forall|extra: Seq<usize>, p: int|
        #![trigger is_complete_matching(graph, selected + extra), extra[p]]
        is_complete_matching(graph, selected + extra) && 0 <= p < extra.len() implies extra[p] != g by {
        if extra[p] == g {
            let all = selected + extra;
            let i = choose|i: int| 0 <= i < selected.len() && edge_touches(graph, selected[i] as int, other);
            assert(all[i] == selected[i]);
            assert(all[selected.len() + p] == extra[p]);
            assert(edge_touches(graph, all[i] as int, other));
            assert(edge_touches(graph, all[selected.len() + p] as int, other));
        }
    }
}

/// Moving one edge of the extension into the selection keeps a complete
/// matching complete.
proof fn lemma_extension_step(graph: PairingCandidateGraph, selected: Seq<usize>, extra: Seq<usize>, p: int)
    requires
        is_complete_matching(graph, selected + extra),
        0 <= p < extra.len(),
    ensures
        is_complete_matching(graph, selected.push(extra[p]) + extra.remove(p)),
        (selected + extra).to_multiset() == (selected.push(extra[p]) + extra.remove(p)).to_multiset(),
{
    let moved = selected.push(extra[p]) + extra.remove(p);
    vstd::seq_lib::lemma_multiset_commutative(selected, extra);
    vstd::seq_lib::lemma_multiset_commutative(selected.push(extra[p]), extra.remove(p));
    vstd::seq_lib::to_multiset_build(selected, extra[p]);
    vstd::seq_lib::to_multiset_remove(extra, p);
    vstd::seq_lib::to_multiset_contains(extra, extra[p]);
    assert(extra.to_multiset().remove(extra[p]).insert(extra[p]) =~= extra.to_multiset());
    assert((selected + extra).to_multiset() =~= moved.to_multiset());
    lemma_complete_permutation(graph, selected + extra, moved);
}

/// A complete matching that extends the selection meets the unmatched node
/// with an edge of its extension.
proof fn lemma_extension_meets(
    graph: PairingCandidateGraph,
    matched: Seq<bool>,
    selected: Seq<usize>,
    extra: Seq<usize>,
    node: int,
) -> (p: int)
    requires
        selection_consistent(graph, matched, selected),
        matched.len() == node_count_for(graph.entrant_ids@.len() as int),
        0 <= node < matched.len(),
        !matched[node],
        is_complete_matching(graph, selected + extra),
    ensures
        0 <= p < extra.len(),
        extra[p] < graph.edges@.len(),
        edge_touches(graph, extra[p] as int, node),
{
    let all = selected + extra;
    assert(node_met(graph, all, node));
    let i = choose|i: int| 0 <= i < all.len() && edge_touches(graph, all[i] as int, node);
    if i < selected.len() {
        assert(all[i] == selected[i]);
        assert(false);
    }
    let p = i - selected.len();
    assert(all[i] == extra[p]);
    assert(all[i] < graph.edges@.len());
    p
}

/// With every node matched, the selection itself is the only complete
/// matching that extends it.
proof fn lemma_complete_extension_empty(
    graph: PairingCandidateGraph,
    edges: Seq<ReferenceEdge>,
    matched: Seq<bool>,
    selected: Seq<usize>,
)
    requires
        selection_consistent(graph, matched, selected),
        matched.len() == node_count_for(graph.entrant_ids@.len() as int),
        forall|v: int| 0 <= v < matched.len() ==> #[trigger] matched[v],
        forall|k: int| 0 <= k < edges.len() ==> reference_edge_sound(graph, matched.len() as int, #[trigger] edges[k]),
        edges.len() == graph.edges@.len(),
        forall|k: int| 0 <= k < edges.len() ==> (#[trigger] edges[k]).graph_index == k,
    ensures
        forall|extra: Seq<usize>| #[trigger] is_complete_matching(graph, selected + extra) ==> extra.len() == 0
            && selected + extra == selected,
{
    assert forall|extra: Seq<usize>| #[trigger] is_complete_matching(graph, selected + extra) implies extra.len() == 0
        && selected + extra == selected by {
        if extra.len() > 0 {
            let all = selected + extra;
            let g = extra[0] as int;
            assert(all[selected.len() as int] == extra[0]);
            assert(g < graph.edges@.len());
            let edge = edges[g];
            assert(reference_edge_sound(graph, matched.len() as int, edge));
            let v = edge.first_node as int;
            assert(edge_touches(graph, g, v));
            assert(matched[v]);
            let i = choose|i: int| 0 <= i < selected.len() && edge_touches(graph, selected[i] as int, v);
            assert(all[i] == selected[i]);
            assert(edge_touches(graph, all[i] as int, v));
            assert(edge_touches(graph, all[selected.len() as int] as int, v));
        }
        assert(selected + extra =~= selected);
    }
}

/// `first` comes strictly before `second` in lexicographic order, a proper
/// prefix before the longer list.
pub open spec fn lex_less(first: Seq<usize>, second: Seq<usize>) -> bool
    decreases first.len(),
{
    if first.len() == 0 {
        second.len() > 0
    } else if second.len() == 0 {
        false
    } else if first[0] != second[0] {
        first[0] < second[0]
    } else {
        lex_less(first.drop_first(), second.drop_first())
    }
}

proof fn lemma_lex_irreflexive(list: Seq<usize>)
    ensures
        !lex_less(list, list),
    decreases list.len(),
{
    if list.len() > 0 {
        lemma_lex_irreflexive(list.drop_first());
    }
}

proof fn lemma_lex_transitive(first: Seq<usize>, second: Seq<usize>, third: Seq<usize>)
    requires
        lex_less(first, second),
        lex_less(second, third),
    ensures
        lex_less(first, third),
    decreases first.len(),
{
    if first.len() > 0 && second.len() > 0 && third.len() > 0 && first[0] == second[0] && second[0] == third[0] {
        lemma_lex_transitive(first.drop_first(), second.drop_first(), third.drop_first());
    }
}

proof fn lemma_lex_total(first: Seq<usize>, second: Seq<usize>)
    ensures
        lex_less(first, second) || lex_less(second, first) || first == second,
    decreases first.len(),
{
    if first.len() > 0 && second.len() > 0 && first[0] == second[0] {
        lemma_lex_total(first.drop_first(), second.drop_first());
        if first.drop_first() == second.drop_first() {
            lemma_same_head_and_tail(first, second);
        }
    } else if first.len() == 0 && second.len() == 0 {
        assert(first =~= second);
    }
}

proof fn lemma_same_head_and_tail(first: Seq<usize>, second: Seq<usize>)
    requires
        first.len() > 0,
        second.len() > 0,
        first[0] == second[0],
        first.drop_first() == second.drop_first(),
    ensures
        first == second,
{
    assert(first.len() == first.drop_first().len() + 1);
    assert(second.len() == second.drop_first().len() + 1);
    assert forall|i: int| 0 <= i < first.len() implies first[i] == second[i] by {
        if i > 0 {
            assert(first[i] == first.drop_first()[i - 1]);
            assert(second[i] == second.drop_first()[i - 1]);
        }
    }
    assert(first.len() == first.drop_first().len() + 1);
    assert(first =~= second);
}

/// Two strictly ascending lists of the same edges are the same list.
proof fn lemma_ascending_unique(first: Seq<usize>, second: Seq<usize>)
    requires
        forall|i: int, j: int| 0 <= i < j < first.len() ==> first[i] < first[j],
        forall|i: int, j: int| 0 <= i < j < second.len() ==> second[i] < second[j],
        first.to_multiset() =~= second.to_multiset(),
    ensures
        first == second,
    decreases first.len(),
{
    vstd::seq_lib::to_multiset_len(first);
    vstd::seq_lib::to_multiset_len(second);
    if first.len() == 0 {
        assert(first =~= second);
    } else {
        vstd::seq_lib::to_multiset_contains(first, second[0]);
        vstd::seq_lib::to_multiset_contains(second, second[0]);
        vstd::seq_lib::to_multiset_contains(first, first[0]);
        vstd::seq_lib::to_multiset_contains(second, first[0]);
        assert(second.contains(second[0]));
        assert(first.contains(first[0]));
        let a = choose|a: int| 0 <= a < first.len() && first[a] == second[0];
        let b = choose|b: int| 0 <= b < second.len() && second[b] == first[0];
        assert(first[0] <= first[a]);
        assert(second[0] <= second[b]);
        assert(first[0] == second[0]);
        vstd::seq_lib::to_multiset_remove(first, 0);
        vstd::seq_lib::to_multiset_remove(second, 0);
        assert(first.remove(0) =~= first.drop_first());
        assert(second.remove(0) =~= second.drop_first());
        lemma_ascending_unique(first.drop_first(), second.drop_first());
        lemma_same_head_and_tail(first, second);
    }
}

/// Lexicographic order of two index lists.
fn indices_less(a: &Vec<usize>, b: &Vec<usize>) -> (less: bool)
    ensures
        less == lex_less(a@, b@),
{
    let mut i: usize = 0;
    proof {
        assert(a@.skip(0) =~= a@);
        assert(b@.skip(0) =~= b@);
    }
    while i < a.len() && i < b.len()
        invariant
            i <= a@.len(),
            i <= b@.len(),
            lex_less(a@, b@) == lex_less(a@.skip(i as int), b@.skip(i as int)),
        decreases a@.len() - i,
    {
        if a[i] < b[i] {
            return true;
        }
        if a[i] > b[i] {
            return false;
        }
        assert(a@.skip(i as int).drop_first() =~= a@.skip(i + 1));
        assert(b@.skip(i as int).drop_first() =~= b@.skip(i + 1));
        i = i + 1;
    }
    a.len() < b.len()
}

/// The indices in ascending order.
fn sort_indices(values: &Vec<usize>) -> (sorted: Vec<usize>)
    ensures
        sorted@.to_multiset() == values@.to_multiset(),
        forall|i: int, j: int| 0 <= i < j < sorted@.len() ==> sorted@[i] <= sorted@[j],
{
    let mut sorted: Vec<usize> = Vec::new();
    let mut k: usize = 0;
    proof {
        assert(values@.take(0) =~= Seq::<usize>::empty());
        assert(sorted@ =~= Seq::<usize>::empty());
    }
    while k < values.len()
        invariant
            k <= values@.len(),
            sorted@.to_multiset() == values@.take(k as int).to_multiset(),
            forall|i: int, j: int| 0 <= i < j < sorted@.len() ==> sorted@[i] <= sorted@[j],
        decreases values@.len() - k,
    {
        let value = values[k];
        let mut position: usize = 0;
        while position < sorted.len() && sorted[position] <= value
            invariant
                position <= sorted@.len(),
                forall|q: int| 0 <= q < position ==> #[trigger] sorted@[q] <= value,
            decreases sorted@.len() - position,
        {
            position = position + 1;
        }
        let ghost before = sorted@;
        sorted.insert(position, value);
        proof {
            assert(sorted@ == before.insert(position as int, value));
            vstd::seq_lib::to_multiset_insert(before, position as int, value);
            assert(values@.take(k + 1) =~= values@.take(k as int).push(value));
            vstd::seq_lib::to_multiset_build(values@.take(k as int), value);
            assert forall|i: int, j: int| 0 <= i < j < sorted@.len() implies sorted@[i] <= sorted@[j] by {
                if j < position {
                    assert(sorted@[i] == before[i] && sorted@[j] == before[j]);
                } else if j == position {
                    assert(sorted@[i] == before[i]);
                } else if i == position {
                    assert(sorted@[j] == before[j - 1]);
                } else if i < position {
                    assert(sorted@[i] == before[i] && sorted@[j] == before[j - 1]);
                } else {
                    assert(sorted@[i] == before[i - 1] && sorted@[j] == before[j - 1]);
                }
            }
        }
        k = k + 1;
    }
    proof {
        assert(values@.take(values@.len() as int) =~= values@);
    }
    sorted
}

/// A permutation, in ascending order, of a consistent complete selection
/// is strictly ascending and meets every node once.
proof fn lemma_sorted_selection(graph: PairingCandidateGraph, matched: Seq<bool>, selected: Seq<usize>, sorted: Seq<usize>)
    requires
        selection_consistent(graph, matched, selected),
        matched.len() == node_count_for(graph.entrant_ids@.len() as int),
        forall|v: int| 0 <= v < matched.len() ==> #[trigger] matched[v],
        sorted.to_multiset() == selected.to_multiset(),
        forall|i: int, j: int| 0 <= i < j < sorted.len() ==> sorted[i] <= sorted[j],
    ensures
        sorted.len() == selected.len(),
        forall|i: int, j: int| 0 <= i < j < sorted.len() ==> sorted[i] < sorted[j],
        forall|i: int| 0 <= i < sorted.len() ==> #[trigger] sorted[i] < graph.edges@.len(),
        covers_each_node_once(graph, sorted),
{
    vstd::seq_lib::to_multiset_len(sorted);
    vstd::seq_lib::to_multiset_len(selected);
    assert(selected.no_duplicates());
    selected.lemma_multiset_has_no_duplicates();
    sorted.lemma_multiset_has_no_duplicates_conv();
    assert forall|i: int| 0 <= i < sorted.len() implies selected.contains(#[trigger] sorted[i]) by {
        vstd::seq_lib::to_multiset_contains(sorted, sorted[i]);
        vstd::seq_lib::to_multiset_contains(selected, sorted[i]);
    }
    assert forall|i: int| 0 <= i < selected.len() implies sorted.contains(#[trigger] selected[i]) by {
        vstd::seq_lib::to_multiset_contains(sorted, selected[i]);
        vstd::seq_lib::to_multiset_contains(selected, selected[i]);
    }
    assert forall|i: int, j: int| 0 <= i < j < sorted.len() implies sorted[i] < sorted[j] by {
        assert(sorted[i] <= sorted[j]);
        assert(sorted[i] != sorted[j]);
    }
    assert forall|i: int| 0 <= i < sorted.len() implies #[trigger] sorted[i] < graph.edges@.len() by {
        assert(selected.contains(sorted[i]));
    }
    let node_count = node_count_for(graph.entrant_ids@.len() as int);
    assert forall|v: int| 0 <= v < node_count implies #[trigger] node_met(graph, sorted, v) by {
        assert(matched[v]);
        let p = choose|p: int| 0 <= p < selected.len() && edge_touches(graph, selected[p] as int, v);
        assert(sorted.contains(selected[p]));
        let q = choose|q: int| 0 <= q < sorted.len() && sorted[q] == selected[p];
        assert(edge_touches(graph, sorted[q] as int, v));
    }
    assert forall|i: int, j: int, v: int|
        0 <= i < sorted.len() && 0 <= j < sorted.len() && i != j && 0 <= v < node_count && #[trigger] edge_touches(
            graph,
            sorted[i] as int,
            v,
        ) implies !#[trigger] edge_touches(graph, sorted[j] as int, v) by {
        assert(selected.contains(sorted[i]));
        assert(selected.contains(sorted[j]));
        let p = choose|p: int| 0 <= p < selected.len() && selected[p] == sorted[i];
        let q = choose|q: int| 0 <= q < selected.len() && selected[q] == sorted[j];
        assert(sorted[i] != sorted[j]);
        assert(p != q);
        if edge_touches(graph, sorted[j] as int, v) {
            assert(edge_touches(graph, selected[p] as int, v));
            assert(edge_touches(graph, selected[q] as int, v));
        }
    }
}

/// The total cost of the listed candidate edges.
fn total_of(graph: &PairingCandidateGraph, indices: &Vec<usize>) -> (outcome: Result<u64, BlossomPairingError>)
    requires
        forall|i: int| 0 <= i < indices@.len() ==> #[trigger] indices@[i] < graph.edges@.len(),
    ensures
        outcome matches Ok(total) ==> total == selected_cost(graph.edges@, indices@, indices@.len()),
        outcome matches Err(e) ==> e == (BlossomPairingError::PairingCostOverflow {
            component: PairingCostComponent::Total,
        }),
        outcome is Err ==> selected_cost(graph.edges@, indices@, indices@.len()) > u64::MAX,
{
    let mut total: u64 = 0;
    let mut k: usize = 0;
    while k < indices.len()
        invariant
            k <= indices@.len(),
            forall|i: int| 0 <= i < indices@.len() ==> #[trigger] indices@[i] < graph.edges@.len(),
            total == selected_cost(graph.edges@, indices@, k as nat),
        decreases indices@.len() - k,
    {
        total = match total.checked_add(graph.edges[indices[k]].cost.value()) {
            Some(sum) => sum,
            None => {
                proof {
                    lemma_cost_monotone(graph.edges@, indices@, (k + 1) as nat, indices@.len());
                }
                return Err(BlossomPairingError::PairingCostOverflow { component: PairingCostComponent::Total });
            },
        };
        k = k + 1;
    }
    Ok(total)
}

/// Keeps the complete matching in `selected` when it is cheaper than the
/// best so far, or as cheap with a smaller edge list.
fn record_complete_matching(
    graph: &PairingCandidateGraph,
    matched: &Vec<bool>,
    selected: &Vec<usize>,
    best: &mut Option<ReferenceMatching>,
) -> (outcome: Result<(), BlossomPairingError>)
    requires
        graph.entrant_ids@.len() <= MAXIMUM_REFERENCE_NODE_COUNT,
        best_valid(*graph, *old(best)),
        selection_consistent(*graph, matched@, selected@),
        matched@.len() == node_count_for(graph.entrant_ids@.len() as int),
        forall|v: int| 0 <= v < matched@.len() ==> #[trigger] matched@[v],
        selected@.len() == matched@.len() / 2,
    ensures
        best_valid(*graph, *final(best)),
        outcome is Ok ==> improves(*old(best), *final(best)),
        outcome is Ok ==> bound_holds(*final(best), selected_cost(graph.edges@, selected@, selected@.len())),
        outcome is Ok ==> forall|listing: Seq<usize>| #[trigger] ascending_listing(listing, selected@) ==> ranks_first(
            *final(best),
            selected_cost(graph.edges@, selected@, selected@.len()),
            listing,
        ),
        outcome matches Err(e) ==> e == (BlossomPairingError::PairingCostOverflow {
            component: PairingCostComponent::Total,
        }),
        outcome is Err ==> edges_total(graph.edges@, graph.edges@.len()) > u64::MAX,
{
    let edge_indices = sort_indices(selected);
    proof {
        lemma_sorted_selection(*graph, matched@, selected@, edge_indices@);
        lemma_cost_permutation(graph.edges@, edge_indices@, selected@);
        let sorted = edge_indices@;
        assert forall|i: int, j: int| 0 <= i < sorted.len() && 0 <= j < sorted.len() && i != j implies sorted[i]
            != sorted[j] by {
            if i < j {
                assert(sorted[i] < sorted[j]);
            } else {
                assert(sorted[j] < sorted[i]);
            }
        }
        lemma_distinct_cost_bound(graph.edges@, sorted, graph.edges@.len());
    }
    let total_cost = total_of(graph, &edge_indices)?;
    let ghost before = *best;
    let replace = match best {
        None => true,
        Some(current) => total_cost < current.total_cost || (total_cost == current.total_cost && indices_less(
            &edge_indices,
            &current.edge_indices,
        )),
    };
    let ghost sorted = edge_indices@;
    if replace {
        *best = Some(ReferenceMatching { edge_indices, total_cost });
        proof {
            lemma_lex_irreflexive(sorted);
            if before is Some {
                let earlier = before.unwrap();
                if lex_less(earlier.edge_indices@, sorted) && lex_less(sorted, earlier.edge_indices@) {
                    lemma_lex_transitive(sorted, earlier.edge_indices@, sorted);
                }
            }
        }
    } else {
        proof {
            lemma_improves_reflexive(before);
        }
    }
    proof {
        assert forall|listing: Seq<usize>| #[trigger] ascending_listing(listing, selected@) implies ranks_first(
            *best,
            selected_cost(graph.edges@, selected@, selected@.len()),
            listing,
        ) by {
            lemma_ascending_unique(listing, sorted);
        }
    }
    Ok(())
}

} // verus!
