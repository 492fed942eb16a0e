use vstd::prelude::*;

use crate::identity::EntrantId;

use super::reference_solver::{edges_well_formed, graph_knows, ids_distinct};
use super::{
    BlossomPairingError, InvalidSolverOutputReason, PairingCandidateGraph, PairingEdgeTarget,
};

verus! {

/// The candidate graph with entrants as numbered nodes, plus one node for
/// the bye in an odd field. Parallel candidate edges collapse to the first.
pub struct SolverGraph {
    pub entrant_ids: Vec<EntrantId>,
    pub adjacency: Vec<Vec<usize>>,
    pub edges: Vec<SolverEdge>,
}

#[derive(Clone, Copy, Debug, PartialEq, Eq, Structural)]
pub struct SolverEdge {
    pub first_node: usize,
    pub second_node: usize,
    pub candidate_edge_index: usize,
}

/// The candidate graph can be numbered: its entrant ids are distinct, every
/// edge joins a known entrant to another or to the bye node of an odd field,
/// and the node count squared fits a `usize`.
pub open spec fn solver_graph_buildable(candidate_graph: PairingCandidateGraph) -> bool {
    let n = candidate_graph.entrant_ids@.len() as int;
    &&& ids_distinct(candidate_graph)
    &&& edges_well_formed(candidate_graph)
    &&& n < usize::MAX / 2
    &&& node_count_for(n) * node_count_for(n) <= usize::MAX
}

/// The nodes of a graph on `entrant_count` entrants: one per entrant and one
/// more for the bye when the count is odd.
pub open spec fn node_count_for(entrant_count: int) -> int {
    entrant_count + if entrant_count % 2 == 1 { 1int } else { 0int }
}

/// Candidate edge `k` runs from node `v` to node `w`: `v` is the position
/// of its first entrant and `w` that of its second, or the bye node after
/// the last entrant.
pub open spec fn edge_joins(candidate_graph: PairingCandidateGraph, k: int, v: int, w: int) -> bool {
    let n = candidate_graph.entrant_ids@.len() as int;
    let edge = candidate_graph.edges@[k];
    &&& 0 <= k < candidate_graph.edges@.len()
    &&& 0 <= v < n
    &&& candidate_graph.entrant_ids@[v]@ == edge.first_entrant_id@
    &&& match edge.target {
        PairingEdgeTarget::Entrant(second) => 0 <= w < n && candidate_graph.entrant_ids@[w]@ == second@,
        PairingEdgeTarget::Bye => w == n,
    }
}

/// Candidate edge `k` joins nodes `v` and `w`, in either direction.
pub open spec fn pair_joined(candidate_graph: PairingCandidateGraph, k: int, v: int, w: int) -> bool {
    edge_joins(candidate_graph, k, v, w) || edge_joins(candidate_graph, k, w, v)
}

/// One of the first `count` candidate edges joins nodes `v` and `w`.
pub open spec fn joined_before(candidate_graph: PairingCandidateGraph, count: int, v: int, w: int) -> bool {
    exists|j: int| 0 <= j < count && #[trigger] pair_joined(candidate_graph, j, v, w)
}

/// Some candidate edge joins nodes `v` and `w`.
pub open spec fn candidate_adjacent(candidate_graph: PairingCandidateGraph, v: int, w: int) -> bool {
    joined_before(candidate_graph, candidate_graph.edges@.len() as int, v, w)
}

/// With distinct ids, a candidate edge runs between one pair of nodes only.
proof fn lemma_joins_unique(candidate_graph: PairingCandidateGraph, k: int, a: int, b: int, v: int, w: int)
    requires
        ids_distinct(candidate_graph),
        edge_joins(candidate_graph, k, v, w),
        edge_joins(candidate_graph, k, a, b),
    ensures
        a == v && b == w,
{
    let ids = candidate_graph.entrant_ids@;
    if a < v {
        assert(ids[a]@ != ids[v]@);
    } else if v < a {
        assert(ids[v]@ != ids[a]@);
    }
    match candidate_graph.edges@[k].target {
        PairingEdgeTarget::Entrant(_) => {
            if b < w {
                assert(ids[b]@ != ids[w]@);
            } else if w < b {
                assert(ids[w]@ != ids[b]@);
            }
        },
        PairingEdgeTarget::Bye => {},
    }
}

impl SolverGraph {
    /// Adjacency lists over the nodes are in range, sorted, duplicate-free,
    /// loop-free and symmetric; every listed edge joins adjacent nodes.
    pub open spec fn wf(&self) -> bool {
        let n = self.adjacency@.len();
        &&& n == node_count_for(self.entrant_ids@.len() as int)
        &&& n < usize::MAX / 2
        &&& forall|v: int, i: int|
            0 <= v < n && 0 <= i < self.adjacency@[v]@.len() ==> {
                let w = (#[trigger] self.adjacency@[v]@[i]) as int;
                &&& 0 <= w < n
                &&& w != v
                &&& self.adjacency@[w]@.contains(v as usize)
            }
        &&& forall|v: int, i: int, j: int|
            0 <= v < n && 0 <= i < j < self.adjacency@[v]@.len() ==> (#[trigger] self.adjacency@[v]@[i])
                < (#[trigger] self.adjacency@[v]@[j])
        &&& forall|k: int|
            0 <= k < self.edges@.len() ==> {
                let e = #[trigger] self.edges@[k];
                &&& e.first_node < n && e.second_node < n
                &&& self.adjacency@[e.first_node as int]@.contains(e.second_node)
            }
    }

    /// Nodes `v` and `w` are joined by an edge.
    pub open spec fn adjacent(&self, v: int, w: int) -> bool {
        0 <= v < self.adjacency@.len() && self.adjacency@[v]@.contains(w as usize)
    }

    pub fn node_count(&self) -> (count: usize)
        ensures
            count == self.adjacency@.len(),
    {
        self.adjacency.len()
    }

    /// Numbers the entrants by their position in the graph, adds the bye node
    /// in an odd field and maps every candidate edge to its two nodes.
    pub fn from_candidate_graph(candidate_graph: &PairingCandidateGraph) -> (outcome: Result<
        Self,
        BlossomPairingError,
    >)
        ensures
            outcome matches Ok(graph) ==> {
                &&& graph.wf()
                &&& graph.entrant_ids@.len() == candidate_graph.entrant_ids@.len()
                &&& forall|i: int|
                    0 <= i < graph.entrant_ids@.len() ==> (#[trigger] graph.entrant_ids@[i])@
                        == candidate_graph.entrant_ids@[i]@
                &&& forall|k: int|
                    0 <= k < graph.edges@.len() ==> (#[trigger] graph.edges@[k]).candidate_edge_index
                        < candidate_graph.edges@.len()
                &&& forall|v: int, w: int|
                    0 <= v < graph.adjacency@.len() && 0 <= w < graph.adjacency@.len() ==> (#[trigger] graph.adjacent(v, w)
                        <==> candidate_adjacent(*candidate_graph, v, w))
                &&& forall|e: int|
                    0 <= e < graph.edges@.len() ==> {
                        let edge = #[trigger] graph.edges@[e];
                        &&& edge_joins(
                            *candidate_graph,
                            edge.candidate_edge_index as int,
                            edge.first_node as int,
                            edge.second_node as int,
                        )
                        &&& !joined_before(
                            *candidate_graph,
                            edge.candidate_edge_index as int,
                            edge.first_node as int,
                            edge.second_node as int,
                        )
                    }
                &&& forall|v: int, w: int|
                    0 <= v < graph.adjacency@.len() && 0 <= w < graph.adjacency@.len() && #[trigger] graph.adjacent(v, w)
                        ==> exists|e: int|
                        0 <= e < graph.edges@.len() && ((#[trigger] graph.edges@[e]).first_node == v && graph.edges@[e].second_node
                            == w || graph.edges@[e].first_node == w && graph.edges@[e].second_node == v)
            },
            outcome matches Err(e) ==> e is InvalidSolverOutput,
            outcome is Ok <==> solver_graph_buildable(*candidate_graph),
    {
        let entrant_count = candidate_graph.entrant_ids.len();
        check_distinct(&candidate_graph.entrant_ids)?;
        let has_bye_node = entrant_count % 2 == 1;
        if entrant_count >= usize::MAX / 2 {
            return Err(invalid(InvalidSolverOutputReason::InvalidBlossomStructure));
        }
        let node_count = entrant_count + if has_bye_node { 1 } else { 0 };
        if node_count.checked_mul(node_count).is_none() {
            return Err(invalid(InvalidSolverOutputReason::InvalidBlossomStructure));
        }
        let mut linked: Vec<bool> = Vec::new();
        let mut t: usize = 0;
        while t < node_count
            invariant
                t <= node_count,
                node_count * node_count <= usize::MAX,
                linked@.len() == t * node_count,
                forall|c: int| 0 <= c < linked@.len() ==> !(#[trigger] linked@[c]),
            decreases node_count - t,
        {
            let mut u: usize = 0;
            while u < node_count
                invariant
                    t < node_count,
                    u <= node_count,
                    node_count * node_count <= usize::MAX,
                    linked@.len() == t * node_count + u,
                    forall|c: int| 0 <= c < linked@.len() ==> !(#[trigger] linked@[c]),
                decreases node_count - u,
            {
                linked.push(false);
                u = u + 1;
            }
            t = t + 1;
            proof {
                assert((t - 1) * node_count + node_count == t * node_count) by (nonlinear_arith);
                assert(t * node_count <= node_count * node_count) by (nonlinear_arith)
                    requires t <= node_count;
            }
        }
        proof {
            assert forall|a: int, b: int|
                0 <= a < node_count && 0 <= b < node_count implies #[trigger] linked@[a * node_count + b]
                    == linked@[b * node_count + a] && (linked@[a * node_count + b] ==> a != b) && !linked@[a
                    * node_count + b] by {
                lemma_cell_in_range(a, b, node_count as int);
                lemma_cell_in_range(b, a, node_count as int);
            }
        }
        let mut edges: Vec<SolverEdge> = Vec::new();
        let mut k: usize = 0;
        while k < candidate_graph.edges.len()
            invariant
                k <= candidate_graph.edges@.len(),
                entrant_count == candidate_graph.entrant_ids@.len(),
                node_count == node_count_for(entrant_count as int),
                node_count < usize::MAX / 2,
                node_count * node_count <= usize::MAX,
                has_bye_node == (entrant_count % 2 == 1),
                linked@.len() == node_count * node_count,
                forall|a: int, b: int|
                    0 <= a < node_count && 0 <= b < node_count ==> #[trigger] linked@[a * node_count + b]
                        == linked@[b * node_count + a] && (linked@[a * node_count + b] ==> a != b),
                forall|e: int|
                    0 <= e < edges@.len() ==> {
                        let edge = #[trigger] edges@[e];
                        &&& edge.first_node < node_count && edge.second_node < node_count
                        &&& linked@[edge.first_node * node_count + edge.second_node]
                        &&& edge.candidate_edge_index < k
                        &&& edge_joins(
                            *candidate_graph,
                            edge.candidate_edge_index as int,
                            edge.first_node as int,
                            edge.second_node as int,
                        )
                        &&& !joined_before(
                            *candidate_graph,
                            edge.candidate_edge_index as int,
                            edge.first_node as int,
                            edge.second_node as int,
                        )
                    },
                forall|a: int, b: int|
                    0 <= a < node_count && 0 <= b < node_count ==> (#[trigger] linked@[a * node_count + b]
                        <==> joined_before(*candidate_graph, k as int, a, b)),
                forall|a: int, b: int|
                    0 <= a < node_count && 0 <= b < node_count && #[trigger] linked@[a * node_count + b] ==> exists|e: int|
                        0 <= e < edges@.len() && ((#[trigger] edges@[e]).first_node == a && edges@[e].second_node == b
                            || edges@[e].first_node == b && edges@[e].second_node == a),
                ids_distinct(*candidate_graph),
                forall|j: int| 0 <= j < k ==> {
                    let edge = #[trigger] candidate_graph.edges@[j];
                    &&& graph_knows(*candidate_graph, edge.first_entrant_id@)
                    &&& match edge.target {
                        PairingEdgeTarget::Entrant(second) => graph_knows(*candidate_graph, second@)
                            && second@ != edge.first_entrant_id@,
                        PairingEdgeTarget::Bye => candidate_graph.entrant_ids@.len() % 2 == 1,
                    }
                },
            decreases candidate_graph.edges@.len() - k,
        {
            let edge = &candidate_graph.edges[k];
            let first = node_for_entrant(&edge.first_entrant_id, &candidate_graph.entrant_ids)?;
            let second = match &edge.target {
                PairingEdgeTarget::Entrant(entrant_id) => node_for_entrant(
                    entrant_id,
                    &candidate_graph.entrant_ids,
                )?,
                PairingEdgeTarget::Bye => {
                    if has_bye_node {
                        entrant_count
                    } else {
                        return Err(invalid(InvalidSolverOutputReason::UnexpectedBye));
                    }
                },
            };
            if first == second {
                proof {
                    if let PairingEdgeTarget::Entrant(t) = &edge.target {
                        if t@ != edge.first_entrant_id@ {
                            assert(candidate_graph.entrant_ids@[first as int]@ == edge.first_entrant_id@);
                        }
                    }
                }
                return Err(invalid(InvalidSolverOutputReason::SelfPair));
            }
            proof {
                let ids = candidate_graph.entrant_ids@;
                assert(graph_knows(*candidate_graph, edge.first_entrant_id@));
                match &edge.target {
                    PairingEdgeTarget::Entrant(t) => {
                        assert(ids[second as int]@ == t@);
                        assert(graph_knows(*candidate_graph, t@));
                        if t@ == edge.first_entrant_id@ {
                            if first < second {
                                assert(ids[first as int]@ != ids[second as int]@);
                            } else {
                                assert(ids[second as int]@ != ids[first as int]@);
                            }
                        }
                    },
                    PairingEdgeTarget::Bye => {},
                }
            }
            proof {
                lemma_cell_in_range(first as int, second as int, node_count as int);
                lemma_cell_in_range(second as int, first as int, node_count as int);
            }
            let forward = first * node_count + second;
            let backward = second * node_count + first;
            let ghost prior = linked@;
            let ghost prior_edges = edges@;
            proof {
                assert(edge_joins(*candidate_graph, k as int, first as int, second as int));
            }
            if !linked[forward] {
                let ghost before = linked@;
                linked.set(forward, true);
                linked.set(backward, true);
                proof {
                    assert forall|a: int, b: int|
                        0 <= a < node_count && 0 <= b < node_count implies #[trigger] linked@[a * node_count + b]
                            == linked@[b * node_count + a] && (linked@[a * node_count + b] ==> a != b) by {
                        lemma_cell_in_range(a, b, node_count as int);
                        lemma_cell_in_range(b, a, node_count as int);
                        let n = node_count as int;
                        if a * n + b == first * n + second {
                            lemma_cell_distinct(a, b, first as int, second as int, n);
                        }
                        if b * n + a == first * n + second {
                            lemma_cell_distinct(b, a, first as int, second as int, n);
                        }
                        if a * n + b == second * n + first {
                            lemma_cell_distinct(a, b, second as int, first as int, n);
                        }
                        if b * n + a == second * n + first {
                            lemma_cell_distinct(b, a, second as int, first as int, n);
                        }
                    }
                    assert forall|e: int| 0 <= e < edges@.len() implies linked@[(#[trigger] edges@[e]).first_node
                        * node_count + edges@[e].second_node] by {
                        let edge = edges@[e];
                        lemma_cell_in_range(edge.first_node as int, edge.second_node as int, node_count as int);
                        assert(before[edge.first_node * node_count + edge.second_node]);
                    }
                }
                edges.push(SolverEdge { first_node: first, second_node: second, candidate_edge_index: k });
            }
            proof {
                let n = node_count as int;
                let cg = *candidate_graph;
                let f = first as int;
                let g = second as int;
                let ki = k as int;
                lemma_cell_in_range(f, g, n);
                lemma_cell_in_range(g, f, n);
                assert(pair_joined(cg, ki, f, g));
                assert(pair_joined(cg, ki, g, f));
                assert(prior[f * n + g] == prior[g * n + f]);
                assert forall|a: int, b: int| 0 <= a < n && 0 <= b < n implies (#[trigger] linked@[a * node_count + b]
                    <==> joined_before(cg, ki + 1, a, b)) by {
                    lemma_cell_in_range(a, b, n);
                    if pair_joined(cg, ki, a, b) {
                        if edge_joins(cg, ki, a, b) {
                            lemma_joins_unique(cg, ki, a, b, f, g);
                        } else {
                            lemma_joins_unique(cg, ki, b, a, f, g);
                        }
                    }
                    if a * n + b == f * n + g {
                        lemma_cell_distinct(a, b, f, g, n);
                    }
                    if a * n + b == g * n + f {
                        lemma_cell_distinct(a, b, g, f, n);
                    }
                    assert(prior[a * node_count + b] <==> joined_before(cg, ki, a, b));
                    if joined_before(cg, ki + 1, a, b) {
                        let j = choose|j: int| 0 <= j < ki + 1 && #[trigger] pair_joined(cg, j, a, b);
                        if j < ki {
                            assert(joined_before(cg, ki, a, b));
                        }
                    }
                    if joined_before(cg, ki, a, b) {
                        let j = choose|j: int| 0 <= j < ki && #[trigger] pair_joined(cg, j, a, b);
                        assert(pair_joined(cg, j, a, b));
                    }
                    if (a == f && b == g) || (a == g && b == f) {
                        assert(pair_joined(cg, ki, a, b));
                    }
                }
                assert forall|e: int| 0 <= e < edges@.len() implies {
                    let edge = #[trigger] edges@[e];
                    &&& edge.candidate_edge_index < ki + 1
                    &&& edge_joins(cg, edge.candidate_edge_index as int, edge.first_node as int, edge.second_node as int)
                    &&& !joined_before(cg, edge.candidate_edge_index as int, edge.first_node as int, edge.second_node as int)
                } by {
                    if e < prior_edges.len() {
                        assert(edges@[e] == prior_edges[e]);
                    } else {
                        assert(!prior[f * n + g]);
                    }
                }
                assert forall|a: int, b: int|
                    0 <= a < n && 0 <= b < n && #[trigger] linked@[a * node_count + b] implies exists|e: int|
                        0 <= e < edges@.len() && ((#[trigger] edges@[e]).first_node == a && edges@[e].second_node == b
                            || edges@[e].first_node == b && edges@[e].second_node == a) by {
                    lemma_cell_in_range(a, b, n);
                    if prior[a * n + b] {
                        let e = choose|e: int|
                            0 <= e < prior_edges.len() && ((#[trigger] prior_edges[e]).first_node == a && prior_edges[e].second_node == b
                                || prior_edges[e].first_node == b && prior_edges[e].second_node == a);
                        assert(edges@[e] == prior_edges[e]);
                    } else {
                        if a * n + b == f * n + g {
                            lemma_cell_distinct(a, b, f, g, n);
                        }
                        if a * n + b == g * n + f {
                            lemma_cell_distinct(a, b, g, f, n);
                        }
                        assert(edges@[prior_edges.len() as int].first_node == f);
                    }
                }
            }
            k = k + 1;
        }
        let adjacency = adjacency_lists(&linked, node_count);
        let mut entrant_ids: Vec<EntrantId> = Vec::new();
        let mut i: usize = 0;
        while i < entrant_count
            invariant
                i <= entrant_count == candidate_graph.entrant_ids@.len(),
                entrant_ids@.len() == i,
                forall|j: int| 0 <= j < i ==> (#[trigger] entrant_ids@[j])@ == candidate_graph.entrant_ids@[j]@,
            decreases entrant_count - i,
        {
            entrant_ids.push(candidate_graph.entrant_ids[i].duplicate());
            i = i + 1;
        }
        let graph = SolverGraph { entrant_ids, adjacency, edges };
        proof {
            let n = node_count as int;
            assert forall|v: int, i: int|
                0 <= v < n && 0 <= i < graph.adjacency@[v]@.len() implies {
                    let w = (#[trigger] graph.adjacency@[v]@[i]) as int;
                    &&& 0 <= w < n
                    &&& w != v
                    &&& graph.adjacency@[w]@.contains(v as usize)
                } by {
                let w = graph.adjacency@[v]@[i] as int;
                assert(graph.adjacency@[v]@.contains(w as usize));
                assert(linked@[v * node_count + w]);
                assert(linked@[w * node_count + v]);
            }

            assert forall|e: int| 0 <= e < graph.edges@.len() implies {
                let edge = #[trigger] graph.edges@[e];
                &&& edge.first_node < node_count && edge.second_node < node_count
                &&& graph.adjacency@[edge.first_node as int]@.contains(edge.second_node)
            } by {
                let edge = graph.edges@[e];
                lemma_cell_in_range(edge.first_node as int, edge.second_node as int, node_count as int);
            }
            assert forall|v: int, w: int|
                0 <= v < n && 0 <= w < n implies (#[trigger] graph.adjacent(v, w) <==> candidate_adjacent(
                    *candidate_graph,
                    v,
                    w,
                )) by {
                lemma_cell_in_range(v, w, n);
                assert(linked@[v * node_count + w] <==> joined_before(*candidate_graph, k as int, v, w));
            }
            assert forall|v: int, w: int|
                0 <= v < n && 0 <= w < n && #[trigger] graph.adjacent(v, w) implies exists|e: int|
                    0 <= e < graph.edges@.len() && ((#[trigger] graph.edges@[e]).first_node == v
                        && graph.edges@[e].second_node == w || graph.edges@[e].first_node == w
                        && graph.edges@[e].second_node == v) by {
                lemma_cell_in_range(v, w, n);
                assert(linked@[v * node_count + w]);
                let e = choose|e: int|
                    0 <= e < graph.edges@.len() && ((#[trigger] graph.edges@[e]).first_node == v
                        && graph.edges@[e].second_node == w || graph.edges@[e].first_node == w
                        && graph.edges@[e].second_node == v);
                assert(0 <= e < graph.edges@.len());
            }
        }
        Ok(graph)
    }
}

proof fn lemma_cell_in_range(a: int, b: int, n: int)
    requires
        0 <= a < n,
        0 <= b < n,
    ensures
        0 <= a * n + b < n * n,
{
    assert(a * n + b < n * n) by (nonlinear_arith)
        requires
            0 <= a < n,
            0 <= b < n,
    ;
    assert(0 <= a * n) by (nonlinear_arith)
        requires
            0 <= a,
            0 <= n,
    ;
}

proof fn lemma_cell_distinct(a: int, b: int, c: int, d: int, n: int)
    requires
        0 <= a < n,
        0 <= b < n,
        0 <= c < n,
        0 <= d < n,
        a * n + b == c * n + d,
    ensures
        a == c && b == d,
{
    assert(a == c && b == d) by (nonlinear_arith)
        requires
            0 <= a < n,
            0 <= b < n,
            0 <= c < n,
            0 <= d < n,
            a * n + b == c * n + d,
    ;
}

/// The ascending neighbour lists of a symmetric, loop-free adjacency matrix.
fn adjacency_lists(linked: &Vec<bool>, node_count: usize) -> (adjacency: Vec<Vec<usize>>)
    requires
        node_count < usize::MAX / 2,
        node_count * node_count <= usize::MAX,
        linked@.len() == node_count * node_count,
        forall|a: int, b: int|
            0 <= a < node_count && 0 <= b < node_count ==> #[trigger] linked@[a * node_count + b]
                == linked@[b * node_count + a] && (linked@[a * node_count + b] ==> a != b),
    ensures
        adjacency@.len() == node_count,
        forall|v: int, w: int|
            0 <= v < node_count && 0 <= w < node_count ==> (adjacency@[v]@.contains(w as usize)
                <==> #[trigger] linked@[v * node_count + w]),
        forall|v: int, i: int|
            0 <= v < node_count && 0 <= i < adjacency@[v]@.len() ==> (#[trigger] adjacency@[v]@[i])
                < node_count,
        forall|v: int, i: int, j: int|
            0 <= v < node_count && 0 <= i < j < adjacency@[v]@.len() ==> (#[trigger] adjacency@[v]@[i])
                < (#[trigger] adjacency@[v]@[j]),
{
    let mut adjacency: Vec<Vec<usize>> = Vec::new();
    let mut v: usize = 0;
    while v < node_count
        invariant
            v <= node_count < usize::MAX / 2,
            node_count * node_count <= usize::MAX,
            linked@.len() == node_count * node_count,
            adjacency@.len() == v,
            forall|x: int, w: int|
                0 <= x < v && 0 <= w < node_count ==> (adjacency@[x]@.contains(w as usize)
                    <==> #[trigger] linked@[x * node_count + w]),
            forall|x: int, i: int|
                0 <= x < v && 0 <= i < adjacency@[x]@.len() ==> (#[trigger] adjacency@[x]@[i]) < node_count,
            forall|x: int, i: int, j: int|
                0 <= x < v && 0 <= i < j < adjacency@[x]@.len() ==> (#[trigger] adjacency@[x]@[i])
                    < (#[trigger] adjacency@[x]@[j]),
        decreases node_count - v,
    {
        let mut row: Vec<usize> = Vec::new();
        let mut w: usize = 0;
        while w < node_count
            invariant
                v < node_count < usize::MAX / 2,
                node_count * node_count <= usize::MAX,
                w <= node_count,
                linked@.len() == node_count * node_count,
                forall|u: int| 0 <= u < node_count ==> (row@.contains(u as usize) <==> (u < w && #[trigger] linked@[v * node_count + u])),
                forall|i: int| 0 <= i < row@.len() ==> (#[trigger] row@[i]) < w,
                forall|i: int, j: int| 0 <= i < j < row@.len() ==> (#[trigger] row@[i]) < (#[trigger] row@[j]),
            decreases node_count - w,
        {
            proof {
                lemma_cell_in_range(v as int, w as int, node_count as int);
            }
            if linked[v * node_count + w] {
                let ghost before = row@;
                row.push(w);
                proof {
                    assert forall|u: int| 0 <= u < node_count implies (row@.contains(u as usize) <==> (u < w + 1 && #[trigger] linked@[v * node_count + u])) by {
                        if u == w {
                            assert(row@[row@.len() - 1] == w);
                        }
                        if row@.contains(u as usize) && u != w {
                            let i = choose|i: int| 0 <= i < row@.len() && row@[i] == u as usize;
                            assert(i < row@.len() - 1);
                            assert(before[i] == u as usize);
                            assert(before.contains(u as usize));
                        }
                        if u < w && linked@[v * node_count + u] {
                            assert(before.contains(u as usize));
                            let i = choose|i: int| 0 <= i < before.len() && before[i] == u as usize;
                            assert(row@[i] == u as usize);
                        }
                    }
                }
            } else {
                proof {
                    assert forall|u: int| 0 <= u < node_count implies (row@.contains(u as usize) <==> (u < w + 1 && #[trigger] linked@[v * node_count + u])) by {
                        if u == w && row@.contains(u as usize) {
                            let i = choose|i: int| 0 <= i < row@.len() && row@[i] == u as usize;
                            assert(row@[i] < w);
                        }
                    }
                }
            }
            w = w + 1;
        }
        adjacency.push(row);
        v = v + 1;
    }
    adjacency
}

/// The position of the entrant id in the graph.
fn node_for_entrant(entrant_id: &EntrantId, entrant_ids: &Vec<EntrantId>) -> (outcome: Result<
    usize,
    BlossomPairingError,
>)
    ensures
        outcome matches Ok(node) ==> node < entrant_ids@.len() && entrant_ids@[node as int]@ == entrant_id@,
        outcome matches Err(e) ==> e is InvalidSolverOutput,
        outcome is Ok <==> exists|i: int| 0 <= i < entrant_ids@.len() && (#[trigger] entrant_ids@[i])@ == entrant_id@,
{
    let mut i: usize = 0;
    while i < entrant_ids.len()
        invariant
            i <= entrant_ids@.len(),
            forall|j: int| 0 <= j < i ==> (#[trigger] entrant_ids@[j])@ != entrant_id@,
        decreases entrant_ids@.len() - i,
    {
        if entrant_ids[i].same_as(entrant_id) {
            return Ok(i);
        }
        i = i + 1;
    }
    Err(invalid(InvalidSolverOutputReason::UnknownEdge))
}

/// Refuses a graph that lists an entrant twice.
fn check_distinct(entrant_ids: &Vec<EntrantId>) -> (outcome: Result<(), BlossomPairingError>)
    ensures
        outcome is Ok <==> forall|i: int, j: int|
            0 <= i < j < entrant_ids@.len() ==> (#[trigger] entrant_ids@[i])@ != (#[trigger] entrant_ids@[j])@,
        outcome matches Err(e) ==> e is InvalidSolverOutput,
{
    let mut j: usize = 0;
    while j < entrant_ids.len()
        invariant
            j <= entrant_ids@.len(),
            forall|a: int, b: int| 0 <= a < b < j ==> (#[trigger] entrant_ids@[a])@ != (#[trigger] entrant_ids@[b])@,
        decreases entrant_ids@.len() - j,
    {
        let mut i: usize = 0;
        while i < j
            invariant
                i <= j < entrant_ids@.len(),
                forall|a: int, b: int| 0 <= a < b < j ==> (#[trigger] entrant_ids@[a])@ != (#[trigger] entrant_ids@[b])@,
                forall|a: int| 0 <= a < i ==> (#[trigger] entrant_ids@[a])@ != entrant_ids@[j as int]@,
            decreases j - i,
        {
            if entrant_ids[i].same_as(&entrant_ids[j]) {
                return Err(invalid(InvalidSolverOutputReason::DuplicateEntrant));
            }
            i = i + 1;
        }
        j = j + 1;
    }
    Ok(())
}

pub(crate) fn invalid(reason: InvalidSolverOutputReason) -> (error: BlossomPairingError)
    ensures
        error == (BlossomPairingError::InvalidSolverOutput { reason }),
{
    BlossomPairingError::InvalidSolverOutput { reason }
}

} // verus!
