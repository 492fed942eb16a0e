//! The solver's weighted view of a candidate graph: minimum cost becomes
//! maximum weight, and a cardinality bonus makes every larger matching
//! outweigh every smaller one.
use vstd::prelude::*;

use super::solver_graph::{SolverGraph, solver_graph_buildable};
use super::{BlossomPairingError, PairingCandidateEdge, PairingCandidateGraph, PairingCostComponent};

verus! {

/// A solver graph whose edges carry maximum-weight values derived from the
/// candidate costs, with the initial vertex duals of the primal-dual search.
pub struct WeightedSolverGraph {
    unweighted: SolverGraph,
    edges: Vec<WeightedSolverEdge>,
    weight_offset: u64,
    cardinality_bonus: u128,
    initial_vertex_duals: Vec<u128>,
}

#[derive(Clone, Copy, Debug, PartialEq, Eq, Structural)]
pub struct WeightedSolverEdge {
    pub first_node: usize,
    pub second_node: usize,
    pub candidate_edge_index: usize,
    pub maximum_weight: u128,
}

/// The largest cost among the first `count` candidate edges, or 0.
pub open spec fn max_cost_prefix(edges: Seq<PairingCandidateEdge>, count: nat) -> u64
    decreases count,
{
    if count == 0 {
        0
    } else {
        let earlier = max_cost_prefix(edges, (count - 1) as nat);
        let cost = edges[count - 1].cost.0;
        if cost > earlier {
            cost
        } else {
            earlier
        }
    }
}

/// The largest candidate cost of the graph, or 0 when it has no edge.
pub open spec fn max_candidate_cost(graph: PairingCandidateGraph) -> u64 {
    max_cost_prefix(graph.edges@, graph.edges@.len())
}

/// The largest weight among the first `count` weighted edges, or 0.
pub open spec fn max_weight_prefix(edges: Seq<WeightedSolverEdge>, count: nat) -> u128
    decreases count,
{
    if count == 0 {
        0
    } else {
        let earlier = max_weight_prefix(edges, (count - 1) as nat);
        let weight = edges[count - 1].maximum_weight;
        if weight > earlier {
            weight
        } else {
            earlier
        }
    }
}

/// Weight offset, cardinality bonus and edge weight of the projection of a
/// graph with largest cost `max_cost` and `node_count` solver nodes.
pub open spec fn spec_weight_offset(max_cost: int) -> int {
    max_cost + 1
}

pub open spec fn spec_cardinality_bonus(max_cost: int, node_count: int) -> int {
    spec_weight_offset(max_cost) * (node_count / 2) + 1
}

pub open spec fn spec_edge_weight(max_cost: int, node_count: int, cost: int) -> int {
    spec_cardinality_bonus(max_cost, node_count) + spec_weight_offset(max_cost) - cost
}

proof fn lemma_max_cost_bounds(edges: Seq<PairingCandidateEdge>, count: nat)
    requires
        count <= edges.len(),
    ensures
        forall|k: int| 0 <= k < count ==> (#[trigger] edges[k]).cost.0 <= max_cost_prefix(edges, count),
    decreases count,
{
    if count > 0 {
        lemma_max_cost_bounds(edges, (count - 1) as nat);
    }
}

proof fn lemma_max_weight_bounds(edges: Seq<WeightedSolverEdge>, count: nat)
    requires
        count <= edges.len(),
    ensures
        forall|k: int| 0 <= k < count ==> (#[trigger] edges[k]).maximum_weight <= max_weight_prefix(edges, count),
        count > 0 ==> exists|k: int| 0 <= k < count && (#[trigger] edges[k]).maximum_weight == max_weight_prefix(edges, count),
    decreases count,
{
    if count > 0 {
        lemma_max_weight_bounds(edges, (count - 1) as nat);
        let earlier = max_weight_prefix(edges, (count - 1) as nat);
        assert(max_weight_prefix(edges, count) == if edges[count - 1].maximum_weight > earlier {
            edges[count - 1].maximum_weight
        } else {
            earlier
        });
        if count > 1 && max_weight_prefix(edges, count) == earlier {
            let k = choose|k: int| 0 <= k < count - 1 && (#[trigger] edges[k]).maximum_weight == max_weight_prefix(edges, (count - 1) as nat);
            assert(edges[k].maximum_weight == max_weight_prefix(edges, count));
        } else {
            assert(edges[count - 1].maximum_weight == max_weight_prefix(edges, count));
        }
    }
}

/// Every projected weight stays below this bound, so two weights and two
/// duals always fit in a `u128`.
pub open spec fn weight_bound() -> int {
    0x8000_0000_0000_0000_0000_0000_0000_0000
}

impl WeightedSolverGraph {
    /// Edges join solver nodes, weights stay below `weight_bound`, and every
    /// node starts with the largest weight as its dual.
    #[verifier::type_invariant]
    spec fn inv(self) -> bool {
        let n = self.unweighted.adjacency@.len();
        &&& self.unweighted.wf()
        &&& self.edges@.len() == self.unweighted.edges@.len()
        &&& forall|k: int| 0 <= k < self.edges@.len() ==> {
            let edge = #[trigger] self.edges@[k];
            &&& edge.first_node == self.unweighted.edges@[k].first_node
            &&& edge.second_node == self.unweighted.edges@[k].second_node
            &&& edge.candidate_edge_index == self.unweighted.edges@[k].candidate_edge_index
            &&& edge.maximum_weight < weight_bound()
        }
        &&& self.initial_vertex_duals@.len() == n
        &&& forall|v: int| 0 <= v < n ==> #[trigger] self.initial_vertex_duals@[v]
            == max_weight_prefix(self.edges@, self.edges@.len())
    }

    pub closed spec fn spec_unweighted(&self) -> SolverGraph {
        self.unweighted
    }

    pub closed spec fn spec_edges(&self) -> Seq<WeightedSolverEdge> {
        self.edges@
    }

    pub closed spec fn spec_weight_offset(&self) -> u64 {
        self.weight_offset
    }

    pub closed spec fn spec_cardinality_bonus(&self) -> u128 {
        self.cardinality_bonus
    }

    pub closed spec fn spec_initial_duals(&self) -> Seq<u128> {
        self.initial_vertex_duals@
    }

    /// The node count of the solver graph.
    pub open spec fn spec_node_count(&self) -> int {
        self.spec_unweighted().adjacency@.len() as int
    }

    /// This graph is the weighted projection of `candidate_graph`: offset,
    /// bonus and each edge weight follow from the largest candidate cost, each
    /// weighted edge mirrors the solver edge in the same position, and every
    /// node starts with the largest edge weight as its dual.
    pub open spec fn projects(&self, candidate_graph: PairingCandidateGraph) -> bool {
        let max_cost = max_candidate_cost(candidate_graph) as int;
        let n = self.spec_node_count();
        &&& self.spec_unweighted().wf()
        &&& self.spec_weight_offset() == spec_weight_offset(max_cost)
        &&& self.spec_cardinality_bonus() == spec_cardinality_bonus(max_cost, n)
        &&& self.spec_edges().len() == self.spec_unweighted().edges@.len()
        &&& forall|k: int| 0 <= k < self.spec_edges().len() ==> {
            let edge = #[trigger] self.spec_edges()[k];
            let solver_edge = self.spec_unweighted().edges@[k];
            &&& edge.first_node == solver_edge.first_node
            &&& edge.second_node == solver_edge.second_node
            &&& edge.candidate_edge_index == solver_edge.candidate_edge_index
            &&& edge.candidate_edge_index < candidate_graph.edges@.len()
            &&& edge.maximum_weight == spec_edge_weight(
                max_cost,
                n,
                candidate_graph.edges@[edge.candidate_edge_index as int].cost.0 as int,
            )
        }
        &&& self.spec_initial_duals().len() == n
        &&& forall|v: int| 0 <= v < n ==> #[trigger] self.spec_initial_duals()[v]
            == max_weight_prefix(self.spec_edges(), self.spec_edges().len())
    }

    /// Projects the candidate graph onto solver nodes with maximum-weight
    /// edges: the offset is the largest cost plus one, the bonus is the offset
    /// times the number of required pairs plus one, and each edge weighs the
    /// bonus plus the offset minus its cost. Fails when the offset overflows.
    pub fn from_candidate_graph(candidate_graph: &PairingCandidateGraph) -> (outcome: Result<
        Self,
        BlossomPairingError,
    >)
        ensures
            outcome matches Ok(graph) ==> graph.projects(*candidate_graph),
            outcome matches Err(e) ==> e is InvalidSolverOutput || (e == BlossomPairingError::PairingCostOverflow {
                component: PairingCostComponent::SolverWeightProjection,
            } && max_candidate_cost(*candidate_graph) == u64::MAX),
            outcome is Ok <==> solver_graph_buildable(*candidate_graph) && max_candidate_cost(*candidate_graph)
                < u64::MAX,
            (outcome matches Err(e) && e is InvalidSolverOutput) <==> !solver_graph_buildable(*candidate_graph),
            outcome matches Ok(graph) ==> graph.spec_unweighted().entrant_ids@.len()
                == candidate_graph.entrant_ids@.len() && forall|i: int|
                0 <= i < candidate_graph.entrant_ids@.len() ==> (#[trigger] graph.spec_unweighted().entrant_ids@[i])@
                    == candidate_graph.entrant_ids@[i]@,
    {
        let unweighted = SolverGraph::from_candidate_graph(candidate_graph)?;
        let count = candidate_graph.edges.len();
        let mut maximum_cost: u64 = 0;
        let mut k: usize = 0;
        while k < count
            invariant
                count == candidate_graph.edges@.len(),
                k <= count,
                maximum_cost == max_cost_prefix(candidate_graph.edges@, k as nat),
            decreases count - k,
        {
            let cost = candidate_graph.edges[k].cost.value();
            if cost > maximum_cost {
                maximum_cost = cost;
            }
            k = k + 1;
        }
        proof {
            lemma_max_cost_bounds(candidate_graph.edges@, count as nat);
        }
        if maximum_cost == u64::MAX {
            return Err(
                BlossomPairingError::PairingCostOverflow {
                    component: PairingCostComponent::SolverWeightProjection,
                },
            );
        }
        let weight_offset = maximum_cost + 1;
        let node_count = unweighted.node_count();
        let required_edge_count = node_count / 2;
        let offset_wide: u128 = weight_offset as u128;
        let pairs_wide: u128 = required_edge_count as u128;
        proof {
            assert(offset_wide * pairs_wide <= 0x1_0000_0000_0000_0000 * 0x4000_0000_0000_0000) by (nonlinear_arith)
                requires
                    offset_wide <= 0x1_0000_0000_0000_0000,
                    pairs_wide <= 0x4000_0000_0000_0000,
            ;
        }
        let cardinality_bonus: u128 = offset_wide * pairs_wide + 1;
        let ghost max_cost = maximum_cost as int;
        let ghost n = node_count as int;
        let mut edges: Vec<WeightedSolverEdge> = Vec::new();
        let mut maximum_weight: u128 = 0;
        let mut e: usize = 0;
        while e < unweighted.edges.len()
            invariant
                unweighted.wf(),
                count == candidate_graph.edges@.len(),
                node_count == unweighted.adjacency@.len(),
                n == node_count,
                max_cost == maximum_cost,
                maximum_cost == max_cost_prefix(candidate_graph.edges@, count as nat),
                maximum_cost < u64::MAX,
                weight_offset == maximum_cost + 1,
                cardinality_bonus == spec_cardinality_bonus(max_cost, n),
                cardinality_bonus <= 0x4000_0000_0000_0000_0000_0000_0000_0000 + 1,
                forall|j: int| 0 <= j < count ==> (#[trigger] candidate_graph.edges@[j]).cost.0 <= maximum_cost,
                forall|j: int| 0 <= j < unweighted.edges@.len() ==> (#[trigger] unweighted.edges@[j]).candidate_edge_index < count,
                e <= unweighted.edges@.len(),
                edges@.len() == e,
                maximum_weight == max_weight_prefix(edges@, e as nat),
                forall|j: int| 0 <= j < e ==> {
                    let edge = #[trigger] edges@[j];
                    let solver_edge = unweighted.edges@[j];
                    &&& edge.first_node == solver_edge.first_node
                    &&& edge.second_node == solver_edge.second_node
                    &&& edge.candidate_edge_index == solver_edge.candidate_edge_index
                    &&& edge.candidate_edge_index < count
                    &&& edge.maximum_weight < weight_bound()
                    &&& edge.maximum_weight == spec_edge_weight(
                        max_cost,
                        n,
                        candidate_graph.edges@[edge.candidate_edge_index as int].cost.0 as int,
                    )
                },
            decreases unweighted.edges@.len() - e,
        {
            let solver_edge = unweighted.edges[e];
            let cost = candidate_graph.edges[solver_edge.candidate_edge_index].cost.value();
            let preference_weight = weight_offset - cost;
            let weight: u128 = cardinality_bonus + preference_weight as u128;
            let ghost before = edges@;
            edges.push(
                WeightedSolverEdge {
                    first_node: solver_edge.first_node,
                    second_node: solver_edge.second_node,
                    candidate_edge_index: solver_edge.candidate_edge_index,
                    maximum_weight: weight,
                },
            );
            proof {
                assert(edges@.subrange(0, e as int) =~= before);
                assert(max_weight_prefix(edges@, e as nat) == max_weight_prefix(before, e as nat)) by {
                    lemma_max_weight_prefix_extends(before, edges@, e as nat);
                }
            }
            if weight > maximum_weight {
                maximum_weight = weight;
            }
            e = e + 1;
        }
        let mut initial_vertex_duals: Vec<u128> = Vec::new();
        let mut v: usize = 0;
        while v < node_count
            invariant
                v <= node_count,
                initial_vertex_duals@.len() == v,
                forall|j: int| 0 <= j < v ==> #[trigger] initial_vertex_duals@[j] == maximum_weight,
            decreases node_count - v,
        {
            initial_vertex_duals.push(maximum_weight);
            v = v + 1;
        }
        Ok(WeightedSolverGraph { unweighted, edges, weight_offset, cardinality_bonus, initial_vertex_duals })
    }

    /// The unweighted solver graph.
    pub fn unweighted(&self) -> (graph: &SolverGraph)
        ensures
            *graph == self.spec_unweighted(),
    {
        &self.unweighted
    }

    /// The reduced cost of an edge under the initial duals: the two end duals
    /// minus twice the weight, or `None` where that is negative or overflows.
    pub fn edge_slack(&self, edge: &WeightedSolverEdge) -> (slack: Option<u128>)
        requires
            edge.first_node < self.spec_initial_duals().len(),
            edge.second_node < self.spec_initial_duals().len(),
        ensures
            ({
                let total = self.spec_initial_duals()[edge.first_node as int] + self.spec_initial_duals()[
                    edge.second_node as int];
                let doubled = 2 * edge.maximum_weight;
                match slack {
                    Some(value) => doubled <= u128::MAX && total <= u128::MAX && total >= doubled
                        && value == total - doubled,
                    None => doubled > u128::MAX || total > u128::MAX || total < doubled,
                }
            }),
    {
        let first_dual = self.initial_vertex_duals[edge.first_node];
        let second_dual = self.initial_vertex_duals[edge.second_node];
        let doubled_weight = edge.maximum_weight.checked_mul(2)?;
        let total = first_dual.checked_add(second_dual)?;
        total.checked_sub(doubled_weight)
    }

    /// The weighted edges, one per solver edge and in the same order.
    pub fn edges(&self) -> (edges: &Vec<WeightedSolverEdge>)
        ensures
            edges@ == self.spec_edges(),
    {
        &self.edges
    }

    /// The largest candidate cost plus one.
    pub fn weight_offset(&self) -> (offset: u64)
        ensures
            offset == self.spec_weight_offset(),
    {
        self.weight_offset
    }

    /// The weight that every edge carries on top of its preference weight.
    pub fn cardinality_bonus(&self) -> (bonus: u128)
        ensures
            bonus == self.spec_cardinality_bonus(),
    {
        self.cardinality_bonus
    }

    /// The starting dual of every solver node.
    pub fn initial_vertex_duals(&self) -> (duals: &Vec<u128>)
        ensures
            duals@ == self.spec_initial_duals(),
    {
        &self.initial_vertex_duals
    }

    /// The initial reduced cost of every edge, in edge order: twice the
    /// largest weight minus twice the edge's own weight.
    pub fn initial_edge_slacks(&self) -> (slacks: Vec<u128>)
        ensures
            slacks@.len() == self.spec_edges().len(),
            forall|k: int| 0 <= k < slacks@.len() ==> #[trigger] slacks@[k] == 2 * max_weight_prefix(
                self.spec_edges(),
                self.spec_edges().len(),
            ) - 2 * self.spec_edges()[k].maximum_weight,
    {
        proof {
            use_type_invariant(self);
        }
        let ghost top = max_weight_prefix(self.edges@, self.edges@.len());
        let ghost n = self.unweighted.adjacency@.len();
        proof {
            lemma_max_weight_bounds(self.edges@, self.edges@.len());
            if self.edges@.len() > 0 {
                let k = choose|k: int| 0 <= k < self.edges@.len() && (#[trigger] self.edges@[k]).maximum_weight == top;
                assert(self.edges@[k].maximum_weight < weight_bound());
            }
        }
        let mut slacks: Vec<u128> = Vec::new();
        let mut k: usize = 0;
        while k < self.edges.len()
            invariant
                self.inv(),
                n == self.unweighted.adjacency@.len(),
                top == max_weight_prefix(self.edges@, self.edges@.len()),
                top < weight_bound(),
                forall|j: int| 0 <= j < self.edges@.len() ==> (#[trigger] self.edges@[j]).maximum_weight <= top,
                k <= self.edges@.len(),
                slacks@.len() == k,
                forall|j: int| 0 <= j < k ==> #[trigger] slacks@[j] == 2 * top - 2 * self.edges@[j].maximum_weight,
            decreases self.edges@.len() - k,
        {
            let edge = self.edges[k];
            assert(self.unweighted.edges@[k as int].first_node < n);
            let first = self.initial_vertex_duals[edge.first_node];
            let second = self.initial_vertex_duals[edge.second_node];
            let doubled = edge.maximum_weight * 2;
            let slack = first + second - doubled;
            slacks.push(slack);
            k = k + 1;
        }
        slacks
    }
}

proof fn lemma_max_weight_prefix_extends(shorter: Seq<WeightedSolverEdge>, longer: Seq<WeightedSolverEdge>, count: nat)
    requires
        count <= shorter.len(),
        count <= longer.len(),
        forall|j: int| 0 <= j < count ==> shorter[j] == longer[j],
    ensures
        max_weight_prefix(longer, count) == max_weight_prefix(shorter, count),
    decreases count,
{
    if count > 0 {
        lemma_max_weight_prefix_extends(shorter, longer, (count - 1) as nat);
    }
}

} // verus!
