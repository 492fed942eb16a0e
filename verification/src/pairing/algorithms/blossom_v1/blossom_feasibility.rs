//! Maximum-cardinality matching on the solver graph (Edmonds' blossom search),
//! used to decide whether a relaxation tier admits a complete pairing.
use vstd::prelude::*;

use crate::identity::EntrantId;

use super::solver_graph::SolverGraph;

verus! {

/// Marks a node without a partner or parent.
pub const NONE: usize = usize::MAX;

/// The partner of each node, or `NONE`.
pub struct CardinalityMatching {
    mates: Vec<usize>,
}

/// `mates` pairs nodes of `graph` along its edges, each pairing recorded on
/// both sides.
pub open spec fn valid_matching(graph: &SolverGraph, mates: Seq<usize>) -> bool {
    let n = graph.adjacency@.len();
    &&& mates.len() == n
    &&& forall|v: int|
        0 <= v < n && (#[trigger] mates[v]) != NONE ==> {
            &&& mates[v] < n
            &&& mates[mates[v] as int] == v
            &&& graph.adjacent(v, mates[v] as int)
        }
}

impl CardinalityMatching {
    pub closed spec fn spec_mates(&self) -> Seq<usize> {
        self.mates@
    }

    /// The partner of node `v`, or `NONE` when it has none or is out of range.
    pub fn mate_of(&self, v: usize) -> (mate: usize)
        ensures
            v < self.spec_mates().len() ==> mate == self.spec_mates()[v as int],
            v >= self.spec_mates().len() ==> mate == NONE,
    {
        if v < self.mates.len() {
            self.mates[v]
        } else {
            NONE
        }
    }

    /// Every node has a partner.
    pub fn is_complete(&self) -> (complete: bool)
        ensures
            complete == forall|v: int| 0 <= v < self.spec_mates().len() ==> (#[trigger] self.spec_mates()[v]) != NONE,
    {
        let mut i: usize = 0;
        while i < self.mates.len()
            invariant
                i <= self.mates@.len(),
                forall|v: int| 0 <= v < i ==> (#[trigger] self.mates@[v]) != NONE,
            decreases self.mates@.len() - i,
        {
            if self.mates[i] == NONE {
                assert(self.spec_mates()[i as int] == NONE);
                return false;
            }
            i = i + 1;
        }
        true
    }

    /// The entrants, in graph order, that have no partner.
    pub fn unmatched_entrants(&self, entrant_ids: &Vec<EntrantId>) -> (unmatched: Vec<EntrantId>)
        requires
            entrant_ids@.len() <= self.spec_mates().len(),
        ensures
            ids_view(unmatched@) == unmatched_prefix(
                ids_view(entrant_ids@),
                self.spec_mates(),
                entrant_ids@.len() as nat,
            ),
    {
        let mut unmatched: Vec<EntrantId> = Vec::new();
        let mut v: usize = 0;
        while v < entrant_ids.len()
            invariant
                v <= entrant_ids@.len() <= self.mates@.len(),
                ids_view(unmatched@) == unmatched_prefix(ids_view(entrant_ids@), self.mates@, v as nat),
            decreases entrant_ids@.len() - v,
        {
            if self.mates[v] == NONE {
                let ghost before = unmatched@;
                let copy = entrant_ids[v].duplicate();
                unmatched.push(copy);
                proof {
                    assert(ids_view(unmatched@) =~= ids_view(before).push(entrant_ids@[v as int]@));
                }
            }
            v = v + 1;
        }
        unmatched
    }
}

/// The views of a sequence of identifiers.
pub open spec fn ids_view(ids: Seq<EntrantId>) -> Seq<Seq<char>> {
    ids.map_values(|id: EntrantId| id@)
}

/// The identifiers among the first `count` whose node has no partner, in order.
pub open spec fn unmatched_prefix(ids: Seq<Seq<char>>, mates: Seq<usize>, count: nat) -> Seq<Seq<char>>
    decreases count,
{
    if count == 0 {
        Seq::empty()
    } else {
        let earlier = unmatched_prefix(ids, mates, (count - 1) as nat);
        if mates[count - 1] == NONE {
            earlier.push(ids[count - 1])
        } else {
            earlier
        }
    }
}

struct BlossomSearch {
    mates: Vec<usize>,
    parent: Vec<usize>,
    base: Vec<usize>,
    used: Vec<bool>,
    blossom: Vec<bool>,
    queue: Vec<usize>,
}

pub open spec fn node_or_none(value: usize, n: int) -> bool {
    value == NONE || value < n
}

impl BlossomSearch {
    spec fn inv(&self, graph: &SolverGraph) -> bool {
        let n = graph.adjacency@.len();
        &&& graph.wf()
        &&& self.mates@.len() == n
        &&& self.parent@.len() == n
        &&& self.base@.len() == n
        &&& self.used@.len() == n
        &&& self.blossom@.len() == n
        &&& forall|i: int| 0 <= i < n ==> node_or_none(#[trigger] self.mates@[i], n as int)
        &&& forall|i: int| 0 <= i < n ==> node_or_none(#[trigger] self.parent@[i], n as int)
        &&& forall|i: int| 0 <= i < n ==> (#[trigger] self.base@[i]) < n
        &&& forall|i: int| 0 <= i < self.queue@.len() ==> (#[trigger] self.queue@[i]) < n
    }

    fn set_mate(&mut self, graph: &SolverGraph, node: usize, mate: usize)
        requires
            old(self).inv(graph),
            node < graph.adjacency@.len(),
            node_or_none(mate, graph.adjacency@.len() as int),
        ensures
            final(self).inv(graph),
    {
        self.mates.set(node, mate);
    }

    fn set_parent(&mut self, graph: &SolverGraph, node: usize, parent: usize)
        requires
            old(self).inv(graph),
            node < graph.adjacency@.len(),
            node_or_none(parent, graph.adjacency@.len() as int),
        ensures
            final(self).inv(graph),
    {
        self.parent.set(node, parent);
    }

    fn find_augmenting_path(&mut self, graph: &SolverGraph, root: usize) -> (found: bool)
        requires
            old(self).inv(graph),
            root < graph.adjacency@.len(),
        ensures
            final(self).inv(graph),
    {
        let n = graph.node_count();
        let mut i: usize = 0;
        while i < n
            invariant
                self.inv(graph),
                n == graph.adjacency@.len(),
                i <= n,
            decreases n - i,
        {
            self.used.set(i, false);
            self.parent.set(i, NONE);
            self.base.set(i, i);
            i = i + 1;
        }
        self.queue.clear();
        self.queue.push(root);
        self.used.set(root, true);
        let limit = 2 * n + 2;
        let mut queue_index: usize = 0;
        while queue_index < self.queue.len() && queue_index < limit
            invariant
                self.inv(graph),
                n == graph.adjacency@.len(),
                root < n,
                limit == 2 * n + 2,
            decreases limit - queue_index,
        {
            let vertex = self.queue[queue_index];
            queue_index = queue_index + 1;
            let degree = graph.adjacency[vertex].len();
            let mut e: usize = 0;
            while e < degree
                invariant
                    self.inv(graph),
                    n == graph.adjacency@.len(),
                    root < n,
                    vertex < n,
                    degree == graph.adjacency@[vertex as int]@.len(),
                    e <= degree,
                decreases degree - e,
            {
                let neighbour = graph.adjacency[vertex][e];
                e = e + 1;
                if self.base[vertex] == self.base[neighbour] || self.mates[vertex] == neighbour {
                    continue;
                }
                let neighbour_mate = self.mates[neighbour];
                if neighbour == root || (neighbour_mate != NONE && self.parent[neighbour_mate] != NONE) {
                    self.contract_blossom(graph, vertex, neighbour);
                } else if self.parent[neighbour] == NONE {
                    self.set_parent(graph, neighbour, vertex);
                    if neighbour_mate == NONE {
                        self.augment(graph, neighbour);
                        return true;
                    }
                    self.used.set(neighbour_mate, true);
                    self.queue.push(neighbour_mate);
                }
            }
        }
        false
    }

    fn contract_blossom(&mut self, graph: &SolverGraph, first: usize, second: usize)
        requires
            old(self).inv(graph),
            first < graph.adjacency@.len(),
            second < graph.adjacency@.len(),
        ensures
            final(self).inv(graph),
    {
        let n = graph.node_count();
        let common_base = self.lowest_common_ancestor(graph, first, second);
        let mut i: usize = 0;
        while i < n
            invariant
                self.inv(graph),
                n == graph.adjacency@.len(),
                i <= n,
            decreases n - i,
        {
            self.blossom.set(i, false);
            i = i + 1;
        }
        self.mark_blossom_path(graph, first, common_base, second);
        self.mark_blossom_path(graph, second, common_base, first);
        let mut node: usize = 0;
        while node < n
            invariant
                self.inv(graph),
                n == graph.adjacency@.len(),
                node <= n,
                common_base < n,
            decreases n - node,
        {
            if self.blossom[self.base[node]] {
                self.base.set(node, common_base);
                if !self.used[node] {
                    self.used.set(node, true);
                    self.queue.push(node);
                }
            }
            node = node + 1;
        }
    }

    /// The common base of the two alternating paths. A path that breaks off
    /// ends the walk at its last node.
    fn lowest_common_ancestor(&self, graph: &SolverGraph, first: usize, second: usize) -> (base: usize)
        requires
            self.inv(graph),
            first < graph.adjacency@.len(),
            second < graph.adjacency@.len(),
        ensures
            base < graph.adjacency@.len(),
    {
        let n = graph.node_count();
        let mut first_path: Vec<bool> = Vec::new();
        let mut i: usize = 0;
        while i < n
            invariant
                first_path@.len() == i,
                i <= n,
            decreases n - i,
        {
            first_path.push(false);
            i = i + 1;
        }
        let mut current = first;
        let mut steps: usize = 0;
        while steps <= n
            invariant
                self.inv(graph),
                n == graph.adjacency@.len(),
                first_path@.len() == n,
                current < n,
            decreases n + 1 - steps,
        {
            steps = steps + 1;
            current = self.base[current];
            first_path.set(current, true);
            let mate = self.mates[current];
            if mate == NONE {
                break;
            }
            let next = self.parent[mate];
            if next == NONE {
                break;
            }
            current = next;
        }
        let mut other = second;
        let mut steps: usize = 0;
        while steps <= n
            invariant
                self.inv(graph),
                n == graph.adjacency@.len(),
                first_path@.len() == n,
                other < n,
            decreases n + 1 - steps,
        {
            steps = steps + 1;
            other = self.base[other];
            if first_path[other] {
                return other;
            }
            let mate = self.mates[other];
            if mate == NONE {
                return other;
            }
            let next = self.parent[mate];
            if next == NONE {
                return other;
            }
            other = next;
        }
        other
    }

    fn mark_blossom_path(&mut self, graph: &SolverGraph, vertex: usize, base: usize, child: usize)
        requires
            old(self).inv(graph),
            vertex < graph.adjacency@.len(),
            base < graph.adjacency@.len(),
            child < graph.adjacency@.len(),
        ensures
            final(self).inv(graph),
    {
        let n = graph.node_count();
        let mut vertex = vertex;
        let mut child = child;
        let mut steps: usize = 0;
        while self.base[vertex] != base && steps <= n
            invariant
                self.inv(graph),
                n == graph.adjacency@.len(),
                vertex < n,
                child < n,
                base < n,
            decreases n + 1 - steps,
        {
            steps = steps + 1;
            let mate = self.mates[vertex];
            if mate == NONE {
                break;
            }
            let vertex_base = self.base[vertex];
            self.blossom.set(vertex_base, true);
            let mate_base = self.base[mate];
            self.blossom.set(mate_base, true);
            self.set_parent(graph, vertex, child);
            child = mate;
            let next = self.parent[mate];
            if next == NONE {
                break;
            }
            vertex = next;
        }
    }

    fn augment(&mut self, graph: &SolverGraph, vertex: usize)
        requires
            old(self).inv(graph),
            vertex < graph.adjacency@.len(),
        ensures
            final(self).inv(graph),
    {
        let n = graph.node_count();
        let mut vertex = vertex;
        let mut steps: usize = 0;
        while vertex != NONE && steps <= n
            invariant
                self.inv(graph),
                n == graph.adjacency@.len(),
                node_or_none(vertex, n as int),
            decreases n + 1 - steps,
        {
            steps = steps + 1;
            let previous = self.parent[vertex];
            let next = if previous == NONE { NONE } else { self.mates[previous] };
            if previous != NONE {
                self.set_mate(graph, vertex, previous);
                self.set_mate(graph, previous, vertex);
            }
            vertex = next;
        }
    }
}

/// A matching of maximum size found by Edmonds' blossom search: every node
/// that is still free roots one search for an augmenting path. Only pairs
/// recorded on both sides along graph edges are kept.
pub fn maximum_cardinality_matching(graph: &SolverGraph) -> (matching: CardinalityMatching)
    requires
        graph.wf(),
    ensures
        valid_matching(graph, matching.spec_mates()),
{
    let n = graph.node_count();
    let mut search = BlossomSearch {
        mates: Vec::new(),
        parent: Vec::new(),
        base: Vec::new(),
        used: Vec::new(),
        blossom: Vec::new(),
        queue: Vec::new(),
    };
    let mut i: usize = 0;
    while i < n
        invariant
            n == graph.adjacency@.len(),
            graph.wf(),
            i <= n,
            search.mates@.len() == i,
            search.parent@.len() == i,
            search.base@.len() == i,
            search.used@.len() == i,
            search.blossom@.len() == i,
            search.queue@.len() == 0,
            forall|j: int| 0 <= j < i ==> node_or_none(#[trigger] search.mates@[j], n as int),
            forall|j: int| 0 <= j < i ==> node_or_none(#[trigger] search.parent@[j], n as int),
            forall|j: int| 0 <= j < i ==> (#[trigger] search.base@[j]) < n,
        decreases n - i,
    {
        search.mates.push(NONE);
        search.parent.push(NONE);
        search.base.push(i);
        search.used.push(false);
        search.blossom.push(false);
        i = i + 1;
    }
    let mut root: usize = 0;
    while root < n
        invariant
            n == graph.adjacency@.len(),
            search.inv(graph),
            root <= n,
        decreases n - root,
    {
        if search.mates[root] == NONE {
            search.find_augmenting_path(graph, root);
        }
        root = root + 1;
    }
    keep_confirmed_pairs(graph, &search.mates)
}

/// `u` and its recorded partner name each other and are joined by an edge.
pub open spec fn confirmed_pair(graph: &SolverGraph, mates: Seq<usize>, u: int) -> bool {
    let n = mates.len();
    &&& mates[u] != NONE
    &&& mates[u] < n
    &&& mates[mates[u] as int] == u
    &&& graph.adjacent(u, mates[u] as int)
}

/// The pairs of `mates` that both sides record and that follow a graph edge.
fn keep_confirmed_pairs(graph: &SolverGraph, mates: &Vec<usize>) -> (matching: CardinalityMatching)
    requires
        graph.wf(),
        mates@.len() == graph.adjacency@.len(),
    ensures
        valid_matching(graph, matching.spec_mates()),
{
    let n = mates.len();
    let mut confirmed: Vec<usize> = Vec::new();
    let mut v: usize = 0;
    while v < n
        invariant
            graph.wf(),
            n == mates@.len() == graph.adjacency@.len(),
            v <= n,
            confirmed@.len() == v,
            forall|u: int|
                0 <= u < v ==> (#[trigger] confirmed@[u]) == if confirmed_pair(graph, mates@, u) {
                    mates@[u]
                } else {
                    NONE
                },
        decreases n - v,
    {
        let mate = mates[v];
        let keep = mate != NONE && mate < n && mates[mate] == v && contains_node(&graph.adjacency[v], mate);
        confirmed.push(if keep { mate } else { NONE });
        v = v + 1;
    }
    proof {
        assert forall|u: int| 0 <= u < n && (#[trigger] confirmed@[u]) != NONE implies {
            &&& confirmed@[u] < n
            &&& confirmed@[confirmed@[u] as int] == u
            &&& graph.adjacent(u, confirmed@[u] as int)
        } by {
            let m = mates@[u] as int;
            assert(confirmed_pair(graph, mates@, u));
            let i = choose|i: int| 0 <= i < graph.adjacency@[u]@.len() && graph.adjacency@[u]@[i] == m as usize;
            assert(graph.adjacency@[m]@.contains(u as usize));
            assert(confirmed_pair(graph, mates@, m));
        }
    }
    CardinalityMatching { mates: confirmed }
}

fn contains_node(neighbours: &Vec<usize>, node: usize) -> (found: bool)
    ensures
        found == neighbours@.contains(node),
{
    let mut i: usize = 0;
    while i < neighbours.len()
        invariant
            i <= neighbours@.len(),
            forall|j: int| 0 <= j < i ==> neighbours@[j] != node,
        decreases neighbours@.len() - i,
    {
        if neighbours[i] == node {
            return true;
        }
        i = i + 1;
    }
    false
}

} // verus!
