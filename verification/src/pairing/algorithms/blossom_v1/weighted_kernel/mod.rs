//! Dense primal-dual weighted Blossom kernel.
//!
//! The kernel owns contraction, expansion, alternating-forest search, and
//! augmentation. Its numeric node and edge indexes never cross this module's
//! boundary; successful output maps back to stable candidate-edge indexes.
//!
//! Node 0 stands for "none"; original nodes are `1..=original_count` and
//! blossoms take the numbers above them. Every table read and write is
//! bounds-checked and a failed check reports a broken blossom structure, so
//! the search never panics. Loops that the algorithm bounds only through its
//! dual updates carry a step budget far above what a correct run needs.
use vstd::prelude::*;

mod blossom;
mod graph;
mod stage;

use super::weighted_graph::{WeightedSolverEdge, WeightedSolverGraph};
use super::{BlossomPairingError, InvalidSolverOutputReason};

verus! {

const UNREACHED: i8 = -1;
const OUTER: i8 = 0;
const INNER: i8 = 1;

#[derive(Clone, Copy, Debug, PartialEq, Eq)]
struct DenseEdge {
    pub source: usize,
    pub target: usize,
    pub weight: u128,
    pub candidate_edge_index: Option<usize>,
}

impl DenseEdge {
    fn empty(source: usize, target: usize) -> (edge: Self)
        ensures
            edge == (DenseEdge { source, target, weight: 0, candidate_edge_index: None }),
    {
        DenseEdge { source, target, weight: 0, candidate_edge_index: None }
    }
}

/// The search state. `edges` is a `capacity` by `capacity` matrix in row
/// order and `blossom_origin` a `capacity` by `original_count + 1` matrix.
struct DenseBlossomKernel {
    original_count: usize,
    active_count: usize,
    capacity: usize,
    edges: Vec<DenseEdge>,
    duals: Vec<u128>,
    mates: Vec<usize>,
    slack_sources: Vec<usize>,
    top_level: Vec<usize>,
    parents: Vec<usize>,
    blossom_origin: Vec<usize>,
    blossom_members: Vec<Vec<usize>>,
    forest_state: Vec<i8>,
    visited_at: Vec<u64>,
    visit_clock: u64,
    queue: Vec<usize>,
    queue_head: usize,
}

/// A failure of the search is reported as invalid solver output.
pub open spec fn solver_fault<T>(outcome: Result<T, BlossomPairingError>) -> bool {
    outcome matches Err(e) ==> e is InvalidSolverOutput
}

fn invalid_kernel() -> (error: BlossomPairingError)
    ensures
        error == (BlossomPairingError::InvalidSolverOutput {
            reason: InvalidSolverOutputReason::InvalidBlossomStructure,
        }),
{
    BlossomPairingError::InvalidSolverOutput { reason: InvalidSolverOutputReason::InvalidBlossomStructure }
}

fn non_integral_dual_adjustment() -> (error: BlossomPairingError)
    ensures
        error == (BlossomPairingError::InvalidSolverOutput {
            reason: InvalidSolverOutputReason::NonIntegralDualAdjustment,
        }),
{
    BlossomPairingError::InvalidSolverOutput { reason: InvalidSolverOutputReason::NonIntegralDualAdjustment }
}

/// The element at `index`, or a structure error when it is out of range.
fn read<T: Copy>(values: &Vec<T>, index: usize) -> (outcome: Result<T, BlossomPairingError>)
    ensures
        outcome matches Ok(value) ==> index < values@.len() && value == values@[index as int],
        outcome is Err ==> index >= values@.len(),
        solver_fault(outcome),
{
    if index < values.len() {
        Ok(values[index])
    } else {
        Err(invalid_kernel())
    }
}

/// Replaces the element at `index`, or reports a structure error when it is
/// out of range and leaves the vector as it was.
fn store<T>(values: &mut Vec<T>, index: usize, value: T) -> (outcome: Result<(), BlossomPairingError>)
    ensures
        outcome is Ok ==> index < old(values)@.len() && final(values)@ == old(values)@.update(index as int, value),
        outcome is Err ==> index >= old(values)@.len() && final(values)@ == old(values)@,
        solver_fault(outcome),
{
    if index < values.len() {
        values.set(index, value);
        Ok(())
    } else {
        Err(invalid_kernel())
    }
}

/// A copy of the vector.
fn copy_nodes(values: &Vec<usize>) -> (copy: Vec<usize>)
    ensures
        copy@ == values@,
{
    let mut copy: Vec<usize> = Vec::new();
    let mut i: usize = 0;
    while i < values.len()
        invariant
            i <= values@.len(),
            copy@ == values@.subrange(0, i as int),
        decreases values@.len() - i,
    {
        copy.push(values[i]);
        i = i + 1;
    }
    copy
}

/// A vector of `count` copies of `value`.
fn filled<T: Copy>(value: T, count: usize) -> (values: Vec<T>)
    ensures
        values@.len() == count,
        forall|i: int| 0 <= i < count ==> #[trigger] values@[i] == value,
{
    let mut values: Vec<T> = Vec::new();
    let mut i: usize = 0;
    while i < count
        invariant
            i <= count,
            values@.len() == i,
            forall|j: int| 0 <= j < i ==> #[trigger] values@[j] == value,
        decreases count - i,
    {
        values.push(value);
        i = i + 1;
    }
    values
}

impl DenseBlossomKernel {
    /// Cell (`row`, `column`) lies in the edge matrix, which holds one edge
    /// per cell.
    spec fn fits_cell(&self, row: usize, column: usize) -> bool {
        &&& row < self.capacity
        &&& column < self.capacity
        &&& self.capacity * self.capacity <= usize::MAX
        &&& self.edges@.len() == self.capacity * self.capacity
    }

    /// The position of cell (`row`, `column`) in the edge matrix.
    fn cell(&self, row: usize, column: usize) -> (outcome: Result<usize, BlossomPairingError>)
        ensures
            solver_fault(outcome),
            row < self.capacity && column < self.capacity && self.capacity * self.capacity <= usize::MAX
                ==> outcome == Ok::<usize, BlossomPairingError>((row * self.capacity + column) as usize),
            outcome matches Ok(position) ==> position == row * self.capacity + column,
    {
        proof {
            if row < self.capacity && column < self.capacity && self.capacity * self.capacity <= usize::MAX {
                assert(row * self.capacity + column < self.capacity * self.capacity) by (nonlinear_arith)
                    requires
                        row < self.capacity,
                        column < self.capacity,
                ;
            }
        }
        let start = match row.checked_mul(self.capacity) {
            Some(start) => start,
            None => return Err(invalid_kernel()),
        };
        match start.checked_add(column) {
            Some(position) => Ok(position),
            None => Err(invalid_kernel()),
        }
    }

    fn edge(&self, row: usize, column: usize) -> (outcome: Result<DenseEdge, BlossomPairingError>)
        ensures
            solver_fault(outcome),
            self.fits_cell(row, column) ==> outcome == Ok::<DenseEdge, BlossomPairingError>(
                self.edges@[row * self.capacity + column],
            ),
    {
        proof {
            if self.fits_cell(row, column) {
                assert(row * self.capacity + column < self.capacity * self.capacity) by (nonlinear_arith)
                    requires
                        row < self.capacity,
                        column < self.capacity,
                ;
            }
        }
        let position = self.cell(row, column)?;
        read(&self.edges, position)
    }

    fn set_edge(&mut self, row: usize, column: usize, edge: DenseEdge) -> (outcome: Result<(), BlossomPairingError>)
        ensures
            solver_fault(outcome),
            old(self).fits_cell(row, column) ==> outcome is Ok,
            final(self).capacity == old(self).capacity,
            final(self).edges@.len() == old(self).edges@.len(),
            outcome is Ok ==> *final(self) == (DenseBlossomKernel { edges: final(self).edges, ..*old(self) })
                && final(self).edges@ == old(self).edges@.update(row * old(self).capacity + column, edge),
    {
        proof {
            if self.fits_cell(row, column) {
                assert(row * self.capacity + column < self.capacity * self.capacity) by (nonlinear_arith)
                    requires
                        row < self.capacity,
                        column < self.capacity,
                ;
            }
        }
        let position = self.cell(row, column)?;
        store(&mut self.edges, position, edge)
    }

    /// The position of (`blossom`, `original`) in the origin matrix.
    fn origin_cell(&self, blossom: usize, original: usize) -> (outcome: Result<usize, BlossomPairingError>)
        ensures
            solver_fault(outcome),
    {
        let width = match self.original_count.checked_add(1) {
            Some(width) => width,
            None => return Err(invalid_kernel()),
        };
        let start = match blossom.checked_mul(width) {
            Some(start) => start,
            None => return Err(invalid_kernel()),
        };
        match start.checked_add(original) {
            Some(position) => Ok(position),
            None => Err(invalid_kernel()),
        }
    }

    fn top(&self, node: usize) -> (outcome: Result<usize, BlossomPairingError>)
        ensures
            solver_fault(outcome),
    {
        read(&self.top_level, node)
    }

    fn members(&self, blossom: usize) -> (outcome: Result<Vec<usize>, BlossomPairingError>)
        ensures
            solver_fault(outcome),
    {
        if blossom < self.blossom_members.len() {
            Ok(copy_nodes(&self.blossom_members[blossom]))
        } else {
            Err(invalid_kernel())
        }
    }

    /// Sets up the matrices for `original_count` nodes and room for as many
    /// blossoms, keeps the heaviest edge between two nodes (the lowest
    /// candidate index among equals), and starts every original node with
    /// the largest edge weight as its dual.
    fn new(graph: &WeightedSolverGraph) -> (outcome: Result<Self, BlossomPairingError>)
        ensures
            solver_fault(outcome),
            matrices_fit(graph) ==> outcome is Ok,
            outcome matches Ok(kernel) ==> {
                let n = graph.spec_node_count();
                let edges = graph.spec_edges();
                let capacity = kernel.capacity as int;
                &&& kernel.original_count == n
                &&& kernel.active_count == n
                &&& capacity == 2 * n + 3
                &&& kernel.edges@.len() == capacity * capacity
                &&& forall|r: int, c: int|
                    0 <= r < capacity && 0 <= c < capacity ==> #[trigger] kernel.edges@[r * capacity + c]
                        == heaviest_edge(edges, r, c, edges.len() as int)
                &&& kernel.duals@.len() == capacity
                &&& forall|v: int|
                    0 <= v < capacity ==> #[trigger] kernel.duals@[v] == if 1 <= v <= n {
                        largest_weight(edges, edges.len() as int)
                    } else {
                        0
                    }
                &&& kernel.mates@.len() == capacity
                &&& forall|v: int| 0 <= v < capacity ==> #[trigger] kernel.mates@[v] == 0
                &&& kernel.top_level@.len() == capacity
                &&& forall|v: int| 0 <= v < capacity ==> #[trigger] kernel.top_level@[v] == if 1 <= v <= n { v as usize } else { 0 }
                &&& kernel.blossom_members@.len() == capacity
                &&& forall|b: int| 0 <= b < capacity ==> (#[trigger] kernel.blossom_members@[b])@.len() == 0
                &&& forall|v: int| 0 <= v < capacity ==> #[trigger] kernel.forest_state@[v] == UNREACHED
            },
    {
        let original_count = graph.unweighted().node_count();
        proof {
            if matrices_fit(graph) {
                let c = 2 * original_count + 3;
                assert(c <= c * c) by (nonlinear_arith)
                    requires
                        1 <= c,
                ;
                assert(c * (original_count + 1) <= c * c) by (nonlinear_arith)
                    requires
                        original_count + 1 <= c,
                        0 <= c,
                ;
            } else if original_count * 2 > usize::MAX {
                assert((2 * original_count + 3) * (2 * original_count + 3) > usize::MAX) by (nonlinear_arith)
                    requires
                        original_count * 2 > usize::MAX,
                ;
            }
        }
        let capacity = match original_count.checked_mul(2) {
            Some(doubled) => match doubled.checked_add(3) {
                Some(capacity) => capacity,
                None => return Err(invalid_kernel()),
            },
            None => return Err(invalid_kernel()),
        };
        let cells = match capacity.checked_mul(capacity) {
            Some(cells) => cells,
            None => return Err(invalid_kernel()),
        };
        let width = original_count + 1;
        let origin_cells = match capacity.checked_mul(width) {
            Some(cells) => cells,
            None => return Err(invalid_kernel()),
        };
        let mut edges: Vec<DenseEdge> = Vec::new();
        let mut source: usize = 0;
        while source < capacity
            invariant
                source <= capacity,
                edges@.len() == source * capacity,
                capacity * capacity == cells,
                capacity > 0,
                forall|idx: int| 0 <= idx < edges@.len() ==> #[trigger] edges@[idx] == (DenseEdge {
                    source: (idx / capacity as int) as usize,
                    target: (idx % capacity as int) as usize,
                    weight: 0,
                    candidate_edge_index: None,
                }),
            decreases capacity - source,
        {
            let mut target: usize = 0;
            while target < capacity
                invariant
                    source < capacity,
                    target <= capacity,
                    edges@.len() == source * capacity + target,
                    capacity * capacity == cells,
                    capacity > 0,
                    forall|idx: int| 0 <= idx < edges@.len() ==> #[trigger] edges@[idx] == (DenseEdge {
                    source: (idx / capacity as int) as usize,
                    target: (idx % capacity as int) as usize,
                    weight: 0,
                    candidate_edge_index: None,
                }),
                decreases capacity - target,
            {
                proof {
                    assert(source * capacity + target < capacity * capacity) by (nonlinear_arith)
                        requires
                            source < capacity,
                            target < capacity,
                    ;
                    lemma_cell_position(source as int, target as int, capacity as int);
                }
                edges.push(DenseEdge::empty(source, target));
                target = target + 1;
            }
            proof {
                assert(source * capacity + capacity == (source + 1) * capacity) by (nonlinear_arith);
            }
            source = source + 1;
        }
        let mut top_level: Vec<usize> = filled(0, capacity);
        let mut blossom_origin: Vec<usize> = filled(0, origin_cells);
        let mut duals: Vec<u128> = filled(0, capacity);
        let mut kernel = DenseBlossomKernel {
            original_count,
            active_count: original_count,
            capacity,
            edges,
            duals: filled(0, capacity),
            mates: filled(0, capacity),
            slack_sources: filled(0, capacity),
            top_level: filled(0, capacity),
            parents: filled(0, capacity),
            blossom_origin: Vec::new(),
            blossom_members: Vec::new(),
            forest_state: filled(UNREACHED, capacity),
            visited_at: filled(0, capacity),
            visit_clock: 0,
            queue: Vec::new(),
            queue_head: 0,
        };
        let weighted_edges = graph.edges();
        let mut maximum_weight: u128 = 0;
        let mut k: usize = 0;
        let ghost initial = kernel;
        proof {
            assert forall|r: int, c: int| 0 <= r < capacity && 0 <= c < capacity implies #[trigger] kernel.edges@[r
                * capacity + c] == heaviest_edge(weighted_edges@, r, c, 0) by {
                lemma_cell_position(r, c, capacity as int);
                assert(r * capacity + c < capacity * capacity) by (nonlinear_arith)
                    requires
                        r < capacity,
                        c < capacity,
                ;
            }
        }
        while k < weighted_edges.len()
            invariant
                k <= weighted_edges@.len(),
                weighted_edges@ == graph.spec_edges(),
                original_count == graph.spec_node_count(),
                capacity == 2 * original_count + 3,
                kernel.capacity == capacity,
                kernel.edges@.len() == capacity * capacity,
                capacity * capacity == cells,
                kernel == (DenseBlossomKernel { edges: kernel.edges, ..initial }),
                maximum_weight == largest_weight(weighted_edges@, k as int),
                forall|r: int, c: int|
                    0 <= r < capacity && 0 <= c < capacity ==> #[trigger] kernel.edges@[r * capacity + c]
                        == heaviest_edge(weighted_edges@, r, c, k as int),
            decreases weighted_edges@.len() - k,
        {
            let edge: WeightedSolverEdge = weighted_edges[k];
            let ghost kk = k as int;
            let ghost before = kernel.edges@;
            k = k + 1;
            if edge.maximum_weight > maximum_weight {
                maximum_weight = edge.maximum_weight;
            }
            if edge.first_node >= original_count || edge.second_node >= original_count {
                return Err(invalid_kernel());
            }
            let first = edge.first_node + 1;
            let second = edge.second_node + 1;
            proof {
                assert(first * capacity + second < capacity * capacity) by (nonlinear_arith)
                    requires
                        first < capacity,
                        second < capacity,
                ;
                assert(second * capacity + first < capacity * capacity) by (nonlinear_arith)
                    requires
                        first < capacity,
                        second < capacity,
                ;
                lemma_heaviest_symmetric(weighted_edges@, first as int, second as int, kk);
                assert(kernel.edges@[second * capacity + first] == heaviest_edge(weighted_edges@, second as int, first as int, kk));
            }
            let current = kernel.edge(first, second)?;
            let replace = edge.maximum_weight > current.weight || (edge.maximum_weight == current.weight
                && match current.candidate_edge_index {
                None => true,
                Some(index) => edge.candidate_edge_index < index,
            });
            if replace {
                kernel.set_edge(
                    first,
                    second,
                    DenseEdge {
                        source: first,
                        target: second,
                        weight: edge.maximum_weight,
                        candidate_edge_index: Some(edge.candidate_edge_index),
                    },
                )?;
                kernel.set_edge(
                    second,
                    first,
                    DenseEdge {
                        source: second,
                        target: first,
                        weight: edge.maximum_weight,
                        candidate_edge_index: Some(edge.candidate_edge_index),
                    },
                )?;
            }
            proof {
                let f = first as int;
                let g = second as int;
                let w = capacity as int;
                assert(weighted_edges@[kk] == edge);
                assert forall|r: int, c: int| 0 <= r < capacity && 0 <= c < capacity implies #[trigger] kernel.edges@[r
                    * capacity + c] == heaviest_edge(weighted_edges@, r, c, kk + 1) by {
                    lemma_cell_position(r, c, w);
                    lemma_cell_position(f, g, w);
                    lemma_cell_position(g, f, w);
                    assert(r * capacity + c < capacity * capacity) by (nonlinear_arith)
                        requires
                            r < capacity,
                            c < capacity,
                    ;
                    assert(before[r * capacity + c] == heaviest_edge(weighted_edges@, r, c, kk));
                    if r * w + c == f * w + g {
                        assert(r == f && c == g);
                    }
                    if r * w + c == g * w + f {
                        assert(r == g && c == f);
                    }
                }
            }
        }
        let mut node: usize = 1;
        while node <= original_count
            invariant
                1 <= node <= original_count + 1,
                width == original_count + 1,
                top_level@.len() == capacity,
                duals@.len() == capacity,
                blossom_origin@.len() == origin_cells,
                capacity == 2 * original_count + 3,
                capacity * width == origin_cells,
                forall|v: int| 0 <= v < capacity ==> #[trigger] top_level@[v] == if 1 <= v < node { v as usize } else { 0 },
                forall|v: int| 0 <= v < capacity ==> #[trigger] duals@[v] == if 1 <= v < node { maximum_weight } else { 0 },
            decreases original_count + 1 - node,
        {
            top_level.set(node, node);
            duals.set(node, maximum_weight);
            proof {
                assert(node * width + node < capacity * width) by (nonlinear_arith)
                    requires
                        node < capacity,
                        node < width,
                ;
            }
            blossom_origin.set(node * width + node, node);
            node = node + 1;
        }
        let mut blossom_members: Vec<Vec<usize>> = Vec::new();
        let mut b: usize = 0;
        while b < capacity
            invariant
                b <= capacity,
                blossom_members@.len() == b,
                forall|j: int| 0 <= j < b ==> (#[trigger] blossom_members@[j])@.len() == 0,
            decreases capacity - b,
        {
            blossom_members.push(Vec::new());
            b = b + 1;
        }
        kernel.top_level = top_level;
        kernel.duals = duals;
        kernel.blossom_origin = blossom_origin;
        kernel.blossom_members = blossom_members;
        Ok(kernel)
    }

    /// The candidate edges joining each original node to its mate, in
    /// ascending order without repeats.
    fn selected_edges(&self) -> (outcome: Result<Vec<usize>, BlossomPairingError>)
        ensures
            solver_fault(outcome),
            outcome matches Ok(selected) ==> forall|i: int, j: int|
                0 <= i < j < selected@.len() ==> selected@[i] < selected@[j],
    {
        let mut chosen: Vec<usize> = Vec::new();
        let mut limit: usize = 0;
        let mut node: usize = 1;
        while node <= self.original_count
            invariant
                1 <= node,
                forall|i: int| 0 <= i < chosen@.len() ==> #[trigger] chosen@[i] < limit,
            decreases self.original_count + 1 - node,
        {
            let mate = read(&self.mates, node)?;
            if mate > node {
                let edge = self.edge(node, mate)?;
                match edge.candidate_edge_index {
                    Some(index) => {
                        if index == usize::MAX {
                            return Err(invalid_kernel());
                        }
                        chosen.push(index);
                        if index + 1 > limit {
                            limit = index + 1;
                        }
                    },
                    None => return Err(invalid_kernel()),
                }
            }
            if node == usize::MAX {
                return Err(invalid_kernel());
            }
            node = node + 1;
        }
        let mut marked: Vec<bool> = filled(false, limit);
        let mut i: usize = 0;
        while i < chosen.len()
            invariant
                marked@.len() == limit,
                forall|j: int| 0 <= j < chosen@.len() ==> #[trigger] chosen@[j] < limit,
            decreases chosen@.len() - i,
        {
            marked.set(chosen[i], true);
            i = i + 1;
        }
        let mut selected: Vec<usize> = Vec::new();
        let mut index: usize = 0;
        while index < limit
            invariant
                index <= limit == marked@.len(),
                forall|a: int, b: int| 0 <= a < b < selected@.len() ==> selected@[a] < selected@[b],
                forall|a: int| 0 <= a < selected@.len() ==> #[trigger] selected@[a] < index,
            decreases limit - index,
        {
            if marked[index] {
                selected.push(index);
            }
            index = index + 1;
        }
        Ok(selected)
    }
}

/// The edge matrix of the weighted search, with room for twice as many
/// blossoms as nodes plus three, has a size that a `usize` holds, and every
/// weighted edge joins two nodes of the graph.
spec fn matrices_fit(graph: &WeightedSolverGraph) -> bool {
    let n = graph.spec_node_count();
    &&& (2 * n + 3) * (2 * n + 3) <= usize::MAX
    &&& forall|k: int|
        0 <= k < graph.spec_edges().len() ==> (#[trigger] graph.spec_edges()[k]).first_node < n
            && graph.spec_edges()[k].second_node < n
}

/// Weighted edge `edge` joins matrix cell (`row`, `column`) in either
/// direction; original node `v` sits at row and column `v + 1`.
spec fn joins_cell(edge: WeightedSolverEdge, row: int, column: int) -> bool {
    ||| (edge.first_node + 1 == row && edge.second_node + 1 == column)
    ||| (edge.second_node + 1 == row && edge.first_node + 1 == column)
}

/// The edge that cell (`row`, `column`) holds after the first `count`
/// weighted edges: the heaviest joining it, the lowest candidate index among
/// equally heavy ones, or an empty edge of weight 0.
spec fn heaviest_edge(edges: Seq<WeightedSolverEdge>, row: int, column: int, count: int) -> DenseEdge
    decreases count,
{
    if count <= 0 {
        DenseEdge { source: row as usize, target: column as usize, weight: 0, candidate_edge_index: None }
    } else {
        let earlier = heaviest_edge(edges, row, column, count - 1);
        let edge = edges[count - 1];
        let heavier = edge.maximum_weight > earlier.weight || (edge.maximum_weight == earlier.weight && match earlier.candidate_edge_index {
            None => true,
            Some(index) => edge.candidate_edge_index < index,
        });
        if joins_cell(edge, row, column) && heavier {
            DenseEdge {
                source: row as usize,
                target: column as usize,
                weight: edge.maximum_weight,
                candidate_edge_index: Some(edge.candidate_edge_index),
            }
        } else {
            earlier
        }
    }
}

/// The largest weight among the first `count` weighted edges, or 0.
spec fn largest_weight(edges: Seq<WeightedSolverEdge>, count: int) -> u128
    decreases count,
{
    if count <= 0 {
        0
    } else {
        let earlier = largest_weight(edges, count - 1);
        if edges[count - 1].maximum_weight > earlier {
            edges[count - 1].maximum_weight
        } else {
            earlier
        }
    }
}

/// Both directions of a cell hold edges of the same weight and candidate.
proof fn lemma_heaviest_symmetric(edges: Seq<WeightedSolverEdge>, row: int, column: int, count: int)
    ensures
        heaviest_edge(edges, row, column, count).weight == heaviest_edge(edges, column, row, count).weight,
        heaviest_edge(edges, row, column, count).candidate_edge_index == heaviest_edge(
            edges,
            column,
            row,
            count,
        ).candidate_edge_index,
    decreases count,
{
    if count > 0 {
        lemma_heaviest_symmetric(edges, row, column, count - 1);
    }
}

/// Cell positions in a `width`-wide row-major matrix are distinct.
proof fn lemma_cell_position(row: int, column: int, width: int)
    requires
        0 <= row,
        0 <= column < width,
    ensures
        (row * width + column) / width == row,
        (row * width + column) % width == column,
        row * width + column >= 0,
{
    vstd::arithmetic::div_mod::lemma_fundamental_div_mod_converse(row * width + column, width, row, column);
    assert(row * width >= 0) by (nonlinear_arith)
        requires
            row >= 0,
            width > 0,
    ;
}

/// Some weighted edge stands for candidate edge `index`.
pub open spec fn names_edge(edges: Seq<WeightedSolverEdge>, index: usize) -> bool {
    exists|k: int| 0 <= k < edges.len() && (#[trigger] edges[k]).candidate_edge_index == index
}

/// Whether `index` is the candidate edge of some weighted edge.
fn names_candidate_edge(edges: &Vec<WeightedSolverEdge>, index: usize) -> (found: bool)
    ensures
        found == names_edge(edges@, index),
{
    let mut k: usize = 0;
    while k < edges.len()
        invariant
            k <= edges@.len(),
            forall|j: int| 0 <= j < k ==> (#[trigger] edges@[j]).candidate_edge_index != index,
        decreases edges@.len() - k,
    {
        if edges[k].candidate_edge_index == index {
            return true;
        }
        k = k + 1;
    }
    false
}

/// The candidate edges of a maximum-weight matching of the weighted graph,
/// ascending and without repeats, or `None` when the matching leaves a node
/// unmatched. The selection names only edges of the graph and has one edge
/// per pair of solver nodes.
pub fn solve_minimum_cost(graph: &WeightedSolverGraph) -> (outcome: Result<
    Option<Vec<usize>>,
    BlossomPairingError,
>)
    ensures
        outcome matches Ok(Some(selected)) ==> {
            &&& selected@.len() == graph.spec_node_count() / 2
            &&& forall|i: int, j: int| 0 <= i < j < selected@.len() ==> selected@[i] < selected@[j]
            &&& forall|i: int| 0 <= i < selected@.len() ==> names_edge(graph.spec_edges(), #[trigger] selected@[i])
        },
        outcome matches Err(e) ==> e is InvalidSolverOutput,
{
    let mut kernel = DenseBlossomKernel::new(graph)?;
    let stages = match kernel.original_count.checked_add(2) {
        Some(stages) => stages,
        None => return Err(invalid_kernel()),
    };
    let mut stage: usize = 0;
    while stage < stages
        decreases stages - stage,
    {
        stage = stage + 1;
        if !kernel.augment_stage()? {
            break;
        }
    }
    let selected = kernel.selected_edges()?;
    let edges = graph.edges();
    let mut i: usize = 0;
    while i < selected.len()
        invariant
            i <= selected@.len(),
            edges@ == graph.spec_edges(),
            forall|j: int| 0 <= j < i ==> names_edge(graph.spec_edges(), #[trigger] selected@[j]),
        decreases selected@.len() - i,
    {
        if !names_candidate_edge(edges, selected[i]) {
            return Err(invalid_kernel());
        }
        i = i + 1;
    }
    if selected.len() == graph.unweighted().node_count() / 2 {
        Ok(Some(selected))
    } else {
        Ok(None)
    }
}

} // verus!
