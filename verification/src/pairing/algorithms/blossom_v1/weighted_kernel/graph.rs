use vstd::prelude::*;

use super::{
    read, store, BlossomPairingError, DenseBlossomKernel, DenseEdge, InvalidSolverOutputReason, OUTER,
    invalid_kernel, solver_fault,
};

verus! {

impl DenseBlossomKernel {
    /// The sum of the two end duals and twice the edge weight, both checked.
    fn dual_terms(&self, edge: DenseEdge) -> (outcome: Result<(u128, u128), BlossomPairingError>)
        ensures
            solver_fault(outcome),
            outcome matches Ok((dual_sum, doubled)) ==> doubled == 2 * edge.weight,
    {
        let first = read(&self.duals, edge.source)?;
        let second = read(&self.duals, edge.target)?;
        let dual_sum = match first.checked_add(second) {
            Some(sum) => sum,
            None => return Err(invalid_kernel()),
        };
        let doubled_weight = match edge.weight.checked_mul(2) {
            Some(doubled) => doubled,
            None => return Err(invalid_kernel()),
        };
        Ok((dual_sum, doubled_weight))
    }

    /// The dual sum of the edge's ends minus twice its weight.
    pub(super) fn reduced_cost(&self, edge: DenseEdge) -> (outcome: Result<i128, BlossomPairingError>)
        ensures
            solver_fault(outcome),
    {
        let (dual_sum, doubled_weight) = self.dual_terms(edge)?;
        if dual_sum > i128::MAX as u128 || doubled_weight > i128::MAX as u128 {
            return Err(invalid_kernel());
        }
        Ok(dual_sum as i128 - doubled_weight as i128)
    }

    /// The reduced cost, which a feasible dual state never makes negative.
    pub(super) fn nonnegative_reduced_cost(&self, edge: DenseEdge) -> (outcome: Result<u128, BlossomPairingError>)
        ensures
            solver_fault(outcome),
    {
        let reduced = self.reduced_cost(edge)?;
        let (dual_sum, doubled_weight) = self.dual_terms(edge)?;
        if reduced < 0 {
            return Err(
                BlossomPairingError::InvalidSolverOutput {
                    reason: InvalidSolverOutputReason::NegativeReducedCost {
                        first_node: edge.source,
                        second_node: edge.target,
                        dual_sum,
                        doubled_weight,
                    },
                },
            );
        }
        Ok(reduced as u128)
    }

    /// Records `source` as the slack source of `target` when it has none yet
    /// or `source` offers a smaller (reduced cost, candidate index) key.
    pub(super) fn update_slack(&mut self, source: usize, target: usize) -> (outcome: Result<(), BlossomPairingError>)
        ensures
            solver_fault(outcome),
    {
        let current = read(&self.slack_sources, target)?;
        let replace = if current == 0 {
            true
        } else {
            let (cost, index) = self.edge_key(source, target)?;
            let (current_cost, current_index) = self.edge_key(current, target)?;
            cost < current_cost || (cost == current_cost && index < current_index)
        };
        if replace {
            store(&mut self.slack_sources, target, source)?;
        }
        Ok(())
    }

    /// Recomputes the slack source of `target` over the outer nodes.
    pub(super) fn set_slack(&mut self, target: usize) -> (outcome: Result<(), BlossomPairingError>)
        ensures
            solver_fault(outcome),
    {
        store(&mut self.slack_sources, target, 0)?;
        let mut source: usize = 1;
        let source_end = self.original_count;
        while source <= source_end
            invariant
                1 <= source,
            decreases source_end + 1 - source,
        {
            let edge = self.edge(source, target)?;
            let source_top = self.top(source)?;
            if edge.weight > 0 && source_top != target && read(&self.forest_state, source_top)? == OUTER {
                self.update_slack(source, target)?;
            }
            if source == usize::MAX {
                return Err(invalid_kernel());
            }
            source = source + 1;
        }
        Ok(())
    }

    /// Queues `node`, or every original node inside it when it is a blossom;
    /// `depth` bounds the nesting that is followed.
    pub(super) fn queue_push(&mut self, node: usize, depth: usize) -> (outcome: Result<(), BlossomPairingError>)
        ensures
            solver_fault(outcome),
        decreases depth,
    {
        if node <= self.original_count {
            self.queue.push(node);
            return Ok(());
        }
        if depth == 0 {
            return Err(invalid_kernel());
        }
        let members = self.members(node)?;
        let mut i: usize = 0;
        while i < members.len()
            invariant
                depth > 0,
            decreases members@.len() - i,
        {
            self.queue_push(members[i], depth - 1)?;
            i = i + 1;
        }
        Ok(())
    }

    /// Makes `blossom` the top-level blossom of `node` and of everything
    /// nested inside it; `depth` bounds the nesting that is followed.
    pub(super) fn set_top_level(&mut self, node: usize, blossom: usize, depth: usize) -> (outcome: Result<
        (),
        BlossomPairingError,
    >)
        ensures
            solver_fault(outcome),
        decreases depth,
    {
        store(&mut self.top_level, node, blossom)?;
        if node > self.original_count {
            if depth == 0 {
                return Err(invalid_kernel());
            }
            let members = self.members(node)?;
            let mut i: usize = 0;
            while i < members.len()
                invariant
                    depth > 0,
                decreases members@.len() - i,
            {
                self.set_top_level(members[i], blossom, depth - 1)?;
                i = i + 1;
            }
        }
        Ok(())
    }

    /// The reduced cost of the edge and its candidate index, the index of an
    /// edge without candidate counting as the largest.
    pub(super) fn edge_key(&self, source: usize, target: usize) -> (outcome: Result<(i128, usize), BlossomPairingError>)
        ensures
            solver_fault(outcome),
    {
        let edge = self.edge(source, target)?;
        let cost = self.reduced_cost(edge)?;
        let index = match edge.candidate_edge_index {
            Some(index) => index,
            None => usize::MAX,
        };
        Ok((cost, index))
    }
}

} // verus!
