use vstd::prelude::*;

use super::{
    read, store, BlossomPairingError, DenseBlossomKernel, DenseEdge, INNER, OUTER, UNREACHED,
    invalid_kernel, non_integral_dual_adjustment, solver_fault,
};

verus! {

impl DenseBlossomKernel {
    /// The step budget of one stage: far above the number of dual updates,
    /// contractions and expansions of a correct run.
    fn stage_budget(&self) -> (outcome: Result<usize, BlossomPairingError>)
        ensures
            solver_fault(outcome),
    {
        match self.capacity.checked_mul(self.capacity) {
            Some(square) => match square.checked_mul(4) {
                Some(budget) => Ok(budget),
                None => Err(invalid_kernel()),
            },
            None => Err(invalid_kernel()),
        }
    }

    /// One stage of the primal-dual search: grows alternating trees from the
    /// free nodes along tight edges, contracts and expands blossoms, and
    /// adjusts the duals until an augmenting path is found (`true`) or no
    /// further progress is possible (`false`).
    pub(super) fn augment_stage(&mut self) -> (outcome: Result<bool, BlossomPairingError>)
        ensures
            solver_fault(outcome),
    {
        self.begin_forest()?;
        if self.queue_head >= self.queue.len() {
            return Ok(false);
        }
        let budget = self.stage_budget()?;
        let mut rounds: usize = 0;
        while rounds < budget
            decreases budget - rounds,
        {
            rounds = rounds + 1;
            let mut pops: usize = 0;
            while self.queue_head < self.queue.len() && pops < budget
                decreases budget - pops,
            {
                pops = pops + 1;
                let source = self.queue[self.queue_head];
                self.queue_head = self.queue_head + 1;
                let source_top = self.top(source)?;
                if read(&self.forest_state, source_top)? == INNER {
                    continue;
                }
                let mut target: usize = 1;
                let target_end = self.original_count;
                while target <= target_end
                    invariant
                        1 <= target,
                    decreases target_end + 1 - target,
                {
                    let edge = self.edge(source, target)?;
                    let target_top = self.top(target)?;
                    let source_top = self.top(source)?;
                    if edge.weight != 0 && source_top != target_top {
                        if self.nonnegative_reduced_cost(edge)? == 0 {
                            if self.process_tight_edge(edge)? {
                                return Ok(true);
                            }
                        } else {
                            self.update_slack(source, target_top)?;
                        }
                    }
                    if target == usize::MAX {
                        return Err(invalid_kernel());
                    }
                    target = target + 1;
                }
            }
            if self.queue_head < self.queue.len() {
                return Err(invalid_kernel());
            }
            let delta = match self.next_delta()? {
                Some(delta) => delta,
                None => return Ok(false),
            };
            if !self.apply_delta(delta)? {
                return Ok(false);
            }
            self.queue = Vec::new();
            self.queue_head = 0;
            let mut node: usize = 1;
            let node_end = self.active_count;
            while node <= node_end
                invariant
                    1 <= node,
                decreases node_end + 1 - node,
            {
                let slack_source = read(&self.slack_sources, node)?;
                if self.top(node)? == node && slack_source != 0 && self.top(slack_source)? != node {
                    let edge = self.edge(slack_source, node)?;
                    if self.nonnegative_reduced_cost(edge)? == 0 && self.process_tight_edge(edge)? {
                        return Ok(true);
                    }
                }
                if node == usize::MAX {
                    return Err(invalid_kernel());
                }
                node = node + 1;
            }
            if self.original_count == usize::MAX {
                return Err(invalid_kernel());
            }
            let mut blossom: usize = self.original_count + 1;
            let blossom_end = self.active_count;
            while blossom <= blossom_end
                invariant
                    1 <= blossom,
                decreases blossom_end + 1 - blossom,
            {
                if self.top(blossom)? == blossom && read(&self.forest_state, blossom)? == INNER && read(
                    &self.duals,
                    blossom,
                )? == 0 {
                    self.expand_blossom(blossom)?;
                }
                if blossom == usize::MAX {
                    return Err(invalid_kernel());
                }
                blossom = blossom + 1;
            }
        }
        Err(invalid_kernel())
    }

    /// Clears the forest and roots a tree at every free top-level node.
    fn begin_forest(&mut self) -> (outcome: Result<(), BlossomPairingError>)
        ensures
            solver_fault(outcome),
    {
        let mut node: usize = 1;
        let node_end = self.active_count;
        while node <= node_end
            invariant
                1 <= node,
            decreases node_end + 1 - node,
        {
            store(&mut self.forest_state, node, UNREACHED)?;
            store(&mut self.slack_sources, node, 0)?;
            if node == usize::MAX {
                return Err(invalid_kernel());
            }
            node = node + 1;
        }
        self.queue = Vec::new();
        self.queue_head = 0;
        let depth = self.capacity;
        let mut node: usize = 1;
        let node_end = self.active_count;
        while node <= node_end
            invariant
                1 <= node,
            decreases node_end + 1 - node,
        {
            if self.top(node)? == node && read(&self.mates, node)? == 0 {
                store(&mut self.parents, node, 0)?;
                store(&mut self.forest_state, node, OUTER)?;
                self.queue_push(node, depth)?;
            }
            if node == usize::MAX {
                return Err(invalid_kernel());
            }
            node = node + 1;
        }
        Ok(())
    }

    /// Follows a tight edge: labels an unreached blossom and its mate, or
    /// joins two outer trees by augmenting or by contracting a blossom.
    /// Returns whether the matching grew.
    fn process_tight_edge(&mut self, edge: DenseEdge) -> (outcome: Result<bool, BlossomPairingError>)
        ensures
            solver_fault(outcome),
    {
        let first = self.top(edge.source)?;
        let second = self.top(edge.target)?;
        let state = read(&self.forest_state, second)?;
        if state == UNREACHED {
            store(&mut self.parents, second, edge.source)?;
            store(&mut self.forest_state, second, INNER)?;
            let second_mate = read(&self.mates, second)?;
            let matched = self.top(second_mate)?;
            if matched == 0 {
                return Err(invalid_kernel());
            }
            store(&mut self.slack_sources, second, 0)?;
            store(&mut self.slack_sources, matched, 0)?;
            store(&mut self.forest_state, matched, OUTER)?;
            let depth = self.capacity;
            self.queue_push(matched, depth)?;
        } else if state == OUTER {
            let base = self.lowest_common_ancestor(first, second)?;
            if base == 0 {
                self.augment(first, second)?;
                self.augment(second, first)?;
                return Ok(true);
            }
            self.add_blossom(first, base, second)?;
        } else if state != INNER {
            return Err(invalid_kernel());
        }
        Ok(false)
    }

    /// The largest dual change that keeps every dual and reduced cost
    /// nonnegative, or `None` when nothing limits it.
    fn next_delta(&self) -> (outcome: Result<Option<u128>, BlossomPairingError>)
        ensures
            solver_fault(outcome),
    {
        let mut delta: Option<u128> = None;
        let mut node: usize = 1;
        let node_end = self.original_count;
        while node <= node_end
            invariant
                1 <= node,
            decreases node_end + 1 - node,
        {
            let node_top = self.top(node)?;
            if read(&self.forest_state, node_top)? == OUTER {
                delta = smaller(delta, read(&self.duals, node)?);
            }
            if node == usize::MAX {
                return Err(invalid_kernel());
            }
            node = node + 1;
        }
        if self.original_count == usize::MAX {
            return Err(invalid_kernel());
        }
        let mut blossom: usize = self.original_count + 1;
        let blossom_end = self.active_count;
        while blossom <= blossom_end
            invariant
                1 <= blossom,
            decreases blossom_end + 1 - blossom,
        {
            if self.top(blossom)? == blossom && read(&self.forest_state, blossom)? == INNER {
                delta = smaller(delta, half_even(read(&self.duals, blossom)?)?);
            }
            if blossom == usize::MAX {
                return Err(invalid_kernel());
            }
            blossom = blossom + 1;
        }
        let mut node: usize = 1;
        let node_end = self.active_count;
        while node <= node_end
            invariant
                1 <= node,
            decreases node_end + 1 - node,
        {
            let source = read(&self.slack_sources, node)?;
            if self.top(node)? == node && source != 0 {
                let reduced_cost = self.nonnegative_reduced_cost(self.edge(source, node)?)?;
                let state = read(&self.forest_state, node)?;
                if state == UNREACHED {
                    delta = smaller(delta, reduced_cost);
                } else if state == OUTER {
                    delta = smaller(delta, half_even(reduced_cost)?);
                } else if state != INNER {
                    return Err(invalid_kernel());
                }
            }
            if node == usize::MAX {
                return Err(invalid_kernel());
            }
            node = node + 1;
        }
        Ok(delta)
    }

    /// Lowers outer and raises inner node duals by `delta`, and moves
    /// top-level blossom duals the other way by twice as much. Returns
    /// `false`, changing nothing, when an outer node's dual equals `delta`.
    fn apply_delta(&mut self, delta: u128) -> (outcome: Result<bool, BlossomPairingError>)
        ensures
            solver_fault(outcome),
    {
        let mut node: usize = 1;
        let node_end = self.original_count;
        while node <= node_end
            invariant
                1 <= node,
            decreases node_end + 1 - node,
        {
            let node_top = self.top(node)?;
            if read(&self.forest_state, node_top)? == OUTER && read(&self.duals, node)? == delta {
                return Ok(false);
            }
            if node == usize::MAX {
                return Err(invalid_kernel());
            }
            node = node + 1;
        }
        let mut node: usize = 1;
        let node_end = self.original_count;
        while node <= node_end
            invariant
                1 <= node,
            decreases node_end + 1 - node,
        {
            let node_top = self.top(node)?;
            let state = read(&self.forest_state, node_top)?;
            let dual = read(&self.duals, node)?;
            if state == OUTER {
                match dual.checked_sub(delta) {
                    Some(lowered) => store(&mut self.duals, node, lowered)?,
                    None => return Err(invalid_kernel()),
                }
            } else if state == INNER {
                match dual.checked_add(delta) {
                    Some(raised) => store(&mut self.duals, node, raised)?,
                    None => return Err(invalid_kernel()),
                }
            }
            if node == usize::MAX {
                return Err(invalid_kernel());
            }
            node = node + 1;
        }
        let doubled = match delta.checked_mul(2) {
            Some(doubled) => doubled,
            None => return Err(invalid_kernel()),
        };
        if self.original_count == usize::MAX {
            return Err(invalid_kernel());
        }
        let mut blossom: usize = self.original_count + 1;
        let blossom_end = self.active_count;
        while blossom <= blossom_end
            invariant
                1 <= blossom,
            decreases blossom_end + 1 - blossom,
        {
            if self.top(blossom)? == blossom {
                let state = read(&self.forest_state, blossom)?;
                let dual = read(&self.duals, blossom)?;
                if state == OUTER {
                    match dual.checked_add(doubled) {
                        Some(raised) => store(&mut self.duals, blossom, raised)?,
                        None => return Err(invalid_kernel()),
                    }
                } else if state == INNER {
                    match dual.checked_sub(doubled) {
                        Some(lowered) => store(&mut self.duals, blossom, lowered)?,
                        None => return Err(invalid_kernel()),
                    }
                }
            }
            if blossom == usize::MAX {
                return Err(invalid_kernel());
            }
            blossom = blossom + 1;
        }
        Ok(true)
    }
}

/// The smaller of the current minimum and the candidate.
fn smaller(current: Option<u128>, candidate: u128) -> (minimum: Option<u128>)
    ensures
        minimum == match current {
            None => Some(candidate),
            Some(value) => Some(if candidate < value { candidate } else { value }),
        },
{
    match current {
        None => Some(candidate),
        Some(value) => if candidate < value {
            Some(candidate)
        } else {
            Some(value)
        },
    }
}

/// Half of an even value; an odd value means the duals lost integrality.
fn half_even(value: u128) -> (outcome: Result<u128, BlossomPairingError>)
    ensures
        outcome matches Ok(half) ==> value % 2 == 0 && half == value / 2,
        outcome is Err ==> value % 2 == 1,
        solver_fault(outcome),
{
    if value % 2 == 0 {
        Ok(value / 2)
    } else {
        Err(non_integral_dual_adjustment())
    }
}

} // verus!
