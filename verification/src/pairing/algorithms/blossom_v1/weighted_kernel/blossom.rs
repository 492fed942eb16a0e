use vstd::prelude::*;

use super::{
    read, store, BlossomPairingError, DenseBlossomKernel, DenseEdge, INNER, OUTER, UNREACHED,
    invalid_kernel, solver_fault,
};

verus! {

/// The vector with every element after the first in reverse order.
fn reverse_tail(values: &Vec<usize>) -> (reversed: Vec<usize>)
    ensures
        reversed@.len() == values@.len(),
        values@.len() > 0 ==> reversed@[0] == values@[0],
        forall|i: int| 1 <= i < values@.len() ==> #[trigger] reversed@[i] == values@[values@.len() - i],
{
    let mut reversed: Vec<usize> = Vec::new();
    if values.len() == 0 {
        return reversed;
    }
    reversed.push(values[0]);
    let mut i: usize = values.len() - 1;
    while i >= 1
        invariant
            0 <= i < values@.len(),
            reversed@.len() == values@.len() - i,
            reversed@[0] == values@[0],
            forall|j: int| 1 <= j < reversed@.len() ==> #[trigger] reversed@[j] == values@[values@.len() - j],
        decreases i,
    {
        reversed.push(values[i]);
        i = i - 1;
    }
    reversed
}

/// The vector rotated left by `shift` places.
fn rotate_left(values: &Vec<usize>, shift: usize) -> (rotated: Vec<usize>)
    requires
        shift <= values@.len(),
    ensures
        rotated@ == values@.subrange(shift as int, values@.len() as int) + values@.subrange(0, shift as int),
{
    let mut rotated: Vec<usize> = Vec::new();
    let mut i: usize = shift;
    while i < values.len()
        invariant
            shift <= i <= values@.len(),
            rotated@ == values@.subrange(shift as int, i as int),
        decreases values@.len() - i,
    {
        rotated.push(values[i]);
        i = i + 1;
    }
    let mut j: usize = 0;
    while j < shift
        invariant
            j <= shift <= values@.len(),
            rotated@ == values@.subrange(shift as int, values@.len() as int) + values@.subrange(0, j as int),
        decreases shift - j,
    {
        rotated.push(values[j]);
        j = j + 1;
    }
    rotated
}

impl DenseBlossomKernel {
    /// Matches `node` along its edge to `partner`; inside a blossom, the
    /// entry member takes the outside partner and the members before it are
    /// rematched in pairs, so the base moves to the entry.
    pub(super) fn set_match(&mut self, node: usize, partner: usize, depth: usize) -> (outcome: Result<
        (),
        BlossomPairingError,
    >)
        ensures
            solver_fault(outcome),
        decreases depth,
    {
        let edge = self.edge(node, partner)?;
        store(&mut self.mates, node, edge.target)?;
        if node <= self.original_count {
            return Ok(());
        }
        if depth == 0 {
            return Err(invalid_kernel());
        }
        let entry = read(&self.blossom_origin, self.origin_cell(node, edge.source)?)?;
        let position = self.rotate_entry_to_even_position(node, entry)?;
        let members = self.members(node)?;
        let mut index: usize = 0;
        while index < position
            invariant
                depth > 0,
            decreases position - index,
        {
            let member = read(&members, index)?;
            let paired = read(&members, index ^ 1)?;
            self.set_match(member, paired, depth - 1)?;
            index = index + 1;
        }
        self.set_match(entry, partner, depth - 1)?;
        let members = self.members(node)?;
        if position > members.len() {
            return Err(invalid_kernel());
        }
        let rotated = rotate_left(&members, position);
        store(&mut self.blossom_members, node, rotated)?;
        Ok(())
    }

    /// Flips the alternating path from `node` back to its tree root, matching
    /// `node` to `partner` first.
    pub(super) fn augment(&mut self, node: usize, partner: usize) -> (outcome: Result<(), BlossomPairingError>)
        ensures
            solver_fault(outcome),
    {
        let depth = self.capacity;
        let steps = self.capacity;
        let mut node = node;
        let mut partner = partner;
        let mut step: usize = 0;
        while step < steps
            decreases steps - step,
        {
            step = step + 1;
            let displaced = self.top(read(&self.mates, node)?)?;
            self.set_match(node, partner, depth)?;
            if displaced == 0 {
                return Ok(());
            }
            let parent_top = self.top(read(&self.parents, displaced)?)?;
            self.set_match(displaced, parent_top, depth)?;
            node = parent_top;
            partner = displaced;
        }
        Err(invalid_kernel())
    }

    /// Walks up from both blossoms in turn and returns the first blossom
    /// reached twice, or 0 when the paths end in different roots.
    pub(super) fn lowest_common_ancestor(&mut self, first: usize, second: usize) -> (outcome: Result<
        usize,
        BlossomPairingError,
    >)
        ensures
            solver_fault(outcome),
    {
        self.visit_clock = match self.visit_clock.checked_add(1) {
            Some(clock) => clock,
            None => return Err(invalid_kernel()),
        };
        let steps = match self.capacity.checked_mul(4) {
            Some(steps) => steps,
            None => return Err(invalid_kernel()),
        };
        let mut first = first;
        let mut second = second;
        let mut step: usize = 0;
        while step < steps
            decreases steps - step,
        {
            step = step + 1;
            if first != 0 {
                if read(&self.visited_at, first)? == self.visit_clock {
                    return Ok(first);
                }
                store(&mut self.visited_at, first, self.visit_clock)?;
                first = self.top(read(&self.mates, first)?)?;
                if first != 0 {
                    first = self.top(read(&self.parents, first)?)?;
                }
            }
            let swapped = first;
            first = second;
            second = swapped;
            if first == 0 && second == 0 {
                return Ok(0);
            }
        }
        Err(invalid_kernel())
    }

    /// Contracts the odd cycle through `first`, `base` and `second` into a
    /// new outer blossom with dual 0.
    pub(super) fn add_blossom(&mut self, first: usize, base: usize, second: usize) -> (outcome: Result<
        (),
        BlossomPairingError,
    >)
        ensures
            solver_fault(outcome),
    {
        let blossom = self.allocate_blossom()?;
        store(&mut self.duals, blossom, 0)?;
        store(&mut self.forest_state, blossom, OUTER)?;
        let base_mate = read(&self.mates, base)?;
        store(&mut self.mates, blossom, base_mate)?;
        let mut members: Vec<usize> = Vec::new();
        members.push(base);
        self.append_blossom_path(&mut members, first, base)?;
        let mut members = reverse_tail(&members);
        self.append_blossom_path(&mut members, second, base)?;
        store(&mut self.blossom_members, blossom, members)?;
        let depth = self.capacity;
        self.set_top_level(blossom, blossom, depth)?;
        self.rebuild_blossom_edges(blossom)?;
        self.set_slack(blossom)
    }

    /// Dissolves an inner blossom whose dual reached 0: the members on the
    /// even side of the path from its entry keep the tree's labels, the rest
    /// become unreached.
    pub(super) fn expand_blossom(&mut self, blossom: usize) -> (outcome: Result<(), BlossomPairingError>)
        ensures
            solver_fault(outcome),
    {
        let depth = self.capacity;
        let members = self.members(blossom)?;
        let mut i: usize = 0;
        while i < members.len()
            decreases members@.len() - i,
        {
            self.set_top_level(members[i], members[i], depth)?;
            i = i + 1;
        }
        let blossom_parent = read(&self.parents, blossom)?;
        let parent_edge = self.edge(blossom, blossom_parent)?;
        let entry = read(&self.blossom_origin, self.origin_cell(blossom, parent_edge.source)?)?;
        let position = self.rotate_entry_to_even_position(blossom, entry)?;
        let members = self.members(blossom)?;
        let mut index: usize = 0;
        while index < position
            invariant
                index <= position + 1,
            decreases position + 2 - index,
        {
            let inner = read(&members, index)?;
            if index == usize::MAX {
                return Err(invalid_kernel());
            }
            let outer = read(&members, index + 1)?;
            let link = self.edge(outer, inner)?;
            store(&mut self.parents, inner, link.source)?;
            store(&mut self.forest_state, inner, INNER)?;
            store(&mut self.forest_state, outer, OUTER)?;
            store(&mut self.slack_sources, inner, 0)?;
            self.set_slack(outer)?;
            self.queue_push(outer, depth)?;
            if index > usize::MAX - 2 {
                return Err(invalid_kernel());
            }
            index = index + 2;
        }
        store(&mut self.forest_state, entry, INNER)?;
        store(&mut self.parents, entry, blossom_parent)?;
        if position == usize::MAX {
            return Err(invalid_kernel());
        }
        let mut rest: usize = position + 1;
        while rest < members.len()
            decreases members@.len() - rest,
        {
            let member = members[rest];
            store(&mut self.forest_state, member, UNREACHED)?;
            self.set_slack(member)?;
            rest = rest + 1;
        }
        store(&mut self.top_level, blossom, 0)?;
        Ok(())
    }

    /// The lowest free blossom number, growing the active range when none
    /// is free.
    fn allocate_blossom(&mut self) -> (outcome: Result<usize, BlossomPairingError>)
        ensures
            solver_fault(outcome),
    {
        if self.original_count == usize::MAX {
            return Err(invalid_kernel());
        }
        let mut blossom: usize = self.original_count + 1;
        while blossom <= self.active_count && self.top(blossom)? != 0
            decreases self.active_count + 1 - blossom,
        {
            if blossom == usize::MAX {
                return Err(invalid_kernel());
            }
            blossom = blossom + 1;
        }
        if blossom > self.active_count {
            self.active_count = match self.active_count.checked_add(1) {
                Some(count) => count,
                None => return Err(invalid_kernel()),
            };
            blossom = self.active_count;
        }
        if blossom >= self.capacity {
            return Err(invalid_kernel());
        }
        Ok(blossom)
    }

    /// Appends the path from `node` down to `base` to the member list, each
    /// blossom followed by its mate, and queues the mates as outer.
    fn append_blossom_path(&mut self, members: &mut Vec<usize>, node: usize, base: usize) -> (outcome:
        Result<(), BlossomPairingError>)
        ensures
            solver_fault(outcome),
    {
        let depth = self.capacity;
        let steps = self.capacity;
        let mut node = node;
        let mut step: usize = 0;
        while node != base
            invariant
                step <= steps,
            decreases steps - step,
        {
            if step == steps {
                return Err(invalid_kernel());
            }
            step = step + 1;
            members.push(node);
            let matched = self.top(read(&self.mates, node)?)?;
            if matched == 0 {
                return Err(invalid_kernel());
            }
            members.push(matched);
            self.queue_push(matched, depth)?;
            node = self.top(read(&self.parents, matched)?)?;
        }
        Ok(())
    }

    /// Gives the blossom, towards every other node, the best edge of its
    /// members (lowest reduced cost, then lowest candidate index), and
    /// records through which member each original node is reached.
    fn rebuild_blossom_edges(&mut self, blossom: usize) -> (outcome: Result<(), BlossomPairingError>)
        ensures
            solver_fault(outcome),
    {
        let mut node: usize = 1;
        let node_end = self.active_count;
        while node <= node_end
            invariant
                1 <= node,
            decreases node_end + 1 - node,
        {
            self.set_edge(blossom, node, DenseEdge::empty(blossom, node))?;
            self.set_edge(node, blossom, DenseEdge::empty(node, blossom))?;
            if node == usize::MAX {
                return Err(invalid_kernel());
            }
            node = node + 1;
        }
        let mut original: usize = 0;
        let original_end = self.original_count;
        while original <= original_end
            decreases original_end + 1 - original,
        {
            let position = self.origin_cell(blossom, original)?;
            store(&mut self.blossom_origin, position, 0)?;
            if original == usize::MAX {
                return Err(invalid_kernel());
            }
            original = original + 1;
        }
        let members = self.members(blossom)?;
        let mut i: usize = 0;
        while i < members.len()
            decreases members@.len() - i,
        {
            let member = members[i];
            let mut node: usize = 1;
            let node_end = self.active_count;
            while node <= node_end
                invariant
                    1 <= node,
                decreases node_end + 1 - node,
            {
                let candidate = self.edge(member, node)?;
                let current = self.edge(blossom, node)?;
                if candidate.weight > 0 && (current.weight == 0 || self.edge_precedes(candidate, current)?) {
                    self.set_edge(blossom, node, candidate)?;
                    let back = self.edge(node, member)?;
                    self.set_edge(node, blossom, back)?;
                }
                if node == usize::MAX {
                    return Err(invalid_kernel());
                }
                node = node + 1;
            }
            let mut original: usize = 1;
            let original_end = self.original_count;
            while original <= original_end
                invariant
                    1 <= original,
                decreases original_end + 1 - original,
            {
                if read(&self.blossom_origin, self.origin_cell(member, original)?)? != 0 {
                    let position = self.origin_cell(blossom, original)?;
                    store(&mut self.blossom_origin, position, member)?;
                }
                if original == usize::MAX {
                    return Err(invalid_kernel());
                }
                original = original + 1;
            }
            i = i + 1;
        }
        Ok(())
    }

    /// Whether `candidate` has the smaller (reduced cost, candidate index)
    /// key, an edge without candidate counting as the largest index.
    fn edge_precedes(&self, candidate: DenseEdge, current: DenseEdge) -> (outcome: Result<bool, BlossomPairingError>)
        ensures
            solver_fault(outcome),
    {
        let candidate_cost = self.reduced_cost(candidate)?;
        let current_cost = self.reduced_cost(current)?;
        let candidate_index = match candidate.candidate_edge_index {
            Some(index) => index,
            None => usize::MAX,
        };
        let current_index = match current.candidate_edge_index {
            Some(index) => index,
            None => usize::MAX,
        };
        Ok(candidate_cost < current_cost || (candidate_cost == current_cost && candidate_index < current_index))
    }

    /// Orders the members so that `entry` sits at an even position counted
    /// from the base (reversing the cycle when needed) and returns that
    /// position.
    fn rotate_entry_to_even_position(&mut self, blossom: usize, entry: usize) -> (outcome: Result<
        usize,
        BlossomPairingError,
    >)
        ensures
            solver_fault(outcome),
    {
        let members = self.members(blossom)?;
        let mut position: usize = 0;
        while position < members.len() && members[position] != entry
            invariant
                position <= members@.len(),
            decreases members@.len() - position,
        {
            position = position + 1;
        }
        if position == members.len() {
            return Err(invalid_kernel());
        }
        if position % 2 == 1 {
            let reversed = reverse_tail(&members);
            store(&mut self.blossom_members, blossom, reversed)?;
            Ok(members.len() - position)
        } else {
            Ok(position)
        }
    }
}

} // verus!
