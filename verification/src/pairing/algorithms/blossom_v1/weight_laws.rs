//! What the weight projection keeps of pairing costs: cheaper edges weigh
//! more, matchings of one size keep their cost order reversed, and a matching
//! with more edges always outweighs one with fewer.
use vstd::prelude::*;

use super::weighted_graph::{spec_cardinality_bonus, spec_edge_weight, spec_weight_offset};

verus! {

/// The sum of the costs.
pub open spec fn cost_sum(costs: Seq<int>) -> int
    decreases costs.len(),
{
    if costs.len() == 0 {
        0
    } else {
        cost_sum(costs.drop_last()) + costs.last()
    }
}

/// The sum of the projected weights of the costs.
pub open spec fn weight_sum(max_cost: int, node_count: int, costs: Seq<int>) -> int
    decreases costs.len(),
{
    if costs.len() == 0 {
        0
    } else {
        weight_sum(max_cost, node_count, costs.drop_last()) + spec_edge_weight(max_cost, node_count, costs.last())
    }
}

proof fn lemma_weight_sum(max_cost: int, node_count: int, costs: Seq<int>)
    ensures
        weight_sum(max_cost, node_count, costs) == costs.len() * (spec_cardinality_bonus(max_cost, node_count)
            + spec_weight_offset(max_cost)) - cost_sum(costs),
    decreases costs.len(),
{
    if costs.len() > 0 {
        lemma_weight_sum(max_cost, node_count, costs.drop_last());
        let per_edge = spec_cardinality_bonus(max_cost, node_count) + spec_weight_offset(max_cost);
        let shorter = costs.drop_last().len();
        assert((shorter + 1) * per_edge == shorter * per_edge + per_edge) by (nonlinear_arith);
    }
}

proof fn lemma_cost_sum_bounds(costs: Seq<int>, max_cost: int)
    requires
        forall|i: int| 0 <= i < costs.len() ==> 0 <= #[trigger] costs[i] <= max_cost,
    ensures
        0 <= cost_sum(costs) <= costs.len() * max_cost,
    decreases costs.len(),
{
    if costs.len() > 0 {
        let shorter = costs.drop_last();
        assert forall|i: int| 0 <= i < shorter.len() implies 0 <= #[trigger] shorter[i] <= max_cost by {
            assert(shorter[i] == costs[i]);
        }
        lemma_cost_sum_bounds(shorter, max_cost);
        let count = shorter.len();
        assert((count + 1) * max_cost == count * max_cost + max_cost) by (nonlinear_arith);
    }
}

/// A cheaper edge weighs more once projected.
pub proof fn law_cheaper_edge_weighs_more(max_cost: int, node_count: int, cheaper: int, dearer: int)
    requires
        cheaper < dearer,
    ensures
        spec_edge_weight(max_cost, node_count, cheaper) > spec_edge_weight(max_cost, node_count, dearer),
{
}

/// Of two matchings with as many edges, the one that costs less in total
/// weighs more in total, by exactly the difference in cost.
pub proof fn law_projection_preserves_matching_order(
    max_cost: int,
    node_count: int,
    first: Seq<int>,
    second: Seq<int>,
)
    requires
        first.len() == second.len(),
    ensures
        weight_sum(max_cost, node_count, first) - weight_sum(max_cost, node_count, second) == cost_sum(second)
            - cost_sum(first),
        cost_sum(first) < cost_sum(second) ==> weight_sum(max_cost, node_count, first) > weight_sum(
            max_cost,
            node_count,
            second,
        ),
{
    lemma_weight_sum(max_cost, node_count, first);
    lemma_weight_sum(max_cost, node_count, second);
}

/// A matching with more edges outweighs one with fewer, whatever their
/// costs between zero and the largest cost, as long as it has at most one
/// edge per pair of nodes.
pub proof fn law_more_edges_outweigh_fewer(max_cost: int, node_count: int, larger: Seq<int>, smaller: Seq<int>)
    requires
        max_cost >= 0,
        node_count >= 0,
        smaller.len() < larger.len() <= node_count / 2,
        forall|i: int| 0 <= i < larger.len() ==> 0 <= #[trigger] larger[i] <= max_cost,
        forall|i: int| 0 <= i < smaller.len() ==> 0 <= #[trigger] smaller[i] <= max_cost,
    ensures
        weight_sum(max_cost, node_count, larger) > weight_sum(max_cost, node_count, smaller),
{
    lemma_weight_sum(max_cost, node_count, larger);
    lemma_weight_sum(max_cost, node_count, smaller);
    lemma_cost_sum_bounds(larger, max_cost);
    lemma_cost_sum_bounds(smaller, max_cost);
    let l = larger.len() as int;
    let s = smaller.len() as int;
    let pairs = node_count / 2;
    let bonus = spec_cardinality_bonus(max_cost, node_count);
    let offset = spec_weight_offset(max_cost);
    assert(bonus == offset * pairs + 1);
    assert(offset == max_cost + 1);
    let larger_cost = cost_sum(larger);
    let smaller_cost = cost_sum(smaller);
    assert(l * (bonus + offset) - larger_cost > s * (bonus + offset) - smaller_cost) by (nonlinear_arith)
        requires
            0 <= s < l <= pairs,
            max_cost >= 0,
            offset == max_cost + 1,
            bonus == offset * pairs + 1,
            0 <= larger_cost <= l * max_cost,
            0 <= smaller_cost,
    {
        assert(offset * pairs >= offset * l);
        assert(l * (bonus + offset) - l * max_cost == l * (bonus + 1));
        assert(s * (bonus + offset) <= (l - 1) * (bonus + offset));
        assert((l - 1) * (bonus + offset) == (l - 1) * (bonus + 1) + (l - 1) * max_cost);
        assert((l - 1) * max_cost < offset * l + 1);
    }
}

} // verus!
