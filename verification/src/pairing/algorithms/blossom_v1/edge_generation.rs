use vstd::prelude::*;

use crate::identity::{EntrantId, text_lt, text_order, lemma_text_order_antisymmetric, lemma_text_order_zero, lemma_text_le_transitive};
use crate::platform_time::{diagnostic_clock_microseconds, elapsed_microseconds};

use super::edge_cost::{CostContext, EdgeCostModel, bye_cost, match_cost, spec_bye_cost, spec_match_cost};
use super::{
    BlossomPairingError, PairingCost, PairingCostBreakdown, PairingCostComponent,
    PairingDiagnostics, PairingEntrant, PairingRequest, RelaxationTier, request_valid,
    validate_request,
};

verus! {

#[derive(Clone, Debug, PartialEq, Eq)]
pub enum PairingEdgeTarget {
    Entrant(EntrantId),
    Bye,
}

/// Stable-ID graph view suitable for diagnostics and future visualization.
/// Node indexes and mutable search state remain private to the solver kernel.
#[derive(Clone, Debug, PartialEq, Eq)]
pub struct PairingCandidateEdge {
    pub first_entrant_id: EntrantId,
    pub target: PairingEdgeTarget,
    /// Relationship facts retained independently from policy penalty values.
    pub same_club: bool,
    pub rematch: bool,
    pub cost: PairingCost,
    pub breakdown: PairingCostBreakdown,
}

#[derive(Clone, Debug, PartialEq, Eq)]
pub struct PairingCandidateGraph {
    pub relaxation_tier: RelaxationTier,
    pub entrant_ids: Vec<EntrantId>,
    pub edges: Vec<PairingCandidateEdge>,
    pub diagnostics: PairingDiagnostics,
}

impl PairingEdgeTarget {
    pub fn duplicate(&self) -> (copy: Self)
        ensures
            copy is Bye <==> self is Bye,
            copy matches PairingEdgeTarget::Entrant(c) ==> (self matches PairingEdgeTarget::Entrant(s) && c@ == s@),
    {
        match self {
            PairingEdgeTarget::Entrant(id) => PairingEdgeTarget::Entrant(id.duplicate()),
            PairingEdgeTarget::Bye => PairingEdgeTarget::Bye,
        }
    }
}

impl PairingCandidateEdge {
    pub fn duplicate(&self) -> (copy: Self)
        ensures
            copy.first_entrant_id@ == self.first_entrant_id@,
            copy.target is Bye <==> self.target is Bye,
            copy.target matches PairingEdgeTarget::Entrant(c) ==> (self.target matches PairingEdgeTarget::Entrant(s) && c@ == s@),
            copy.same_club == self.same_club,
            copy.rematch == self.rematch,
            copy.cost == self.cost,
            copy.breakdown == self.breakdown,
    {
        PairingCandidateEdge {
            first_entrant_id: self.first_entrant_id.duplicate(),
            target: self.target.duplicate(),
            same_club: self.same_club,
            rematch: self.rematch,
            cost: self.cost,
            breakdown: self.breakdown,
        }
    }
}

/// The pair played within the recent-rematch window of the policy.
pub open spec fn recent_rematch(
    request: PairingRequest,
    window: u16,
    first: Seq<char>,
    second: Seq<char>,
) -> bool {
    window != 0 && exists|k: int|
        0 <= k < request.previous_matches@.len() && {
            let entry = #[trigger] request.previous_matches@[k];
            &&& request.round_number.spec_value() - entry.round_number.spec_value() <= window
            &&& ((entry.first_entrant_id@ == first && entry.second_entrant_id@ == second) || (
            entry.first_entrant_id@ == second && entry.second_entrant_id@ == first))
        }
}

/// The tier rejects the pair because both entrants share a club.
pub open spec fn same_club_forbidden(
    request: PairingRequest,
    tier: RelaxationTier,
    first: PairingEntrant,
    second: PairingEntrant,
) -> bool {
    request.policy.avoid_same_club && first.club_id@ == second.club_id@
        && !tier.spec_allows_same_club()
}

/// The tier rejects the pair as a recent rematch.
pub open spec fn rematch_forbidden(
    request: PairingRequest,
    tier: RelaxationTier,
    first: PairingEntrant,
    second: PairingEntrant,
) -> bool {
    request.policy.avoid_rematches && recent_rematch(
        request,
        request.policy.recent_rematch_window,
        first.entrant_id@,
        second.entrant_id@,
    ) && !tier.spec_allows_rematches()
}

/// `order` lists each entrant index once, by ascending entrant id.
pub open spec fn is_id_order(entrants: Seq<PairingEntrant>, order: Seq<usize>) -> bool {
    &&& order.len() == entrants.len()
    &&& forall|p: int| 0 <= p < order.len() ==> (#[trigger] order[p]) < entrants.len()
    &&& forall|p: int, q: int|
        0 <= p < q < order.len() ==> text_lt(
            entrants[(#[trigger] order[p]) as int].entrant_id@,
            entrants[(#[trigger] order[q]) as int].entrant_id@,
        )
}

/// The edge pairs the entrants at `a` and `b`, `a` first.
pub open spec fn is_match_edge_for(
    edge: PairingCandidateEdge,
    first: PairingEntrant,
    second: PairingEntrant,
) -> bool {
    &&& edge.first_entrant_id@ == first.entrant_id@
    &&& edge.target matches PairingEdgeTarget::Entrant(t) && t@ == second.entrant_id@
}

/// The entrant ids of the graph: those of the request, ascending.
pub open spec fn graph_ids_sorted(request: PairingRequest, graph: PairingCandidateGraph) -> bool {
    let entrants = request.entrants@;
    let ids = graph.entrant_ids@;
    &&& ids.len() == entrants.len()
    &&& forall|p: int, q: int| 0 <= p < q < ids.len() ==> text_lt((#[trigger] ids[p])@, (#[trigger] ids[q])@)
    &&& forall|p: int| 0 <= p < ids.len() ==> has_entrant_id(entrants, (#[trigger] ids[p])@)
}

/// Edge `k` is an eligible pair with the first id before the second, or a bye
/// in an odd field, priced with `k` as its tie-break.
pub open spec fn graph_edge_sound(
    request: PairingRequest,
    tier: RelaxationTier,
    model: EdgeCostModel,
    graph: PairingCandidateGraph,
    k: int,
) -> bool {
    let entrants = request.entrants@;
    let edge = graph.edges@[k];
    &&& edge.cost.0 == edge.breakdown.total
    &&& edge.breakdown.deterministic_tie_break == k
    &&& exists|a: int, b: int| #![trigger entrants[a], entrants[b]]
        0 <= a < entrants.len() && 0 <= b < entrants.len() && {
            let first = entrants[a];
            let second = entrants[b];
            &&& first.entrant_id@ == edge.first_entrant_id@
            &&& if edge.target is Bye {
                &&& entrants.len() % 2 == 1
                &&& !edge.same_club && !edge.rematch
                &&& spec_bye_cost(model, first, k as u64, graph_tie_break_scale(graph))
                    == Ok::<PairingCostBreakdown, PairingCostComponent>(edge.breakdown)
            } else {
                &&& is_match_edge_for(edge, first, second)
                &&& text_lt(first.entrant_id@, second.entrant_id@)
                &&& !same_club_forbidden(request, tier, first, second)
                &&& !rematch_forbidden(request, tier, first, second)
                &&& edge.same_club == (first.club_id@ == second.club_id@)
                &&& edge.rematch == recent_rematch(request, request.policy.recent_rematch_window, first.entrant_id@, second.entrant_id@)
                &&& spec_match_cost(model, first, second, CostContext {
                    tie_break: k as u64,
                    tie_break_scale: graph_tie_break_scale(graph),
                    same_club: edge.same_club,
                    rematch: edge.rematch,
                }) == Ok::<PairingCostBreakdown, PairingCostComponent>(edge.breakdown)
            }
        }
}

/// Every pair that the tier admits has an edge.
pub open spec fn graph_pairs_complete(
    request: PairingRequest,
    tier: RelaxationTier,
    graph: PairingCandidateGraph,
) -> bool {
    let entrants = request.entrants@;
    forall|a: int, b: int|
        0 <= a < entrants.len() && 0 <= b < entrants.len() && text_lt(
            (#[trigger] entrants[a]).entrant_id@,
            (#[trigger] entrants[b]).entrant_id@,
        ) && !same_club_forbidden(request, tier, entrants[a], entrants[b]) && !rematch_forbidden(
            request,
            tier,
            entrants[a],
            entrants[b],
        ) ==> exists|k: int| 0 <= k < graph.edges@.len() && is_match_edge_for(#[trigger] graph.edges@[k], entrants[a], entrants[b])
}

/// In an odd field every entrant has a bye edge.
pub open spec fn graph_byes_complete(request: PairingRequest, graph: PairingCandidateGraph) -> bool {
    let entrants = request.entrants@;
    entrants.len() % 2 == 1 ==> forall|a: int|
        0 <= a < entrants.len() ==> graph_has_bye_edge(graph, (#[trigger] entrants[a]).entrant_id@)
}

/// Some edge of the graph gives the entrant `id` the bye.
pub open spec fn graph_has_bye_edge(graph: PairingCandidateGraph, id: Seq<char>) -> bool {
    exists|k: int|
        0 <= k < graph.edges@.len() && (#[trigger] graph.edges@[k]).target is Bye
            && graph.edges@[k].first_entrant_id@ == id
}

/// Edge `a` comes before edge `b`: pairings before byes, pairings by first
/// and then second id, byes by id.
pub open spec fn edge_precedes(a: PairingCandidateEdge, b: PairingCandidateEdge) -> bool {
    match a.target {
        PairingEdgeTarget::Entrant(a_second) => match b.target {
            PairingEdgeTarget::Entrant(b_second) => text_lt(a.first_entrant_id@, b.first_entrant_id@) || (
            a.first_entrant_id@ == b.first_entrant_id@ && text_lt(a_second@, b_second@)),
            PairingEdgeTarget::Bye => true,
        },
        PairingEdgeTarget::Bye => match b.target {
            PairingEdgeTarget::Entrant(_) => false,
            PairingEdgeTarget::Bye => text_lt(a.first_entrant_id@, b.first_entrant_id@),
        },
    }
}

/// The edges are in strictly ascending `edge_precedes` order.
pub open spec fn graph_edges_ordered(graph: PairingCandidateGraph) -> bool {
    forall|k: int, l: int| 0 <= k < l < graph.edges@.len() ==> edge_precedes(#[trigger] graph.edges@[k], #[trigger] graph.edges@[l])
}

/// The graph the candidate generation yields for `request` at `tier`.
pub open spec fn candidate_graph_matches(
    request: PairingRequest,
    tier: RelaxationTier,
    model: EdgeCostModel,
    graph: PairingCandidateGraph,
) -> bool {
    let entrants = request.entrants@;
    &&& graph.relaxation_tier == tier
    &&& graph_ids_sorted(request, graph)
    &&& forall|k: int| 0 <= k < graph.edges@.len() ==> #[trigger] graph_edge_sound(request, tier, model, graph, k)
    &&& graph_pairs_complete(request, tier, graph)
    &&& graph_byes_complete(request, graph)
    &&& graph_edges_ordered(graph)
    &&& graph.diagnostics.candidate_pair_count == entrants.len() * (entrants.len() - 1) / 2
    &&& graph.diagnostics.eligible_edge_count == graph.edges@.len()
}

pub open spec fn has_entrant_id(entrants: Seq<PairingEntrant>, id: Seq<char>) -> bool {
    exists|i: int| 0 <= i < entrants.len() && (#[trigger] entrants[i]).entrant_id@ == id
}

/// The scale that keeps tie-breaks from reordering costs: the edge count
/// times the number of edges in a complete matching, plus one.
pub open spec fn tie_break_scale_for(edge_count: int, entrant_count: int) -> int {
    edge_count * ((entrant_count + 1) / 2) + 1
}

pub open spec fn graph_tie_break_scale(graph: PairingCandidateGraph) -> u64 {
    tie_break_scale_for(graph.edges@.len() as int, graph.entrant_ids@.len() as int) as u64
}

/// The tie-break scale that the largest possible graph of `entrant_count`
/// entrants needs: every pair and every bye as an edge.
pub open spec fn largest_tie_break_scale(entrant_count: int) -> int {
    tie_break_scale_for(entrant_count * entrant_count + entrant_count, entrant_count)
}

/// The request's graphs can be counted and priced: the pair count fits a
/// `usize`, the largest tie-break scale fits a `u64`, and every pairing of
/// two entrants and, in an odd field, every bye is priced within `u64` under
/// any tie-break below any scale up to that largest one.
pub open spec fn request_costs_fit(request: PairingRequest, model: EdgeCostModel) -> bool {
    let entrants = request.entrants@;
    let n = entrants.len() as int;
    let limit = largest_tie_break_scale(n);
    &&& n * (n - 1) <= usize::MAX
    &&& n < usize::MAX
    &&& limit <= u64::MAX
    &&& forall|a: int, b: int, t: u64, s: u64|
        0 <= a < n && 0 <= b < n && t < s <= limit ==> (#[trigger] spec_match_cost(
            model,
            entrants[a],
            entrants[b],
            pair_context(request, entrants[a], entrants[b], t, s),
        )) is Ok
    &&& n % 2 == 1 ==> forall|a: int, t: u64, s: u64|
        0 <= a < n && t < s <= limit ==> (#[trigger] spec_bye_cost(model, entrants[a], t, s)) is Ok
}

/// Pricing some pairing the request could admit, the lower id first, or in
/// an odd field some bye, overflows in `component` under some tie-break and
/// scale.
pub open spec fn pricing_fails(request: PairingRequest, model: EdgeCostModel, component: PairingCostComponent) -> bool {
    let entrants = request.entrants@;
    let n = entrants.len() as int;
    ||| exists|a: int, b: int, t: u64, s: u64|
        0 <= a < n && 0 <= b < n && text_lt(entrants[a].entrant_id@, entrants[b].entrant_id@) && #[trigger] spec_match_cost(
            model,
            entrants[a],
            entrants[b],
            pair_context(request, entrants[a], entrants[b], t, s),
        ) == Err::<PairingCostBreakdown, PairingCostComponent>(component)
    ||| (n % 2 == 1 && exists|a: int, t: u64, s: u64|
        0 <= a < n && #[trigger] spec_bye_cost(model, entrants[a], t, s) == Err::<
            PairingCostBreakdown,
            PairingCostComponent,
        >(component))
}

/// The pair count and the largest tie-break scale of the request fit their
/// types.
pub open spec fn tie_breaks_fit(request: PairingRequest) -> bool {
    let n = request.entrants@.len() as int;
    &&& n * (n - 1) <= usize::MAX
    &&& n < usize::MAX
    &&& largest_tie_break_scale(n) <= u64::MAX
}

/// The cost context of pairing `first` with `second`: whether they share a
/// club, whether they met recently, and the tie-break with its scale.
pub open spec fn pair_context(
    request: PairingRequest,
    first: PairingEntrant,
    second: PairingEntrant,
    tie_break: u64,
    tie_break_scale: u64,
) -> CostContext {
    CostContext {
        tie_break,
        tie_break_scale,
        same_club: first.club_id@ == second.club_id@,
        rematch: recent_rematch(request, request.policy.recent_rematch_window, first.entrant_id@, second.entrant_id@),
    }
}

/// Pricing the candidate at position `k` under `scale` overflows in
/// `component`.
spec fn candidate_fails(
    request: PairingRequest,
    model: EdgeCostModel,
    scale: u64,
    c: Candidate,
    k: int,
    component: PairingCostComponent,
) -> bool {
    let entrants = request.entrants@;
    match c.second {
        Some(b) => spec_match_cost(
            model,
            entrants[c.first as int],
            entrants[b as int],
            CostContext { tie_break: k as u64, tie_break_scale: scale, same_club: c.same_club, rematch: c.rematch },
        ) == Err::<PairingCostBreakdown, PairingCostComponent>(component),
        None => spec_bye_cost(model, entrants[c.first as int], k as u64, scale) == Err::<
            PairingCostBreakdown,
            PairingCostComponent,
        >(component),
    }
}

/// The candidate priced at position `k` under `scale` has a cost.
spec fn candidate_priced(request: PairingRequest, model: EdgeCostModel, scale: u64, c: Candidate, k: int) -> bool {
    let entrants = request.entrants@;
    match c.second {
        Some(b) => spec_match_cost(
            model,
            entrants[c.first as int],
            entrants[b as int],
            CostContext { tie_break: k as u64, tie_break_scale: scale, same_club: c.same_club, rematch: c.rematch },
        ) is Ok,
        None => spec_bye_cost(model, entrants[c.first as int], k as u64, scale) is Ok,
    }
}

/// The candidate graph of `request` at `tier`, priced by BlossomV1.
pub fn build_candidate_graph(request: &PairingRequest, relaxation_tier: RelaxationTier) -> (outcome:
    Result<PairingCandidateGraph, BlossomPairingError>)
    ensures
        outcome is Ok ==> request_valid(*request),
        outcome matches Ok(graph) ==> candidate_graph_matches(
            *request,
            relaxation_tier,
            EdgeCostModel::BlossomV1 { round_number: request.round_number.spec_value(), policy: request.policy },
            graph,
        ),
        outcome matches Ok(graph) ==> graph.diagnostics.rejected_same_club_edges == rejected_pairs(
            *request,
            relaxation_tier,
            true,
        ).len() && graph.diagnostics.rejected_rematch_edges == rejected_pairs(*request, relaxation_tier, false).len(),
        !request_valid(*request) ==> outcome is Err,
        request_valid(*request) && request_costs_fit(
            *request,
            EdgeCostModel::BlossomV1 { round_number: request.round_number.spec_value(), policy: request.policy },
        ) ==> outcome is Ok,
        match outcome {
            Err(BlossomPairingError::PairingCostOverflow { component }) => request_valid(*request) ==> (
            component == PairingCostComponent::DeterministicTieBreak && !tie_breaks_fit(*request)) || pricing_fails(
                *request,
                EdgeCostModel::BlossomV1 { round_number: request.round_number.spec_value(), policy: request.policy },
                component,
            ),
            _ => true,
        },
{
    let model = EdgeCostModel::BlossomV1 { round_number: request.round_number.value(), policy: request.policy };
    build_candidate_graph_with(request, relaxation_tier, &model)
}

/// Indexes of the entrants by ascending id.
fn entrant_order(entrants: &Vec<PairingEntrant>) -> (order: Vec<usize>)
    requires
        forall|i: int, j: int|
            0 <= i < j < entrants@.len() ==> (#[trigger] entrants@[i]).entrant_id@
                != (#[trigger] entrants@[j]).entrant_id@,
    ensures
        is_id_order(entrants@, order@),
        forall|i: int| 0 <= i < entrants@.len() ==> (#[trigger] order@.contains(i as usize)),
{
    let n = entrants.len();
    let mut order: Vec<usize> = Vec::new();
    let mut j: usize = 0;
    while j < n
        invariant
            n == entrants@.len(),
            j <= n,
            order@.len() == j,
            forall|i: int, k: int|
                0 <= i < k < entrants@.len() ==> (#[trigger] entrants@[i]).entrant_id@
                    != (#[trigger] entrants@[k]).entrant_id@,
            forall|p: int| 0 <= p < order@.len() ==> (#[trigger] order@[p]) < j,
            forall|p: int, q: int|
                0 <= p < q < order@.len() ==> text_lt(
                    entrants@[(#[trigger] order@[p]) as int].entrant_id@,
                    entrants@[(#[trigger] order@[q]) as int].entrant_id@,
                ),
            forall|i: int| 0 <= i < j ==> (#[trigger] order@.contains(i as usize)),
        decreases n - j,
    {
        let mut pos: usize = 0;
        while pos < order.len() && entrants[order[pos]].entrant_id.precedes(&entrants[j].entrant_id)
            invariant
                pos <= order@.len(),
                j < n == entrants@.len(),
                forall|p: int| 0 <= p < order@.len() ==> (#[trigger] order@[p]) < j,
                forall|p: int|
                    0 <= p < pos ==> text_lt(
                        entrants@[(#[trigger] order@[p]) as int].entrant_id@,
                        entrants@[j as int].entrant_id@,
                    ),
            decreases order@.len() - pos,
        {
            pos = pos + 1;
        }
        proof {
            // entrants after `pos` sort after entrant `j`
            if pos < order@.len() {
                let idp = entrants@[order@[pos as int] as int].entrant_id@;
                let idj = entrants@[j as int].entrant_id@;
                lemma_text_order_antisymmetric(idp, idj);
                lemma_text_order_zero(idp, idj);
                assert(idp != idj);
                assert forall|q: int| pos <= q < order@.len() implies text_lt(
                    idj,
                    entrants@[(#[trigger] order@[q]) as int].entrant_id@,
                ) by {
                    if q > pos {
                        lemma_text_le_transitive(idj, idp, entrants@[order@[q] as int].entrant_id@);
                    }
                }
            }
        }
        let ghost before = order@;
        order.insert(pos, j);
        proof {
            assert forall|p: int, q: int| 0 <= p < q < order@.len() implies text_lt(
                entrants@[(#[trigger] order@[p]) as int].entrant_id@,
                entrants@[(#[trigger] order@[q]) as int].entrant_id@,
            ) by {
                if q < pos {
                    assert(order@[p] == before[p] && order@[q] == before[q]);
                } else if q == pos {
                    assert(order@[p] == before[p]);
                } else if p < pos {
                    assert(order@[p] == before[p] && order@[q] == before[q - 1]);
                    let idp = entrants@[before[p] as int].entrant_id@;
                    let idj = entrants@[j as int].entrant_id@;
                    let idq = entrants@[before[q - 1] as int].entrant_id@;
                    lemma_text_le_transitive(idp, idj, idq);
                } else if p == pos {
                    assert(order@[q] == before[q - 1]);
                } else {
                    assert(order@[p] == before[p - 1] && order@[q] == before[q - 1]);
                }
            }
            assert forall|i: int| 0 <= i < j + 1 implies (#[trigger] order@.contains(i as usize)) by {
                if i == j {
                    assert(order@[pos as int] == j);
                } else {
                    assert(before.contains(i as usize));
                    let p = choose|p: int| 0 <= p < before.len() && before[p] == i as usize;
                    if p < pos {
                        assert(order@[p] == i as usize);
                    } else {
                        assert(order@[p + 1] == i as usize);
                    }
                }
            }
        }
        j = j + 1;
    }
    order
}


/// A candidate edge before pricing: entrant indexes into the request.
#[derive(Clone, Copy, Debug, PartialEq, Eq, Structural)]
struct Candidate {
    first: usize,
    second: Option<usize>,
    same_club: bool,
    rematch: bool,
}

struct CollectedCandidates {
    candidates: Vec<Candidate>,
}

spec fn pair_covered(candidates: Seq<Candidate>, a: usize, b: usize) -> bool {
    exists|k: int| 0 <= k < candidates.len() && (#[trigger] candidates[k]).first == a && candidates[k].second == Some(b)
}

spec fn has_bye_candidate(candidates: Seq<Candidate>, a: int) -> bool {
    exists|k: int| 0 <= k < candidates.len() && (#[trigger] candidates[k]).first == a && candidates[k].second is None
}

spec fn candidate_first_id(entrants: Seq<PairingEntrant>, c: Candidate) -> Seq<char> {
    entrants[c.first as int].entrant_id@
}

spec fn candidate_key_lt(entrants: Seq<PairingEntrant>, a: Candidate, b: Candidate) -> bool {
    let a1 = candidate_first_id(entrants, a);
    let b1 = candidate_first_id(entrants, b);
    match a.second {
        Some(a2) => match b.second {
            Some(b2) => text_lt(a1, b1) || (a1 == b1 && text_lt(
                entrants[a2 as int].entrant_id@,
                entrants[b2 as int].entrant_id@,
            )),
            None => true,
        },
        None => match b.second {
            Some(_) => false,
            None => text_lt(a1, b1),
        },
    }
}

spec fn candidates_ordered(entrants: Seq<PairingEntrant>, candidates: Seq<Candidate>) -> bool {
    forall|k: int, l: int| 0 <= k < l < candidates.len() ==> candidate_key_lt(entrants, #[trigger] candidates[k], #[trigger] candidates[l])
}

spec fn candidate_sound(request: PairingRequest, tier: RelaxationTier, c: Candidate) -> bool {
    let entrants = request.entrants@;
    &&& c.first < entrants.len()
    &&& match c.second {
        Some(b) => {
            &&& b < entrants.len()
            &&& text_lt(entrants[c.first as int].entrant_id@, entrants[b as int].entrant_id@)
            &&& !same_club_forbidden(request, tier, entrants[c.first as int], entrants[b as int])
            &&& !rematch_forbidden(request, tier, entrants[c.first as int], entrants[b as int])
            &&& c.same_club == (entrants[c.first as int].club_id@ == entrants[b as int].club_id@)
            &&& c.rematch == recent_rematch(
                request,
                request.policy.recent_rematch_window,
                entrants[c.first as int].entrant_id@,
                entrants[b as int].entrant_id@,
            )
        },
        None => entrants.len() % 2 == 1 && !c.same_club && !c.rematch,
    }
}

/// The tier rejects the pair for sharing a club (`same_club`) or as a
/// recent rematch (otherwise).
pub open spec fn rejected_for(
    request: PairingRequest,
    tier: RelaxationTier,
    first: PairingEntrant,
    second: PairingEntrant,
    same_club: bool,
) -> bool {
    if same_club {
        same_club_forbidden(request, tier, first, second)
    } else {
        rematch_forbidden(request, tier, first, second)
    }
}

/// The pairs of entrants, by position in the request and lower id first,
/// that the tier rejects for sharing a club (`same_club`) or as a recent
/// rematch (otherwise).
pub open spec fn rejected_pairs(request: PairingRequest, tier: RelaxationTier, same_club: bool) -> Set<(int, int)> {
    let entrants = request.entrants@;
    Set::new(
        |pair: (int, int)|
            0 <= pair.0 < entrants.len() && 0 <= pair.1 < entrants.len() && text_lt(
                entrants[pair.0].entrant_id@,
                entrants[pair.1].entrant_id@,
            ) && rejected_for(request, tier, entrants[pair.0], entrants[pair.1], same_club),
    )
}

/// The rejected pairs among the positions of `order` visited before
/// position pair (`i`, `j`).
spec fn rejected_positions(
    request: PairingRequest,
    tier: RelaxationTier,
    order: Seq<usize>,
    i: int,
    j: int,
    same_club: bool,
) -> Set<(int, int)> {
    let entrants = request.entrants@;
    Set::new(
        |pos: (int, int)|
            0 <= pos.0 < pos.1 < order.len() && (pos.0 < i || (pos.0 == i && pos.1 < j)) && rejected_for(
                request,
                tier,
                entrants[order[pos.0] as int],
                entrants[order[pos.1] as int],
                same_club,
            ),
    )
}

/// The number of pairs that the tier rejects for sharing a club
/// (`same_club`) or as recent rematches (otherwise).
fn count_rejected_pairs(request: &PairingRequest, tier: RelaxationTier, order: &Vec<usize>, same_club: bool) -> (count:
    usize)
    requires
        request_valid(*request),
        is_id_order(request.entrants@, order@),
        forall|i: int| 0 <= i < request.entrants@.len() ==> (#[trigger] order@.contains(i as usize)),
        request.entrants@.len() * (request.entrants@.len() - 1) <= usize::MAX,
    ensures
        count == rejected_pairs(*request, tier, same_club).len(),
        rejected_pairs(*request, tier, same_club).finite(),
{
    broadcast use vstd::set::group_set_axioms;

    let n = order.len();
    let ghost o = order@;
    let mut count: usize = 0;
    let mut i: usize = 0;
    proof {
        assert(rejected_positions(*request, tier, o, 0, 1, same_club) =~= Set::empty());
    }
    while i < n
        invariant
            n == o.len() == request.entrants@.len(),
            o == order@,
            i <= n,
            n * (n - 1) <= usize::MAX,
            request_valid(*request),
            is_id_order(request.entrants@, o),
            forall|x: int| 0 <= x < request.entrants@.len() ==> (#[trigger] o.contains(x as usize)),
            rejected_positions(*request, tier, o, i as int, i + 1, same_club).finite(),
            count == rejected_positions(*request, tier, o, i as int, i + 1, same_club).len(),
            count <= i * (n - 1),
        decreases n - i,
    {
        let mut j: usize = i + 1;
        while j < n
            invariant
                n == o.len() == request.entrants@.len(),
                o == order@,
                i < n,
                i + 1 <= j <= n,
                n * (n - 1) <= usize::MAX,
                request_valid(*request),
                is_id_order(request.entrants@, o),
                rejected_positions(*request, tier, o, i as int, j as int, same_club).finite(),
                count == rejected_positions(*request, tier, o, i as int, j as int, same_club).len(),
                count <= i * (n - 1) + (j - i - 1),
            decreases n - j,
        {
            let first = &request.entrants[order[i]];
            let second = &request.entrants[order[j]];
            let rejected = if same_club {
                request.policy.avoid_same_club && first.club_id.same_as(&second.club_id) && !tier.allows_same_club()
            } else {
                request.policy.avoid_rematches && is_recent_rematch(request, &first.entrant_id, &second.entrant_id)
                    && !tier.allows_rematches()
            };
            let ghost before = rejected_positions(*request, tier, o, i as int, j as int, same_club);
            proof {
                assert(rejected == rejected_for(
                    *request,
                    tier,
                    request.entrants@[o[i as int] as int],
                    request.entrants@[o[j as int] as int],
                    same_club,
                ));
                assert(!before.contains((i as int, j as int)));
                if rejected {
                    assert(rejected_positions(*request, tier, o, i as int, j + 1, same_club) =~= before.insert(
                        (i as int, j as int),
                    ));
                    assert(i * (n - 1) + (j - i) <= n * (n - 1)) by (nonlinear_arith)
                        requires
                            i + 1 <= j < n,
                    ;
                } else {
                    assert(rejected_positions(*request, tier, o, i as int, j + 1, same_club) =~= before);
                }
            }
            if rejected {
                count = count + 1;
            }
            j = j + 1;
        }
        proof {
            assert(rejected_positions(*request, tier, o, i as int, n as int, same_club) =~= rejected_positions(
                *request,
                tier,
                o,
                i + 1,
                i + 2,
                same_club,
            ));
            assert(i * (n - 1) + (n - i - 1) <= (i + 1) * (n - 1)) by (nonlinear_arith)
                requires
                    i < n,
            ;
        }
        i = i + 1;
    }
    proof {
        let visited = rejected_positions(*request, tier, o, n as int, n + 1, same_club);
        let target = rejected_pairs(*request, tier, same_club);
        let entrants = request.entrants@;
        let f = |pos: (int, int)| (o[pos.0] as int, o[pos.1] as int);
        assert(vstd::relations::injective_on(f, visited)) by {
            assert forall|x: (int, int), y: (int, int)|
                visited.contains(x) && visited.contains(y) && #[trigger] f(x) == #[trigger] f(y) implies x == y by {
                if x.0 != y.0 {
                    lemma_order_distinct(entrants, o, x.0, y.0);
                }
                if x.1 != y.1 {
                    lemma_order_distinct(entrants, o, x.1, y.1);
                }
            }
        }
        assert(visited.map(f) =~= target) by {
            assert forall|pair: (int, int)| target.contains(pair) implies visited.map(f).contains(pair) by {
                assert(o.contains(pair.0 as usize));
                assert(o.contains(pair.1 as usize));
                let p = choose|p: int| 0 <= p < o.len() && o[p] == pair.0 as usize;
                let q = choose|q: int| 0 <= q < o.len() && o[q] == pair.1 as usize;
                lemma_text_order_antisymmetric(entrants[pair.0].entrant_id@, entrants[pair.1].entrant_id@);
                if q < p {
                    assert(text_lt(entrants[o[q] as int].entrant_id@, entrants[o[p] as int].entrant_id@));
                }
                if p == q {
                    lemma_text_order_zero(entrants[pair.0].entrant_id@, entrants[pair.1].entrant_id@);
                }
                assert(visited.contains((p, q)));
                assert(f((p, q)) == pair);
            }
            assert forall|pair: (int, int)| visited.map(f).contains(pair) implies target.contains(pair) by {
                let pos = choose|pos: (int, int)| visited.contains(pos) && pair == f(pos);
                assert(text_lt(entrants[o[pos.0] as int].entrant_id@, entrants[o[pos.1] as int].entrant_id@));
            }
        }
        vstd::set_lib::lemma_map_size(visited, target, f);
    }
    count
}

/// Distinct positions of an id order hold distinct entrant indices.
proof fn lemma_order_distinct(entrants: Seq<PairingEntrant>, order: Seq<usize>, p: int, q: int)
    requires
        is_id_order(entrants, order),
        0 <= p < order.len(),
        0 <= q < order.len(),
        p != q,
    ensures
        order[p] != order[q],
{
    if p < q {
        assert(text_lt(entrants[order[p] as int].entrant_id@, entrants[order[q] as int].entrant_id@));
        lemma_text_order_zero(entrants[order[p] as int].entrant_id@, entrants[order[q] as int].entrant_id@);
    } else {
        assert(text_lt(entrants[order[q] as int].entrant_id@, entrants[order[p] as int].entrant_id@));
        lemma_text_order_zero(entrants[order[q] as int].entrant_id@, entrants[order[p] as int].entrant_id@);
    }
}

/// Whether the two entrants played each other within the recent-rematch window.
fn is_recent_rematch(request: &PairingRequest, first: &EntrantId, second: &EntrantId) -> (rematch: bool)
    requires
        request_valid(*request),
    ensures
        rematch == recent_rematch(*request, request.policy.recent_rematch_window, first@, second@),
{
    let window = request.policy.recent_rematch_window;
    if window == 0 {
        return false;
    }
    let mut k: usize = 0;
    while k < request.previous_matches.len()
        invariant
            k <= request.previous_matches@.len(),
            window == request.policy.recent_rematch_window,
            window != 0,
            request_valid(*request),
            forall|p: int|
                0 <= p < k ==> !({
                    let entry = #[trigger] request.previous_matches@[p];
                    &&& request.round_number.spec_value() - entry.round_number.spec_value() <= window
                    &&& ((entry.first_entrant_id@ == first@ && entry.second_entrant_id@ == second@)
                        || (entry.first_entrant_id@ == second@ && entry.second_entrant_id@ == first@))
                }),
        decreases request.previous_matches@.len() - k,
    {
        let entry = &request.previous_matches[k];
        assert(super::history_entry_valid(*request, request.previous_matches@[k as int]));
        let rounds_ago = request.round_number.value() - entry.round_number.value();
        if rounds_ago <= window && ((entry.first_entrant_id.same_as(first)
            && entry.second_entrant_id.same_as(second)) || (entry.first_entrant_id.same_as(second)
            && entry.second_entrant_id.same_as(first))) {
            return true;
        }
        k = k + 1;
    }
    false
}

/// Candidate matches for every pair of entrants in id order that the tier
/// admits, then one bye candidate per entrant when the field is odd; with the
/// numbers of pairs rejected for sharing a club and for being recent rematches.
fn collect_candidates(request: &PairingRequest, tier: RelaxationTier, order: &Vec<usize>) -> (collected: CollectedCandidates)
    requires
        request_valid(*request),
        is_id_order(request.entrants@, order@),
        forall|i: int| 0 <= i < request.entrants@.len() ==> (#[trigger] order@.contains(i as usize)),
    ensures
        forall|k: int| 0 <= k < collected.candidates@.len() ==> candidate_sound(*request, tier, #[trigger] collected.candidates@[k]),
        forall|p: int, q: int|
            0 <= p < q < order@.len() && !same_club_forbidden(
                *request,
                tier,
                request.entrants@[(#[trigger] order@[p]) as int],
                request.entrants@[(#[trigger] order@[q]) as int],
            ) && !rematch_forbidden(
                *request,
                tier,
                request.entrants@[order@[p] as int],
                request.entrants@[order@[q] as int],
            ) ==> pair_covered(collected.candidates@, order@[p], order@[q]),
        request.entrants@.len() % 2 == 1 ==> forall|a: int|
            0 <= a < request.entrants@.len() ==> #[trigger] has_bye_candidate(collected.candidates@, a),
        candidates_ordered(request.entrants@, collected.candidates@),
        collected.candidates@.len() <= request.entrants@.len() * request.entrants@.len() + request.entrants@.len(),
{
    let n = order.len();
    let mut candidates: Vec<Candidate> = Vec::new();
    let mut i: usize = 0;
    while i < n
        invariant
            n == order@.len() == request.entrants@.len(),
            i <= n,
            candidates@.len() <= i * n,
            request_valid(*request),
            is_id_order(request.entrants@, order@),
            forall|k: int| 0 <= k < candidates@.len() ==> candidate_sound(*request, tier, #[trigger] candidates@[k]),
            candidates_ordered(request.entrants@, candidates@),
            forall|k: int| 0 <= k < candidates@.len() ==> (#[trigger] candidates@[k]).second is Some && (i < n ==> text_lt(
                candidate_first_id(request.entrants@, candidates@[k]),
                request.entrants@[order@[i as int] as int].entrant_id@,
            )),
            forall|p: int, q: int|
                0 <= p < q < n && p < i && !same_club_forbidden(
                    *request,
                    tier,
                    request.entrants@[(#[trigger] order@[p]) as int],
                    request.entrants@[(#[trigger] order@[q]) as int],
                ) && !rematch_forbidden(
                    *request,
                    tier,
                    request.entrants@[order@[p] as int],
                    request.entrants@[order@[q] as int],
                ) ==> pair_covered(candidates@, order@[p], order@[q]),
        decreases n - i,
    {
        let mut j: usize = i + 1;
        while j < n
            invariant
                n == order@.len() == request.entrants@.len(),
                i < n,
                i + 1 <= j <= n,
                candidates@.len() <= i * n + j,
                request_valid(*request),
                is_id_order(request.entrants@, order@),
                forall|k: int| 0 <= k < candidates@.len() ==> candidate_sound(*request, tier, #[trigger] candidates@[k]),
                candidates_ordered(request.entrants@, candidates@),
                forall|k: int| 0 <= k < candidates@.len() ==> (#[trigger] candidates@[k]).second is Some && ({
                    let first = candidate_first_id(request.entrants@, candidates@[k]);
                    let own = request.entrants@[order@[i as int] as int].entrant_id@;
                    ||| text_lt(first, own)
                    ||| first == own && (j < n ==> text_lt(
                        request.entrants@[candidates@[k].second.unwrap() as int].entrant_id@,
                        request.entrants@[order@[j as int] as int].entrant_id@,
                    ))
                }),
                forall|p: int, q: int|
                    0 <= p < q < n && (p < i || (p == i && q < j)) && !same_club_forbidden(
                        *request,
                        tier,
                        request.entrants@[(#[trigger] order@[p]) as int],
                        request.entrants@[(#[trigger] order@[q]) as int],
                    ) && !rematch_forbidden(
                        *request,
                        tier,
                        request.entrants@[order@[p] as int],
                        request.entrants@[order@[q] as int],
                    ) ==> pair_covered(candidates@, order@[p], order@[q]),
            decreases n - j,
        {
            let first = &request.entrants[order[i]];
            let second = &request.entrants[order[j]];
            let same_club = first.club_id.same_as(&second.club_id);
            let rematch = is_recent_rematch(request, &first.entrant_id, &second.entrant_id);
            let same_club_rejected = request.policy.avoid_same_club && same_club && !tier.allows_same_club();
            let rematch_rejected = request.policy.avoid_rematches && rematch && !tier.allows_rematches();
            let ghost before = candidates@;
            proof {
                assert(text_lt(
                    request.entrants@[order@[i as int] as int].entrant_id@,
                    request.entrants@[order@[j as int] as int].entrant_id@,
                ));
            }
            if !same_club_rejected && !rematch_rejected {
                candidates.push(Candidate { first: order[i], second: Some(order[j]), same_club, rematch });
            }
            proof {
                assert(same_club_rejected == same_club_forbidden(
                    *request,
                    tier,
                    request.entrants@[order@[i as int] as int],
                    request.entrants@[order@[j as int] as int],
                ));
                assert(rematch_rejected == rematch_forbidden(
                    *request,
                    tier,
                    request.entrants@[order@[i as int] as int],
                    request.entrants@[order@[j as int] as int],
                ));
                assert forall|p: int, q: int|
                    0 <= p < q < n && (p < i || (p == i && q < j + 1)) && !same_club_forbidden(
                        *request,
                        tier,
                        request.entrants@[(#[trigger] order@[p]) as int],
                        request.entrants@[(#[trigger] order@[q]) as int],
                    ) && !rematch_forbidden(
                        *request,
                        tier,
                        request.entrants@[order@[p] as int],
                        request.entrants@[order@[q] as int],
                    ) implies pair_covered(candidates@, order@[p], order@[q]) by {
                    if p == i && q == j {
                        assert(candidates@[candidates@.len() - 1].first == order@[p]);
                    } else {
                        let k = choose|k: int|
                            0 <= k < before.len() && (#[trigger] before[k]).first == order@[p]
                                && before[k].second == Some(order@[q]);
                        assert(candidates@[k] == before[k]);
                    }
                }
                let entrants = request.entrants@;
                let own = entrants[order@[i as int] as int].entrant_id@;
                let current = entrants[order@[j as int] as int].entrant_id@;
                assert forall|k: int, l: int| 0 <= k < l < candidates@.len() implies candidate_key_lt(
                    entrants,
                    #[trigger] candidates@[k],
                    #[trigger] candidates@[l],
                ) by {
                    if l < before.len() {
                        assert(candidates@[k] == before[k] && candidates@[l] == before[l]);
                    } else {
                        assert(candidates@[k] == before[k]);
                        assert(candidate_first_id(entrants, candidates@[l]) == own);
                    }
                }
                assert forall|k: int| 0 <= k < candidates@.len() implies (#[trigger] candidates@[k]).second is Some && ({
                    let first = candidate_first_id(entrants, candidates@[k]);
                    ||| text_lt(first, own)
                    ||| first == own && (j + 1 < n ==> text_lt(
                        entrants[candidates@[k].second.unwrap() as int].entrant_id@,
                        entrants[order@[j + 1] as int].entrant_id@,
                    ))
                }) by {
                    if j + 1 < n {
                        assert(text_lt(current, entrants[order@[j + 1] as int].entrant_id@));
                        if k < before.len() {
                            assert(candidates@[k] == before[k]);
                            let first = candidate_first_id(entrants, before[k]);
                            lemma_text_order_zero(first, own);
                            if first == own {
                                let second = entrants[before[k].second.unwrap() as int].entrant_id@;
                                lemma_text_le_transitive(second, current, entrants[order@[j + 1] as int].entrant_id@);
                            }
                        }
                    } else if k < before.len() {
                        assert(candidates@[k] == before[k]);
                    }
                }
            }
            j = j + 1;
        }
        proof {
            assert(i * n + n == (i + 1) * n) by (nonlinear_arith);
            let entrants = request.entrants@;
            let own = entrants[order@[i as int] as int].entrant_id@;
            assert forall|k: int| 0 <= k < candidates@.len() implies (#[trigger] candidates@[k]).second is Some && (i + 1
                < n ==> text_lt(candidate_first_id(entrants, candidates@[k]), entrants[order@[i + 1] as int].entrant_id@)) by {
                if i + 1 < n {
                    let next = entrants[order@[i + 1] as int].entrant_id@;
                    assert(text_lt(own, next));
                    let first = candidate_first_id(entrants, candidates@[k]);
                    if first != own {
                        lemma_text_le_transitive(first, own, next);
                    }
                }
            }
        }
        i = i + 1;
    }
    assert forall|p: int, q: int|
        0 <= p < q < order@.len() && !same_club_forbidden(
            *request,
            tier,
            request.entrants@[(#[trigger] order@[p]) as int],
            request.entrants@[(#[trigger] order@[q]) as int],
        ) && !rematch_forbidden(
            *request,
            tier,
            request.entrants@[order@[p] as int],
            request.entrants@[order@[q] as int],
        ) implies pair_covered(candidates@, order@[p], order@[q]) by {
        assert(p < i);
    }
    assert(candidates@.len() <= n * n);
    if n % 2 == 1 {
        let mut b: usize = 0;
        let ghost matches_len = candidates@.len();
        while b < n
            invariant
                n == order@.len() == request.entrants@.len(),
                n % 2 == 1,
                b <= n,
                request_valid(*request),
                is_id_order(request.entrants@, order@),
                candidates@.len() == matches_len + b,
                forall|k: int| 0 <= k < candidates@.len() ==> candidate_sound(*request, tier, #[trigger] candidates@[k]),
                candidates_ordered(request.entrants@, candidates@),
                forall|k: int| 0 <= k < matches_len ==> (#[trigger] candidates@[k]).second is Some,
                forall|k: int| matches_len <= k < candidates@.len() ==> (#[trigger] candidates@[k]).first == order@[k - matches_len] && candidates@[k].second is None,
                forall|p: int, q: int|
                    0 <= p < q < n && !same_club_forbidden(
                        *request,
                        tier,
                        request.entrants@[(#[trigger] order@[p]) as int],
                        request.entrants@[(#[trigger] order@[q]) as int],
                    ) && !rematch_forbidden(
                        *request,
                        tier,
                        request.entrants@[order@[p] as int],
                        request.entrants@[order@[q] as int],
                    ) ==> exists|k: int|
                        0 <= k < matches_len && (#[trigger] candidates@[k]).first == order@[p]
                            && candidates@[k].second == Some(order@[q]),
            decreases n - b,
        {
            let ghost before = candidates@;
            candidates.push(Candidate { first: order[b], second: None, same_club: false, rematch: false });
            proof {
                assert forall|p: int, q: int|
                    0 <= p < q < n && !same_club_forbidden(
                        *request,
                        tier,
                        request.entrants@[(#[trigger] order@[p]) as int],
                        request.entrants@[(#[trigger] order@[q]) as int],
                    ) && !rematch_forbidden(
                        *request,
                        tier,
                        request.entrants@[order@[p] as int],
                        request.entrants@[order@[q] as int],
                    ) implies exists|k: int|
                        0 <= k < matches_len && (#[trigger] candidates@[k]).first == order@[p]
                            && candidates@[k].second == Some(order@[q]) by {
                    let k = choose|k: int|
                        0 <= k < matches_len && (#[trigger] before[k]).first == order@[p]
                            && before[k].second == Some(order@[q]);
                    assert(candidates@[k] == before[k]);
                }
                let entrants = request.entrants@;
                assert forall|k: int, l: int| 0 <= k < l < candidates@.len() implies candidate_key_lt(
                    entrants,
                    #[trigger] candidates@[k],
                    #[trigger] candidates@[l],
                ) by {
                    if l < before.len() {
                        assert(candidates@[k] == before[k] && candidates@[l] == before[l]);
                    } else {
                        assert(candidates@[k] == before[k]);
                        if k >= matches_len {
                            assert(before[k].first == order@[k - matches_len]);
                            assert(text_lt(
                                entrants[order@[k - matches_len] as int].entrant_id@,
                                entrants[order@[b as int] as int].entrant_id@,
                            ));
                        }
                    }
                }
                assert forall|k: int| 0 <= k < matches_len implies (#[trigger] candidates@[k]).second is Some by {
                    assert(candidates@[k] == before[k]);
                }
            }
            b = b + 1;
        }
        proof {
            assert forall|a: int| 0 <= a < request.entrants@.len() implies #[trigger] has_bye_candidate(candidates@, a) by {
                assert(order@.contains(a as usize));
                let b = choose|b: int| 0 <= b < order@.len() && order@[b] == a as usize;
                assert(candidates@[matches_len + b].first == a);
            }
        }
    }
    assert forall|p: int, q: int|
        0 <= p < q < order@.len() && !same_club_forbidden(
            *request,
            tier,
            request.entrants@[(#[trigger] order@[p]) as int],
            request.entrants@[(#[trigger] order@[q]) as int],
        ) && !rematch_forbidden(
            *request,
            tier,
            request.entrants@[order@[p] as int],
            request.entrants@[order@[q] as int],
        ) implies pair_covered(candidates@, order@[p], order@[q]) by {
        if n % 2 == 1 {
            let k = choose|k: int|
                0 <= k < candidates@.len() && (#[trigger] candidates@[k]).first == order@[p]
                    && candidates@[k].second == Some(order@[q]);
        }
    }
    CollectedCandidates { candidates }
}


/// The edge priced from candidate `c` at position `k`.
spec fn edge_from_candidate(
    request: PairingRequest,
    model: EdgeCostModel,
    scale: u64,
    c: Candidate,
    k: int,
    edge: PairingCandidateEdge,
) -> bool {
    let entrants = request.entrants@;
    &&& edge.first_entrant_id@ == entrants[c.first as int].entrant_id@
    &&& edge.cost.0 == edge.breakdown.total
    &&& edge.breakdown.deterministic_tie_break == k
    &&& edge.same_club == c.same_club
    &&& edge.rematch == c.rematch
    &&& match c.second {
        Some(b) => {
            &&& edge.target matches PairingEdgeTarget::Entrant(t) && t@ == entrants[b as int].entrant_id@
            &&& spec_match_cost(model, entrants[c.first as int], entrants[b as int], CostContext {
                tie_break: k as u64,
                tie_break_scale: scale,
                same_club: c.same_club,
                rematch: c.rematch,
            }) == Ok::<PairingCostBreakdown, PairingCostComponent>(edge.breakdown)
        },
        None => {
            &&& edge.target is Bye
            &&& spec_bye_cost(model, entrants[c.first as int], k as u64, scale) == Ok::<
                PairingCostBreakdown,
                PairingCostComponent,
            >(edge.breakdown)
        },
    }
}

/// The overflow of the deterministic tie-break.
pub open spec fn tie_break_overflow_error() -> BlossomPairingError {
    BlossomPairingError::PairingCostOverflow { component: PairingCostComponent::DeterministicTieBreak }
}

fn tie_break_overflow() -> (error: BlossomPairingError)
    ensures
        error == (BlossomPairingError::PairingCostOverflow {
            component: PairingCostComponent::DeterministicTieBreak,
        }),
{
    BlossomPairingError::PairingCostOverflow { component: PairingCostComponent::DeterministicTieBreak }
}

/// The number of unordered pairs among `entrant_count` entrants.
fn candidate_pair_count(entrant_count: usize) -> (outcome: Result<usize, BlossomPairingError>)
    requires
        entrant_count >= 1,
    ensures
        outcome matches Ok(count) ==> count == entrant_count * (entrant_count - 1) / 2,
        entrant_count * (entrant_count - 1) <= usize::MAX <==> outcome is Ok,
        outcome matches Err(e) ==> e == tie_break_overflow_error(),
{
    match entrant_count.checked_mul(entrant_count - 1) {
        Some(product) => Ok(product / 2),
        None => Err(tie_break_overflow()),
    }
}

/// The tie-break scale for `edge_count` edges among `entrant_count` entrants.
fn tie_break_scale(edge_count: usize, entrant_count: usize) -> (outcome: Result<u64, BlossomPairingError>)
    ensures
        outcome matches Ok(scale) ==> scale == tie_break_scale_for(edge_count as int, entrant_count as int),
        entrant_count < usize::MAX && tie_break_scale_for(edge_count as int, entrant_count as int) <= u64::MAX
            ==> outcome is Ok,
        outcome matches Err(e) ==> e == tie_break_overflow_error(),
{
    if entrant_count == usize::MAX {
        return Err(tie_break_overflow());
    }
    let selected = (entrant_count + 1) / 2;
    let edges = edge_count as u64;
    let selected = selected as u64;
    match edges.checked_mul(selected) {
        Some(product) => match product.checked_add(1) {
            Some(scale) => Ok(scale),
            None => Err(tie_break_overflow()),
        },
        None => Err(tie_break_overflow()),
    }
}

fn price_candidates(
    request: &PairingRequest,
    model: &EdgeCostModel,
    candidates: &Vec<Candidate>,
    scale: u64,
) -> (outcome: Result<Vec<PairingCandidateEdge>, BlossomPairingError>)
    requires
        forall|k: int| 0 <= k < candidates@.len() ==> (#[trigger] candidates@[k]).first < request.entrants@.len()
            && (candidates@[k].second matches Some(b) ==> b < request.entrants@.len()),
    ensures
        outcome matches Ok(edges) ==> edges@.len() == candidates@.len() && forall|k: int|
            0 <= k < edges@.len() ==> edge_from_candidate(*request, *model, scale, candidates@[k], k, #[trigger] edges@[k]),
        outcome matches Err(e) ==> e is PairingCostOverflow,
        (forall|k: int| 0 <= k < candidates@.len() ==> candidate_priced(*request, *model, scale, #[trigger] candidates@[k], k))
            ==> outcome is Ok,
        match outcome {
            Err(BlossomPairingError::PairingCostOverflow { component }) => exists|k: int|
                0 <= k < candidates@.len() && #[trigger] candidate_fails(*request, *model, scale, candidates@[k], k, component),
            _ => true,
        },
{
    let mut edges: Vec<PairingCandidateEdge> = Vec::new();
    let mut k: usize = 0;
    while k < candidates.len()
        invariant
            k <= candidates@.len(),
            edges@.len() == k,
            forall|i: int| 0 <= i < candidates@.len() ==> (#[trigger] candidates@[i]).first < request.entrants@.len()
                && (candidates@[i].second matches Some(b) ==> b < request.entrants@.len()),
            forall|i: int|
                0 <= i < k ==> edge_from_candidate(*request, *model, scale, candidates@[i], i, #[trigger] edges@[i]),
        decreases candidates@.len() - k,
    {
        let candidate = candidates[k];
        let first = &request.entrants[candidate.first];
        let edge = match candidate.second {
            Some(b) => {
                let second = &request.entrants[b];
                let priced = match_cost(
                    model,
                    first,
                    second,
                    CostContext {
                        tie_break: k as u64,
                        tie_break_scale: scale,
                        same_club: candidate.same_club,
                        rematch: candidate.rematch,
                    },
                );
                proof {
                    if let Err(BlossomPairingError::PairingCostOverflow { component }) = priced {
                        assert(candidate_fails(*request, *model, scale, candidates@[k as int], k as int, component));
                    }
                }
                let (cost, breakdown) = priced?;
                PairingCandidateEdge {
                    first_entrant_id: first.entrant_id.duplicate(),
                    target: PairingEdgeTarget::Entrant(second.entrant_id.duplicate()),
                    same_club: candidate.same_club,
                    rematch: candidate.rematch,
                    cost,
                    breakdown,
                }
            },
            None => {
                let priced = bye_cost(model, first, k as u64, scale);
                proof {
                    if let Err(BlossomPairingError::PairingCostOverflow { component }) = priced {
                        assert(candidate_fails(*request, *model, scale, candidates@[k as int], k as int, component));
                    }
                }
                let (cost, breakdown) = priced?;
                PairingCandidateEdge {
                    first_entrant_id: first.entrant_id.duplicate(),
                    target: PairingEdgeTarget::Bye,
                    same_club: candidate.same_club,
                    rematch: candidate.rematch,
                    cost,
                    breakdown,
                }
            },
        };
        edges.push(edge);
        k = k + 1;
    }
    Ok(edges)
}

/// Builds the candidate graph of a request at a relaxation tier with the
/// given cost model: the request is validated, entrants are ordered by id,
/// every pair that the tier admits becomes a match edge and, in an odd field,
/// every entrant gets a bye edge; edges are priced in that order with their
/// position as deterministic tie-break.
pub fn build_candidate_graph_with(
    request: &PairingRequest,
    relaxation_tier: RelaxationTier,
    model: &EdgeCostModel,
) -> (outcome: Result<PairingCandidateGraph, BlossomPairingError>)
    ensures
        outcome is Ok ==> request_valid(*request),
        outcome matches Ok(graph) ==> candidate_graph_matches(*request, relaxation_tier, *model, graph),
        outcome matches Ok(graph) ==> graph.diagnostics.rejected_same_club_edges == rejected_pairs(
            *request,
            relaxation_tier,
            true,
        ).len() && graph.diagnostics.rejected_rematch_edges == rejected_pairs(*request, relaxation_tier, false).len(),
        !request_valid(*request) ==> outcome is Err,
        request_valid(*request) && request_costs_fit(*request, *model) ==> outcome is Ok,
        match outcome {
            Err(BlossomPairingError::PairingCostOverflow { component }) => request_valid(*request) ==> (
            component == PairingCostComponent::DeterministicTieBreak && !tie_breaks_fit(*request)) || pricing_fails(
                *request,
                *model,
                component,
            ),
            _ => true,
        },
{
    validate_request(request)?;
    let edge_generation_started = diagnostic_clock_microseconds();
    let order = entrant_order(&request.entrants);
    let n = order.len();
    let candidate_pair_count = candidate_pair_count(n)?;
    let collected = collect_candidates(request, relaxation_tier, &order);
    let candidates = collected.candidates;
    let rejected_same_club_edges = count_rejected_pairs(request, relaxation_tier, &order, true);
    let rejected_rematch_edges = count_rejected_pairs(request, relaxation_tier, &order, false);
    let edge_generation_microseconds = elapsed_microseconds(edge_generation_started);
    let cost_started = diagnostic_clock_microseconds();
    proof {
        let count = candidates@.len() as int;
        let q = (n as int + 1) / 2;
        let m = n as int;
        assert(count * q + 1 <= (m * m + m) * q + 1) by (nonlinear_arith)
            requires
                0 <= count <= m * m + m,
                q >= 0,
        ;
    }
    let scale = tie_break_scale(candidates.len(), n)?;
    proof {
        if request_costs_fit(*request, *model) {
            let entrants = request.entrants@;
            let count = candidates@.len() as int;
            let q = (n as int + 1) / 2;
            let m = n as int;
            assert(count * q + 1 <= (m * m + m) * q + 1) by (nonlinear_arith)
                requires
                    0 <= count <= m * m + m,
                    q >= 0,
            ;
            assert(count * q >= count) by (nonlinear_arith)
                requires
                    count >= 0,
                    q >= 1,
            ;
            assert forall|k: int| 0 <= k < candidates@.len() implies candidate_priced(
                *request,
                *model,
                scale,
                #[trigger] candidates@[k],
                k,
            ) by {
                let c = candidates@[k];
                assert(candidate_sound(*request, relaxation_tier, c));
                assert((k as u64) < scale);
                match c.second {
                    Some(b) => {
                        assert(CostContext {
                            tie_break: k as u64,
                            tie_break_scale: scale,
                            same_club: c.same_club,
                            rematch: c.rematch,
                        } == pair_context(*request, entrants[c.first as int], entrants[b as int], k as u64, scale));
                        assert(spec_match_cost(
                            *model,
                            entrants[c.first as int],
                            entrants[b as int],
                            pair_context(*request, entrants[c.first as int], entrants[b as int], k as u64, scale),
                        ) is Ok);
                    },
                    None => {
                        assert(spec_bye_cost(*model, entrants[c.first as int], k as u64, scale) is Ok);
                    },
                }
            }
        }
    }
    proof {
        assert forall|k: int| 0 <= k < candidates@.len() implies (#[trigger] candidates@[k]).first
            < request.entrants@.len() && (candidates@[k].second matches Some(b) ==> b
            < request.entrants@.len()) by {
            assert(candidate_sound(*request, relaxation_tier, candidates@[k]));
        }
    }
    let priced = price_candidates(request, model, &candidates, scale);
    proof {
        if let Err(BlossomPairingError::PairingCostOverflow { component }) = priced {
            let k = choose|k: int|
                0 <= k < candidates@.len() && #[trigger] candidate_fails(*request, *model, scale, candidates@[k], k, component);
            let c = candidates@[k];
            let entrants = request.entrants@;
            assert(candidate_sound(*request, relaxation_tier, c));
            match c.second {
                Some(b) => {
                    assert(CostContext {
                        tie_break: k as u64,
                        tie_break_scale: scale,
                        same_club: c.same_club,
                        rematch: c.rematch,
                    } == pair_context(*request, entrants[c.first as int], entrants[b as int], k as u64, scale));
                    assert(spec_match_cost(
                        *model,
                        entrants[c.first as int],
                        entrants[b as int],
                        pair_context(*request, entrants[c.first as int], entrants[b as int], k as u64, scale),
                    ) == Err::<PairingCostBreakdown, PairingCostComponent>(component));
                },
                None => {
                    assert(spec_bye_cost(*model, entrants[c.first as int], k as u64, scale) == Err::<
                        PairingCostBreakdown,
                        PairingCostComponent,
                    >(component));
                },
            }
        }
    }
    let edges = priced?;
    let cost_calculation_microseconds = elapsed_microseconds(cost_started);
    let mut entrant_ids: Vec<EntrantId> = Vec::new();
    let mut p: usize = 0;
    while p < n
        invariant
            n == order@.len() == request.entrants@.len(),
            p <= n,
            is_id_order(request.entrants@, order@),
            entrant_ids@.len() == p,
            forall|i: int| 0 <= i < p ==> (#[trigger] entrant_ids@[i])@ == request.entrants@[order@[i] as int].entrant_id@,
        decreases n - p,
    {
        entrant_ids.push(request.entrants[order[p]].entrant_id.duplicate());
        p = p + 1;
    }
    let eligible_edge_count = edges.len();
    let graph = PairingCandidateGraph {
        relaxation_tier,
        entrant_ids,
        edges,
        diagnostics: PairingDiagnostics {
            candidate_pair_count,
            eligible_edge_count,
            rejected_same_club_edges,
            rejected_rematch_edges,
            edge_generation_microseconds,
            cost_calculation_microseconds,
            solver_microseconds: 0,
            validation_microseconds: 0,
        },
    };
    proof {
        lemma_graph_matches(*request, relaxation_tier, *model, order@, candidates@, graph, scale);
    }
    Ok(graph)
}

proof fn lemma_graph_matches(
    request: PairingRequest,
    tier: RelaxationTier,
    model: EdgeCostModel,
    order: Seq<usize>,
    candidates: Seq<Candidate>,
    graph: PairingCandidateGraph,
    scale: u64,
)
    requires
        request_valid(request),
        request.entrants@.len() <= usize::MAX,
        is_id_order(request.entrants@, order),
        forall|i: int| 0 <= i < request.entrants@.len() ==> (#[trigger] order.contains(i as usize)),
        forall|k: int| 0 <= k < candidates.len() ==> candidate_sound(request, tier, #[trigger] candidates[k]),
        forall|p: int, q: int|
            0 <= p < q < order.len() && !same_club_forbidden(
                request,
                tier,
                request.entrants@[(#[trigger] order[p]) as int],
                request.entrants@[(#[trigger] order[q]) as int],
            ) && !rematch_forbidden(
                request,
                tier,
                request.entrants@[order[p] as int],
                request.entrants@[order[q] as int],
            ) ==> pair_covered(candidates, order[p], order[q]),
        request.entrants@.len() % 2 == 1 ==> forall|a: int|
            0 <= a < request.entrants@.len() ==> #[trigger] has_bye_candidate(candidates, a),
        graph.relaxation_tier == tier,
        graph.edges@.len() == candidates.len(),
        forall|k: int|
            0 <= k < graph.edges@.len() ==> edge_from_candidate(request, model, scale, candidates[k], k, #[trigger] graph.edges@[k]),
        graph.entrant_ids@.len() == order.len(),
        forall|i: int| 0 <= i < order.len() ==> (#[trigger] graph.entrant_ids@[i])@ == request.entrants@[order[i] as int].entrant_id@,
        scale == tie_break_scale_for(candidates.len() as int, order.len() as int),
        graph.diagnostics.candidate_pair_count == request.entrants@.len() * (request.entrants@.len() - 1) / 2,
        graph.diagnostics.eligible_edge_count == graph.edges@.len(),
        candidates_ordered(request.entrants@, candidates),
    ensures
        candidate_graph_matches(request, tier, model, graph),
{
    lemma_edges_ordered(request, model, candidates, graph, scale);
    let entrants = request.entrants@;
    let ids = graph.entrant_ids@;
    let edges = graph.edges@;
    assert(graph_tie_break_scale(graph) == scale);
    assert forall|p: int, q: int| 0 <= p < q < ids.len() implies text_lt((#[trigger] ids[p])@, (#[trigger] ids[q])@) by {
        assert(text_lt(entrants[order[p] as int].entrant_id@, entrants[order[q] as int].entrant_id@));
    }
    assert forall|p: int| 0 <= p < ids.len() implies has_entrant_id(entrants, (#[trigger] ids[p])@) by {
        assert(entrants[order[p] as int].entrant_id@ == ids[p]@);
    }
    assert forall|k: int| 0 <= k < edges.len() implies #[trigger] graph_edge_sound(request, tier, model, graph, k) by {
        lemma_edge_sound(request, tier, model, candidates, graph, scale, k);
    }
    lemma_pairs_complete(request, tier, model, order, candidates, graph, scale);
    lemma_byes_complete(request, model, candidates, graph, scale);
    assert(graph_ids_sorted(request, graph));
    assert(graph_pairs_complete(request, tier, graph));
    assert(graph_byes_complete(request, graph));
}

proof fn lemma_edges_ordered(
    request: PairingRequest,
    model: EdgeCostModel,
    candidates: Seq<Candidate>,
    graph: PairingCandidateGraph,
    scale: u64,
)
    requires
        graph.edges@.len() == candidates.len(),
        forall|k: int|
            0 <= k < graph.edges@.len() ==> edge_from_candidate(request, model, scale, candidates[k], k, #[trigger] graph.edges@[k]),
        candidates_ordered(request.entrants@, candidates),
    ensures
        graph_edges_ordered(graph),
{
    let edges = graph.edges@;
    assert forall|k: int, l: int| 0 <= k < l < edges.len() implies edge_precedes(#[trigger] edges[k], #[trigger] edges[l]) by {
        assert(edge_from_candidate(request, model, scale, candidates[k], k, edges[k]));
        assert(edge_from_candidate(request, model, scale, candidates[l], l, edges[l]));
        assert(candidate_key_lt(request.entrants@, candidates[k], candidates[l]));
    }
}

proof fn lemma_byes_complete(
    request: PairingRequest,
    model: EdgeCostModel,
    candidates: Seq<Candidate>,
    graph: PairingCandidateGraph,
    scale: u64,
)
    requires
        request.entrants@.len() % 2 == 1 ==> forall|a: int|
            0 <= a < request.entrants@.len() ==> #[trigger] has_bye_candidate(candidates, a),
        graph.edges@.len() == candidates.len(),
        forall|k: int|
            0 <= k < graph.edges@.len() ==> edge_from_candidate(request, model, scale, candidates[k], k, #[trigger] graph.edges@[k]),
    ensures
        graph_byes_complete(request, graph),
{
    if request.entrants@.len() % 2 == 1 {
        assert forall|a: int| 0 <= a < request.entrants@.len() implies graph_has_bye_edge(
            graph,
            (#[trigger] request.entrants@[a]).entrant_id@,
        ) by {
            assert(has_bye_candidate(candidates, a));
            let k = choose|k: int| 0 <= k < candidates.len() && (#[trigger] candidates[k]).first == a
                && candidates[k].second is None;
            assert(edge_from_candidate(request, model, scale, candidates[k], k, graph.edges@[k]));
            assert(candidates[k].first as int == a);
        }
        assert(graph_byes_complete(request, graph));
    }
}

proof fn lemma_edge_sound(
    request: PairingRequest,
    tier: RelaxationTier,
    model: EdgeCostModel,
    candidates: Seq<Candidate>,
    graph: PairingCandidateGraph,
    scale: u64,
    k: int,
)
    requires
        0 <= k < graph.edges@.len() == candidates.len(),
        candidate_sound(request, tier, candidates[k]),
        edge_from_candidate(request, model, scale, candidates[k], k, graph.edges@[k]),
        scale == graph_tie_break_scale(graph),
    ensures
        graph_edge_sound(request, tier, model, graph, k),
{
    let entrants = request.entrants@;
    let c = candidates[k];
    let a = c.first as int;
    let b = match c.second { Some(b) => b as int, None => a };
    assert(0 <= a < entrants.len() && 0 <= b < entrants.len());
    let _ = entrants[a];
    let _ = entrants[b];
}

proof fn lemma_pairs_complete(
    request: PairingRequest,
    tier: RelaxationTier,
    model: EdgeCostModel,
    order: Seq<usize>,
    candidates: Seq<Candidate>,
    graph: PairingCandidateGraph,
    scale: u64,
)
    requires
        request.entrants@.len() <= usize::MAX,
        is_id_order(request.entrants@, order),
        forall|i: int| 0 <= i < request.entrants@.len() ==> (#[trigger] order.contains(i as usize)),
        forall|p: int, q: int|
            0 <= p < q < order.len() && !same_club_forbidden(
                request,
                tier,
                request.entrants@[(#[trigger] order[p]) as int],
                request.entrants@[(#[trigger] order[q]) as int],
            ) && !rematch_forbidden(
                request,
                tier,
                request.entrants@[order[p] as int],
                request.entrants@[order[q] as int],
            ) ==> pair_covered(candidates, order[p], order[q]),
        graph.edges@.len() == candidates.len(),
        forall|k: int|
            0 <= k < graph.edges@.len() ==> edge_from_candidate(request, model, scale, candidates[k], k, #[trigger] graph.edges@[k]),
    ensures
        graph_pairs_complete(request, tier, graph),
{
    let entrants = request.entrants@;
    let edges = graph.edges@;
    assert forall|a: int, b: int|
        0 <= a < entrants.len() && 0 <= b < entrants.len() && text_lt(
            (#[trigger] entrants[a]).entrant_id@,
            (#[trigger] entrants[b]).entrant_id@,
        ) && !same_club_forbidden(request, tier, entrants[a], entrants[b]) && !rematch_forbidden(
            request,
            tier,
            entrants[a],
            entrants[b],
        ) implies exists|k: int| 0 <= k < edges.len() && is_match_edge_for(#[trigger] edges[k], entrants[a], entrants[b]) by {
        assert(order.contains(a as usize));
        assert(order.contains(b as usize));
        let p = choose|p: int| 0 <= p < order.len() && order[p] == a as usize;
        let q = choose|q: int| 0 <= q < order.len() && order[q] == b as usize;
        assert(order[p] as int == a);
        assert(order[q] as int == b);
        lemma_text_order_antisymmetric(entrants[a].entrant_id@, entrants[b].entrant_id@);
        if q < p {
            assert(text_lt(entrants[order[q] as int].entrant_id@, entrants[order[p] as int].entrant_id@));
            assert(false);
        }
        if p == q {
            assert(false);
        }
        assert(pair_covered(candidates, order[p], order[q]));
        let k = choose|k: int| 0 <= k < candidates.len() && (#[trigger] candidates[k]).first == order[p]
            && candidates[k].second == Some(order[q]);
        assert(edge_from_candidate(request, model, scale, candidates[k], k, edges[k]));
        assert(is_match_edge_for(edges[k], entrants[a], entrants[b]));
    }
}

} // verus!
