//! In an odd field, keeps only the bye edges of entrants who can sit out
//! while everyone else is still paired, and among those only the entrants
//! with the fewest byes so far.
use vstd::prelude::*;

use crate::identity::EntrantId;

use super::blossom_feasibility::maximum_cardinality_matching;
use super::solver_graph::SolverGraph;
use super::proposal_validation::first_bye_count;
use super::reference_solver::{
    covers_each_node_once, edge_touches, edges_total, edges_well_formed, graph_knows, ids_distinct, is_complete_matching,
    node_met, solve_exactly,
};
use super::solver_graph::node_count_for;
use super::{PairingCandidateEdge, PairingCandidateGraph, PairingEdgeTarget, PairingEntrant, PairingRequest};

verus! {

/// The edge pairs two entrants.
pub open spec fn pairs_two_entrants() -> spec_fn(PairingCandidateEdge) -> bool {
    |edge: PairingCandidateEdge| edge.target is Entrant
}

/// The edges that pair two entrants, in order.
pub open spec fn match_edges(edges: Seq<PairingCandidateEdge>) -> Seq<PairingCandidateEdge> {
    edges.filter(pairs_two_entrants())
}

/// Entrant `id` has had `count` byes.
pub open spec fn has_bye_count(entrants: Seq<PairingEntrant>, id: Seq<char>, count: u16) -> bool {
    exists|i: int| 0 <= i < entrants.len() && (#[trigger] entrants[i]).entrant_id@ == id && entrants[i].bye_count == count
}

/// Every bye edge belongs to an entrant with `count` byes.
pub open spec fn byes_share_count(entrants: Seq<PairingEntrant>, edges: Seq<PairingCandidateEdge>, count: u16) -> bool {
    forall|k: int| 0 <= k < edges.len() && (#[trigger] edges[k]).target is Bye ==> has_bye_count(
        entrants,
        edges[k].first_entrant_id@,
        count,
    )
}

/// `after` is `before` with its bye edges thinned, timings aside: an even
/// field keeps its edges; in an odd field the pairing edges stay, every kept
/// bye edge was there before, and all kept bye edges belong to entrants with
/// one and the same bye count. The tier, the entrants and the pair and
/// rejection counts stay, and the eligible edge count follows the edges.
pub open spec fn fair_byes_kept(request: PairingRequest, before: PairingCandidateGraph, after: PairingCandidateGraph) -> bool {
    &&& request.entrants@.len() % 2 == 0 ==> after.edges == before.edges
    &&& after.relaxation_tier == before.relaxation_tier
    &&& after.entrant_ids == before.entrant_ids
    &&& after.diagnostics.candidate_pair_count == before.diagnostics.candidate_pair_count
    &&& after.diagnostics.rejected_same_club_edges == before.diagnostics.rejected_same_club_edges
    &&& after.diagnostics.rejected_rematch_edges == before.diagnostics.rejected_rematch_edges
    &&& (request.entrants@.len() % 2 == 0 ==> after.diagnostics.eligible_edge_count
        == before.diagnostics.eligible_edge_count)
    &&& request.entrants@.len() % 2 == 1 ==> {
        &&& after.diagnostics.eligible_edge_count == after.edges@.len()
        &&& match_edges(after.edges@) == match_edges(before.edges@)
        &&& forall|k: int| 0 <= k < after.edges@.len() && (#[trigger] after.edges@[k]).target is Bye
            ==> before.edges@.contains(after.edges@[k])
        &&& exists|fewest: u16| #[trigger] byes_share_count(request.entrants@, after.edges@, fewest)
    }
}

/// Filtering a sequence extended by one element.
pub proof fn lemma_filter_push<A>(s: Seq<A>, x: A, pred: spec_fn(A) -> bool)
    ensures
        s.push(x).filter(pred) == if pred(x) {
            s.filter(pred).push(x)
        } else {
            s.filter(pred)
        },
{
    reveal(Seq::filter);
    assert(s.push(x).drop_last() =~= s);
}

/// The entrant with the id is listed in the request.
pub open spec fn is_listed(entrants: Seq<PairingEntrant>, id: Seq<char>) -> bool {
    exists|i: int| 0 <= i < entrants.len() && (#[trigger] entrants[i]).entrant_id@ == id
}

/// Edge `k` is a bye edge marked feasible, of an entrant that the request
/// lists.
pub open spec fn bye_eligible(
    request: PairingRequest,
    edges: Seq<PairingCandidateEdge>,
    feasible: Seq<bool>,
    k: int,
) -> bool {
    &&& 0 <= k < edges.len()
    &&& k < feasible.len()
    &&& edges[k].target is Bye
    &&& feasible[k]
    &&& is_listed(request.entrants@, edges[k].first_entrant_id@)
}

/// The bye count of the entrant of edge `k`.
pub open spec fn bye_count_at(request: PairingRequest, edges: Seq<PairingCandidateEdge>, k: int) -> u16 {
    first_bye_count(request.entrants@, edges[k].first_entrant_id@, 0)
}

/// Edge `k` is eligible and no eligible bye edge belongs to an entrant
/// with fewer byes.
pub open spec fn is_fewest_bye(
    request: PairingRequest,
    edges: Seq<PairingCandidateEdge>,
    feasible: Seq<bool>,
    k: int,
) -> bool {
    &&& bye_eligible(request, edges, feasible, k)
    &&& forall|other: int| #[trigger] bye_eligible(request, edges, feasible, other) ==> bye_count_at(request, edges, k)
        <= bye_count_at(request, edges, other)
}

/// `after` keeps the pairing edges of `before` in order, and of its bye
/// edges exactly those that are eligible under `feasible` and belong to an
/// entrant with the fewest byes among the eligible ones.
pub open spec fn fairest_byes_kept(
    request: PairingRequest,
    before: PairingCandidateGraph,
    after: PairingCandidateGraph,
    feasible: Seq<bool>,
) -> bool {
    &&& match_edges(after.edges@) == match_edges(before.edges@)
    &&& forall|j: int|
        0 <= j < after.edges@.len() && (#[trigger] after.edges@[j]).target is Bye ==> exists|k: int|
            #[trigger] is_fewest_bye(request, before.edges@, feasible, k) && before.edges@[k] == after.edges@[j]
    &&& forall|k: int| #[trigger] is_fewest_bye(request, before.edges@, feasible, k) ==> after.edges@.contains(before.edges@[k])
}

/// No eligible bye edge below `bound` belongs to an entrant with fewer byes
/// than the entrant of edge `k`.
spec fn lowest_below(request: PairingRequest, edges: Seq<PairingCandidateEdge>, feasible: Seq<bool>, k: int, bound: int) -> bool {
    forall|other: int|
        0 <= other < bound && #[trigger] bye_eligible(request, edges, feasible, other) ==> bye_count_at(request, edges, k)
            <= bye_count_at(request, edges, other)
}

/// Among the eligible bye edges below `bound`, one has the fewest byes.
#[verifier::rlimit(40)]
proof fn lemma_fewest_below(request: PairingRequest, edges: Seq<PairingCandidateEdge>, feasible: Seq<bool>, bound: int) -> (k: int)
    requires
        0 <= bound <= edges.len(),
        exists|k: int| 0 <= k < bound && #[trigger] bye_eligible(request, edges, feasible, k),
    ensures
        0 <= k < bound,
        bye_eligible(request, edges, feasible, k),
        lowest_below(request, edges, feasible, k, bound),
    decreases bound,
{
    let last = bound - 1;
    if exists|k: int| 0 <= k < last && #[trigger] bye_eligible(request, edges, feasible, k) {
        let k = lemma_fewest_below(request, edges, feasible, last);
        if bye_eligible(request, edges, feasible, last) && bye_count_at(request, edges, last) < bye_count_at(request, edges, k) {
            assert(lowest_below(request, edges, feasible, last, bound)) by {
                assert forall|other: int|
                    0 <= other < bound && #[trigger] bye_eligible(request, edges, feasible, other) implies bye_count_at(
                        request,
                        edges,
                        last,
                    ) <= bye_count_at(request, edges, other) by {
                    if other < last {
                        assert(lowest_below(request, edges, feasible, k, last));
                    }
                }
            }
            last
        } else {
            assert(lowest_below(request, edges, feasible, k, bound)) by {
                assert forall|other: int|
                    0 <= other < bound && #[trigger] bye_eligible(request, edges, feasible, other) implies bye_count_at(
                        request,
                        edges,
                        k,
                    ) <= bye_count_at(request, edges, other) by {
                    if other < last {
                        assert(lowest_below(request, edges, feasible, k, last));
                    }
                }
            }
            k
        }
    } else {
        let k = choose|k: int| 0 <= k < bound && #[trigger] bye_eligible(request, edges, feasible, k);
        assert(k == last);
        assert(lowest_below(request, edges, feasible, last, bound)) by {
            assert forall|other: int|
                0 <= other < bound && #[trigger] bye_eligible(request, edges, feasible, other) implies bye_count_at(
                    request,
                    edges,
                    last,
                ) <= bye_count_at(request, edges, other) by {
                if other < last {
                    assert(!bye_eligible(request, edges, feasible, other));
                }
            }
        }
        last
    }
}

/// The bye filter is fair: no kept bye edge belongs to an entrant with more
/// byes than an entrant whose bye edge is eligible, and whenever some bye
/// edge is eligible, a bye edge is kept.
pub proof fn law_kept_bye_has_fewest_byes(
    request: PairingRequest,
    before: PairingCandidateGraph,
    after: PairingCandidateGraph,
    feasible: Seq<bool>,
)
    requires
        fairest_byes_kept(request, before, after, feasible),
    ensures
        forall|j: int, k: int|
            0 <= j < after.edges@.len() && (#[trigger] after.edges@[j]).target is Bye && #[trigger] bye_eligible(
                request,
                before.edges@,
                feasible,
                k,
            ) ==> first_bye_count(request.entrants@, after.edges@[j].first_entrant_id@, 0) <= bye_count_at(
                request,
                before.edges@,
                k,
            ),
        (exists|k: int| #[trigger] bye_eligible(request, before.edges@, feasible, k)) ==> exists|j: int|
            0 <= j < after.edges@.len() && (#[trigger] after.edges@[j]).target is Bye,
{
    let edges = before.edges@;
    assert forall|j: int, k: int|
        0 <= j < after.edges@.len() && (#[trigger] after.edges@[j]).target is Bye && #[trigger] bye_eligible(
            request,
            edges,
            feasible,
            k,
        ) implies first_bye_count(request.entrants@, after.edges@[j].first_entrant_id@, 0) <= bye_count_at(
        request,
        edges,
        k,
    ) by {
        let at = choose|at: int| #[trigger] is_fewest_bye(request, edges, feasible, at) && edges[at] == after.edges@[j];
        assert(bye_count_at(request, edges, at) <= bye_count_at(request, edges, k));
    }
    if exists|k: int| #[trigger] bye_eligible(request, edges, feasible, k) {
        let k0 = choose|k: int| #[trigger] bye_eligible(request, edges, feasible, k);
        assert(0 <= k0 < edges.len());
        let k = lemma_fewest_below(request, edges, feasible, edges.len() as int);
        assert forall|other: int| #[trigger] bye_eligible(request, edges, feasible, other) implies bye_count_at(
            request,
            edges,
            k,
        ) <= bye_count_at(request, edges, other) by {
            assert(lowest_below(request, edges, feasible, k, edges.len() as int));
        }
        assert(is_fewest_bye(request, edges, feasible, k));
        assert(after.edges@.contains(edges[k]));
        let j = choose|j: int| 0 <= j < after.edges@.len() && after.edges@[j] == edges[k];
        assert(after.edges@[j].target is Bye);
    }
}

/// The bye count of the entrant with id `id`, if one is listed.
fn bye_count_of(request: &PairingRequest, id: &EntrantId) -> (count: Option<u16>)
    ensures
        count matches Some(c) ==> has_bye_count(request.entrants@, id@, c) && c == first_bye_count(
            request.entrants@,
            id@,
            0,
        ) && is_listed(request.entrants@, id@),
        count is None ==> forall|i: int| 0 <= i < request.entrants@.len() ==> (#[trigger] request.entrants@[i]).entrant_id@ != id@,
        count is None ==> !is_listed(request.entrants@, id@),
{
    let mut i: usize = 0;
    while i < request.entrants.len()
        invariant
            i <= request.entrants@.len(),
            forall|j: int| 0 <= j < i ==> (#[trigger] request.entrants@[j]).entrant_id@ != id@,
            first_bye_count(request.entrants@, id@, 0) == first_bye_count(request.entrants@, id@, i as int),
        decreases request.entrants@.len() - i,
    {
        if request.entrants[i].entrant_id.same_as(id) {
            return Some(request.entrants[i].bye_count);
        }
        i = i + 1;
    }
    None
}

/// In an odd field, drops the bye edges of entrants whose absence would
/// leave the others without a complete pairing, and then those of entrants
/// with more byes than the fewest among the rest; when no entrant can take
/// the bye, all bye edges go. Pairing edges and everything else stay; the
/// eligible edge count follows the edges. An even field is left as it is.
pub fn retain_fairest_feasible_byes(request: &PairingRequest, graph: &mut PairingCandidateGraph)
    ensures
        fair_byes_kept(*request, *old(graph), *final(graph)),
        request.entrants@.len() % 2 == 0 ==> *final(graph) == *old(graph),
        request.entrants@.len() % 2 == 1 ==> final(graph).diagnostics == (super::PairingDiagnostics {
            eligible_edge_count: final(graph).edges@.len() as usize,
            ..old(graph).diagnostics
        }),
        request.entrants@.len() % 2 == 1 ==> exists|feasible: Seq<bool>|
            feasible.len() == old(graph).edges@.len() && (forall|k: int|
                0 <= k < feasible.len() && #[trigger] feasible[k] ==> old(graph).edges@[k].target is Bye
                    && bye_leaves_complete_pairing(*old(graph), old(graph).edges@[k].first_entrant_id@))
                && #[trigger] fairest_byes_kept(*request, *old(graph), *final(graph), feasible),
        request.entrants@.len() % 2 == 1 ==> forall|j: int|
            0 <= j < final(graph).edges@.len() && (#[trigger] final(graph).edges@[j]).target is Bye
                ==> bye_leaves_complete_pairing(*old(graph), final(graph).edges@[j].first_entrant_id@),
        request.entrants@.len() % 2 == 1 ==> forall|j: int, k: int|
            0 <= j < final(graph).edges@.len() && (#[trigger] final(graph).edges@[j]).target is Bye
                && #[trigger] pairable_bye_candidate(*request, *old(graph), k) ==> first_bye_count(
                request.entrants@,
                final(graph).edges@[j].first_entrant_id@,
                0,
            ) <= bye_count_at(*request, old(graph).edges@, k),
        request.entrants@.len() % 2 == 1 && (exists|k: int| #[trigger] pairable_bye_candidate(*request, *old(graph), k))
            ==> exists|j: int| 0 <= j < final(graph).edges@.len() && (#[trigger] final(graph).edges@[j]).target is Bye,
{
    if request.entrants.len() % 2 == 0 {
        return;
    }
    let count = graph.edges.len();
    let mut feasible: Vec<bool> = Vec::new();
    let mut k: usize = 0;
    while k < count
        invariant
            count == graph.edges@.len(),
            k <= count,
            feasible@.len() == k,
            forall|at: int| 0 <= at < k && #[trigger] feasible@[at] ==> graph.edges@[at].target is Bye
                && bye_leaves_complete_pairing(*graph, graph.edges@[at].first_entrant_id@),
            forall|at: int| 0 <= at < k && #[trigger] pairable_bye_candidate(*request, *graph, at) ==> feasible@[at],
        decreases count - k,
    {
        let marked = matches!(graph.edges[k].target, PairingEdgeTarget::Bye) && remainder_is_matchable(
            graph,
            &graph.edges[k].first_entrant_id,
        );
        proof {
            let id = graph.edges@[k as int].first_entrant_id@;
            if pairable_bye_candidate(*request, *graph, k as int) {
                let (rest, indices) = choose|rest: PairingCandidateGraph, indices: Seq<usize>|
                    #![trigger is_remainder(*graph, id, rest), is_complete_matching(rest, indices)]
                    is_remainder(*graph, id, rest) && is_complete_matching(rest, indices);
                assert(is_remainder(*graph, id, rest));
                assert(exhaustively_decidable(rest));
                assert(is_complete_matching(rest, indices));
                assert(marked);
            }
        }
        feasible.push(marked);
        k = k + 1;
    }
    let ghost before = *graph;
    keep_fairest_byes(request, graph, &feasible);
    proof {
        assert forall|k: int| #[trigger] pairable_bye_candidate(*request, before, k) implies bye_eligible(
            *request,
            before.edges@,
            feasible@,
            k,
        ) by {}
        law_kept_bye_has_fewest_byes(*request, before, *graph, feasible@);
        if exists|k: int| #[trigger] pairable_bye_candidate(*request, before, k) {
            let k = choose|k: int| #[trigger] pairable_bye_candidate(*request, before, k);
            assert(bye_eligible(*request, before.edges@, feasible@, k));
        }
        assert forall|j: int, k: int|
            0 <= j < graph.edges@.len() && (#[trigger] graph.edges@[j]).target is Bye
                && #[trigger] pairable_bye_candidate(*request, before, k) implies first_bye_count(
            request.entrants@,
            graph.edges@[j].first_entrant_id@,
            0,
        ) <= bye_count_at(*request, before.edges@, k) by {
            assert(bye_eligible(*request, before.edges@, feasible@, k));
        }
        assert forall|j: int|
            0 <= j < graph.edges@.len() && (#[trigger] graph.edges@[j]).target is Bye implies bye_leaves_complete_pairing(
            before,
            graph.edges@[j].first_entrant_id@,
        ) by {
            let at = choose|at: int| #[trigger] is_fewest_bye(*request, before.edges@, feasible@, at) && before.edges@[at] == graph.edges@[j];
            assert(bye_eligible(*request, before.edges@, feasible@, at));
            assert(feasible@[at]);
        }
    }
}

/// In an odd field, keeps the pairing edges and, of the bye edges marked
/// feasible whose entrant is listed, those of the entrants with the fewest
/// byes; all other bye edges go and the eligible edge count follows the
/// edges.
pub fn keep_fairest_byes(request: &PairingRequest, graph: &mut PairingCandidateGraph, feasible: &Vec<bool>)
    requires
        old(graph).edges@.len() == feasible@.len(),
        request.entrants@.len() % 2 == 1,
    ensures
        fairest_byes_kept(*request, *old(graph), *final(graph), feasible@),
        fair_byes_kept(*request, *old(graph), *final(graph)),
        final(graph).diagnostics == (super::PairingDiagnostics {
            eligible_edge_count: final(graph).edges@.len() as usize,
            ..old(graph).diagnostics
        }),
{
    let count = graph.edges.len();
    let ghost edges = graph.edges@;
    let mut fewest: Option<u16> = None;
    let mut k: usize = 0;
    while k < count
        invariant
            count == graph.edges@.len() == feasible@.len(),
            edges == graph.edges@,
            k <= count,
            fewest is None ==> forall|other: int|
                0 <= other < k ==> !#[trigger] bye_eligible(*request, edges, feasible@, other),
            fewest matches Some(m) ==> (exists|at: int|
                0 <= at < k && #[trigger] bye_eligible(*request, edges, feasible@, at) && bye_count_at(*request, edges, at)
                    == m),
            fewest matches Some(m) ==> forall|other: int|
                0 <= other < k && #[trigger] bye_eligible(*request, edges, feasible@, other) ==> m <= bye_count_at(
                    *request,
                    edges,
                    other,
                ),
        decreases count - k,
    {
        if matches!(graph.edges[k].target, PairingEdgeTarget::Bye) {
            if feasible[k] {
                match bye_count_of(request, &graph.edges[k].first_entrant_id) {
                    Some(byes) => {
                        proof {
                            assert(bye_eligible(*request, edges, feasible@, k as int));
                        }
                        fewest = match fewest {
                            None => Some(byes),
                            Some(current) => Some(if byes < current { byes } else { current }),
                        };
                    },
                    None => {
                        proof {
                            assert(!bye_eligible(*request, edges, feasible@, k as int));
                        }
                    },
                }
            }
        }
        k = k + 1;
    }
    let ghost before = graph.edges@;
    let mut old_edges: Vec<PairingCandidateEdge> = Vec::new();
    std::mem::swap(&mut old_edges, &mut graph.edges);
    let mut kept: Vec<PairingCandidateEdge> = Vec::new();
    let ghost target: u16 = match fewest {
        Some(value) => value,
        None => 0,
    };
    let mut index: usize = 0;
    for edge in iter: old_edges.into_iter()
        invariant
            index == iter.index(),
            index <= before.len(),
            before.len() == count,
            before == edges,
            iter.seq() == before,
            feasible@.len() == before.len(),
            kept@.filter(pairs_two_entrants()) == before.subrange(0, index as int).filter(pairs_two_entrants()),
            forall|j: int| 0 <= j < kept@.len() && (#[trigger] kept@[j]).target is Bye ==> before.contains(kept@[j]),
            forall|j: int| 0 <= j < kept@.len() && (#[trigger] kept@[j]).target is Bye ==> has_bye_count(
                request.entrants@,
                kept@[j].first_entrant_id@,
                target,
            ),
            forall|j: int| 0 <= j < kept@.len() && (#[trigger] kept@[j]).target is Bye ==> exists|at: int|
                0 <= at < index && #[trigger] bye_eligible(*request, edges, feasible@, at) && bye_count_at(*request, edges, at)
                    == target && before[at] == kept@[j],
            forall|at: int|
                0 <= at < index && #[trigger] bye_eligible(*request, edges, feasible@, at) && bye_count_at(*request, edges, at)
                    == target && fewest is Some ==> kept@.contains(before[at]),
            fewest is None ==> forall|other: int|
                0 <= other < count ==> !#[trigger] bye_eligible(*request, edges, feasible@, other),
            fewest matches Some(m) ==> m == target,
    {
        assert(index < before.len());
        proof {
            assert(before.subrange(0, index + 1) =~= before.subrange(0, index as int).push(edge));
            lemma_filter_push(before.subrange(0, index as int), edge, pairs_two_entrants());
            assert(before[index as int] == edge);
        }
        let keep_edge = match &edge.target {
            PairingEdgeTarget::Entrant(_) => true,
            PairingEdgeTarget::Bye => {
                feasible[index] && match fewest {
                    Some(m) => match bye_count_of(request, &edge.first_entrant_id) {
                        Some(byes) => byes == m,
                        None => false,
                    },
                    None => false,
                }
            },
        };
        proof {
            if edge.target is Bye {
                if bye_eligible(*request, edges, feasible@, index as int) && bye_count_at(*request, edges, index as int)
                    == target && fewest is Some {
                    assert(keep_edge);
                }
                if keep_edge {
                    assert(bye_eligible(*request, edges, feasible@, index as int));
                    assert(bye_count_at(*request, edges, index as int) == target);
                }
            }
        }
        let ghost previous = kept@;
        if keep_edge {
            kept.push(edge);
            proof {
                lemma_filter_push(previous, edge, pairs_two_entrants());
                assert(kept@[previous.len() as int] == edge);
                assert forall|at: int|
                    0 <= at < index + 1 && #[trigger] bye_eligible(*request, edges, feasible@, at) && bye_count_at(
                        *request,
                        edges,
                        at,
                    ) == target && fewest is Some implies kept@.contains(before[at]) by {
                    if at < index {
                        let t = choose|t: int| 0 <= t < previous.len() && previous[t] == before[at];
                        assert(kept@[t] == previous[t]);
                    } else {
                        assert(kept@[previous.len() as int] == before[at]);
                    }
                }
                assert forall|j: int| 0 <= j < kept@.len() && (#[trigger] kept@[j]).target is Bye implies exists|at: int|
                    0 <= at < index + 1 && #[trigger] bye_eligible(*request, edges, feasible@, at) && bye_count_at(
                        *request,
                        edges,
                        at,
                    ) == target && before[at] == kept@[j] by {
                    if j < previous.len() {
                        assert(kept@[j] == previous[j]);
                    } else {
                        assert(bye_eligible(*request, edges, feasible@, index as int));
                    }
                }
            }
        } else {
            proof {
                assert(!(pairs_two_entrants())(edge));
                assert forall|at: int|
                    0 <= at < index + 1 && #[trigger] bye_eligible(*request, edges, feasible@, at) && bye_count_at(
                        *request,
                        edges,
                        at,
                    ) == target && fewest is Some implies kept@.contains(before[at]) by {
                    if at == index {
                        assert(false);
                    }
                }
            }
        }
        index = index + 1;
    }
    proof {
        assert(before.subrange(0, before.len() as int) =~= before);
        assert(byes_share_count(request.entrants@, kept@, target));
        assert forall|k2: int| #[trigger] is_fewest_bye(*request, before, feasible@, k2) implies kept@.contains(before[k2]) by {
            if fewest is None {
                assert(!bye_eligible(*request, edges, feasible@, k2));
            } else {
                let at = choose|at: int|
                    0 <= at < count && #[trigger] bye_eligible(*request, edges, feasible@, at) && bye_count_at(*request, edges, at)
                        == target;
                assert(bye_count_at(*request, edges, k2) <= bye_count_at(*request, edges, at));
                assert(target <= bye_count_at(*request, edges, k2));
            }
        }
        assert forall|j: int| 0 <= j < kept@.len() && (#[trigger] kept@[j]).target is Bye implies exists|at: int|
            #[trigger] is_fewest_bye(*request, before, feasible@, at) && before[at] == kept@[j] by {
            let at = choose|at: int|
                0 <= at < count && #[trigger] bye_eligible(*request, edges, feasible@, at) && bye_count_at(*request, edges, at)
                    == target && before[at] == kept@[j];
            assert forall|other: int| #[trigger] bye_eligible(*request, before, feasible@, other) implies bye_count_at(
                *request,
                before,
                at,
            ) <= bye_count_at(*request, before, other) by {}
            assert(is_fewest_bye(*request, before, feasible@, at));
        }
    }
    graph.edges = kept;
    graph.diagnostics.eligible_edge_count = graph.edges.len();
}

/// The id differs from `id`.
pub open spec fn differs_from(id: Seq<char>) -> spec_fn(Seq<char>) -> bool {
    |other: Seq<char>| other != id
}

/// The edge pairs two entrants, neither of them the one with id `id`.
pub open spec fn stays_without(id: Seq<char>) -> spec_fn(PairingCandidateEdge) -> bool {
    |edge: PairingCandidateEdge| edge.first_entrant_id@ != id && (edge.target matches PairingEdgeTarget::Entrant(t) && t@ != id)
}

/// The ids, as text.
pub open spec fn id_texts(ids: Seq<EntrantId>) -> Seq<Seq<char>> {
    Seq::new(ids.len(), |i: int| ids[i]@)
}

/// What an edge joins, its first entrant and its second entrant or none
/// for a bye, and what it costs.
pub open spec fn edge_ends(edge: PairingCandidateEdge) -> (Seq<char>, Option<Seq<char>>, u64) {
    (
        edge.first_entrant_id@,
        match edge.target {
            PairingEdgeTarget::Entrant(t) => Some(t@),
            PairingEdgeTarget::Bye => None,
        },
        edge.cost.0,
    )
}

/// What each edge joins and costs, in order.
pub open spec fn edge_ends_seq(edges: Seq<PairingCandidateEdge>) -> Seq<(Seq<char>, Option<Seq<char>>, u64)> {
    Seq::new(edges.len(), |i: int| edge_ends(edges[i]))
}

/// The largest remainder whose complete pairability is decided by
/// exhaustive search when the largest-matching search leaves someone out.
pub const EXHAUSTIVE_PAIRING_NODE_COUNT: usize = 12;

/// The exhaustive search decides the remainder: it is small, its ids are
/// distinct, its edges join known entrants and its costs add up within a
/// `u64`.
pub open spec fn exhaustively_decidable(rest: PairingCandidateGraph) -> bool {
    &&& node_count_for(rest.entrant_ids@.len() as int) <= EXHAUSTIVE_PAIRING_NODE_COUNT
    &&& ids_distinct(rest)
    &&& edges_well_formed(rest)
    &&& edges_total(rest.edges@, rest.edges@.len()) <= u64::MAX
}

/// Every remainder of `graph` without `id` is exhaustively decidable.
pub open spec fn bye_decidable(graph: PairingCandidateGraph, id: Seq<char>) -> bool {
    forall|rest: PairingCandidateGraph| #[trigger] is_remainder(graph, id, rest) ==> exhaustively_decidable(rest)
}

/// Edge `k` is the bye edge of an entrant that the request lists, whose
/// absence leaves the others completely pairable, and whose remainder is
/// small enough to be decided exhaustively.
pub open spec fn pairable_bye_candidate(request: PairingRequest, graph: PairingCandidateGraph, k: int) -> bool {
    &&& 0 <= k < graph.edges@.len()
    &&& graph.edges@[k].target is Bye
    &&& is_listed(request.entrants@, graph.edges@[k].first_entrant_id@)
    &&& bye_leaves_complete_pairing(graph, graph.edges@[k].first_entrant_id@)
    &&& bye_decidable(graph, graph.edges@[k].first_entrant_id@)
}

proof fn lemma_totals_agree(a: Seq<PairingCandidateEdge>, b: Seq<PairingCandidateEdge>, count: nat)
    requires
        edge_ends_seq(a) == edge_ends_seq(b),
        count <= a.len(),
    ensures
        edges_total(a, count) == edges_total(b, count),
    decreases count,
{
    if count > 0 {
        lemma_totals_agree(a, b, (count - 1) as nat);
        assert(edge_ends_seq(a).len() == a.len());
        assert(edge_ends_seq(b).len() == b.len());
        assert(edge_ends_seq(a)[count - 1] == edge_ends_seq(b)[count - 1]);
        assert(edge_ends(a[count - 1]) == edge_ends(b[count - 1]));
        assert(a[count - 1].cost.0 == b[count - 1].cost.0);
    }
}

/// Two remainders of the same graph without the same entrant agree on
/// everything a pairing of them depends on.
proof fn lemma_remainders_agree(graph: PairingCandidateGraph, id: Seq<char>, r1: PairingCandidateGraph, r2: PairingCandidateGraph)
    requires
        is_remainder(graph, id, r1),
        is_remainder(graph, id, r2),
    ensures
        exhaustively_decidable(r1) ==> exhaustively_decidable(r2),
        forall|indices: Seq<usize>| #[trigger] is_complete_matching(r1, indices) ==> is_complete_matching(r2, indices),
{
    let ids1 = r1.entrant_ids@;
    let ids2 = r2.entrant_ids@;
    let e1 = r1.edges@;
    let e2 = r2.edges@;
    assert(id_texts(ids1).len() == id_texts(ids2).len());
    assert(edge_ends_seq(e1).len() == edge_ends_seq(e2).len());
    assert forall|i: int| 0 <= i < ids1.len() implies #[trigger] ids1[i]@ == ids2[i]@ by {
        assert(id_texts(ids1)[i] == id_texts(ids2)[i]);
    }
    assert forall|k: int| 0 <= k < e1.len() implies #[trigger] edge_ends(e1[k]) == edge_ends(e2[k]) by {
        assert(edge_ends_seq(e1)[k] == edge_ends_seq(e2)[k]);
    }
    assert forall|k: int, v: int| 0 <= k < e1.len() implies #[trigger] edge_touches(r1, k, v) == edge_touches(r2, k, v) by {
        assert(edge_ends(e1[k]) == edge_ends(e2[k]));
        if 0 <= v < ids1.len() {
            assert(ids1[v]@ == ids2[v]@);
        }
    }
    assert forall|x: Seq<char>| #[trigger] graph_knows(r1, x) == graph_knows(r2, x) by {
        if graph_knows(r1, x) {
            let i = choose|i: int| 0 <= i < ids1.len() && (#[trigger] ids1[i])@ == x;
            assert(ids2[i]@ == x);
        }
        if graph_knows(r2, x) {
            let i = choose|i: int| 0 <= i < ids2.len() && (#[trigger] ids2[i])@ == x;
            assert(ids1[i]@ == x);
        }
    }
    if exhaustively_decidable(r1) {
        lemma_totals_agree(e1, e2, e1.len());
        assert forall|i: int, j: int| 0 <= i < j < ids2.len() implies (#[trigger] ids2[i])@ != (#[trigger] ids2[j])@ by {
            assert(ids1[i]@ != ids1[j]@);
        }
        assert forall|k: int| 0 <= k < e2.len() implies {
            let edge = #[trigger] e2[k];
            &&& graph_knows(r2, edge.first_entrant_id@)
            &&& match edge.target {
                PairingEdgeTarget::Entrant(second) => graph_knows(r2, second@) && second@ != edge.first_entrant_id@,
                PairingEdgeTarget::Bye => ids2.len() % 2 == 1,
            }
        } by {
            assert(edge_ends(e1[k]) == edge_ends(e2[k]));
            let edge = e1[k];
            assert(graph_knows(r1, edge.first_entrant_id@));
        }
    }
    assert forall|indices: Seq<usize>| #[trigger] is_complete_matching(r1, indices) implies is_complete_matching(r2, indices) by {
        let n = node_count_for(ids1.len() as int);
        assert forall|v: int| 0 <= v < n implies #[trigger] node_met(r2, indices, v) by {
            assert(node_met(r1, indices, v));
            let i = choose|i: int| 0 <= i < indices.len() && #[trigger] edge_touches(r1, indices[i] as int, v);
            assert(edge_touches(r2, indices[i] as int, v));
        }
        assert forall|i: int, j: int, v: int|
            0 <= i < indices.len() && 0 <= j < indices.len() && i != j && 0 <= v < n && #[trigger] edge_touches(
                r2,
                indices[i] as int,
                v,
            ) implies !#[trigger] edge_touches(r2, indices[j] as int, v) by {
            assert(indices[i] < e1.len());
            assert(indices[j] < e1.len());
            assert(edge_touches(r1, indices[i] as int, v));
            assert(edge_touches(r1, indices[j] as int, v) == edge_touches(r2, indices[j] as int, v));
        }
    }
}

/// `rest` is `graph` with the entrant `id` taken out: the other entrants
/// in order, and the edges between two of them in order.
pub open spec fn is_remainder(graph: PairingCandidateGraph, id: Seq<char>, rest: PairingCandidateGraph) -> bool {
    &&& id_texts(rest.entrant_ids@) == id_texts(graph.entrant_ids@).filter(differs_from(id))
    &&& edge_ends_seq(rest.edges@) == edge_ends_seq(graph.edges@.filter(stays_without(id)))
}

/// Taking the entrant `id` out of `graph` leaves the others completely
/// pairable by the graph's edges among them.
pub open spec fn bye_leaves_complete_pairing(graph: PairingCandidateGraph, id: Seq<char>) -> bool {
    exists|rest: PairingCandidateGraph, indices: Seq<usize>|
        #![trigger is_remainder(graph, id, rest), is_complete_matching(rest, indices)]
        is_remainder(graph, id, rest) && is_complete_matching(rest, indices)
}

/// Whether edge `index` meets node `node` of the graph.
fn touches(graph: &PairingCandidateGraph, index: usize, node: usize) -> (met: bool)
    requires
        index < graph.edges@.len(),
    ensures
        met == edge_touches(*graph, index as int, node as int),
{
    let edge = &graph.edges[index];
    let n = graph.entrant_ids.len();
    if node < n {
        let id = &graph.entrant_ids[node];
        if edge.first_entrant_id.same_as(id) {
            return true;
        }
        match &edge.target {
            PairingEdgeTarget::Entrant(t) => t.same_as(id),
            PairingEdgeTarget::Bye => false,
        }
    } else {
        node == n && matches!(edge.target, PairingEdgeTarget::Bye)
    }
}

/// Whether the listed edges, none twice and each of the graph, meet every
/// node of the graph exactly once.
fn is_complete_selection(graph: &PairingCandidateGraph, indices: &Vec<usize>) -> (complete: bool)
    ensures
        complete ==> is_complete_matching(*graph, indices@),
{
    let n = graph.entrant_ids.len();
    if n == usize::MAX {
        return false;
    }
    let node_count = if n % 2 == 1 { n + 1 } else { n };
    let mut a: usize = 0;
    while a < indices.len()
        invariant
            a <= indices@.len(),
            forall|x: int| 0 <= x < a ==> #[trigger] indices@[x] < graph.edges@.len(),
            forall|x: int, y: int| 0 <= x < y < a ==> #[trigger] indices@[x] != #[trigger] indices@[y],
        decreases indices@.len() - a,
    {
        if indices[a] >= graph.edges.len() {
            return false;
        }
        let mut b: usize = 0;
        while b < a
            invariant
                b <= a < indices@.len(),
                forall|x: int| 0 <= x < b ==> #[trigger] indices@[x] != indices@[a as int],
            decreases a - b,
        {
            if indices[b] == indices[a] {
                return false;
            }
            b = b + 1;
        }
        a = a + 1;
    }
    let mut v: usize = 0;
    while v < node_count
        invariant
            node_count == node_count_for(graph.entrant_ids@.len() as int),
            v <= node_count,
            forall|x: int| 0 <= x < indices@.len() ==> #[trigger] indices@[x] < graph.edges@.len(),
            forall|w: int| 0 <= w < v ==> #[trigger] node_met(*graph, indices@, w),
            forall|i: int, j: int, w: int|
                0 <= i < indices@.len() && 0 <= j < indices@.len() && i != j && 0 <= w < v && #[trigger] edge_touches(
                    *graph,
                    indices@[i] as int,
                    w,
                ) ==> !#[trigger] edge_touches(*graph, indices@[j] as int, w),
        decreases node_count - v,
    {
        let mut found: bool = false;
        let mut t: usize = 0;
        while t < indices.len()
            invariant
                v < node_count,
                t <= indices@.len(),
                forall|x: int| 0 <= x < indices@.len() ==> #[trigger] indices@[x] < graph.edges@.len(),
                found <==> exists|i: int| 0 <= i < t && #[trigger] edge_touches(*graph, indices@[i] as int, v as int),
                forall|i: int, j: int|
                    0 <= i < t && 0 <= j < t && i != j && #[trigger] edge_touches(*graph, indices@[i] as int, v as int)
                        ==> !#[trigger] edge_touches(*graph, indices@[j] as int, v as int),
            decreases indices@.len() - t,
        {
            if touches(graph, indices[t], v) {
                if found {
                    return false;
                }
                found = true;
            }
            t = t + 1;
        }
        if !found {
            return false;
        }
        proof {
            assert(node_met(*graph, indices@, v as int));
        }
        v = v + 1;
    }
    proof {
        assert(indices@.no_duplicates());
        assert(covers_each_node_once(*graph, indices@));
    }
    true
}

/// Whether the graph without `bye` and its edges admits a complete pairing:
/// the search for a largest matching of the rest must pair everyone, and
/// the edges it picks are checked to meet every remaining node once. When
/// it leaves someone out and the rest is small, an exhaustive search
/// decides.
fn remainder_is_matchable(graph: &PairingCandidateGraph, bye: &EntrantId) -> (matchable: bool)
    ensures
        matchable ==> bye_leaves_complete_pairing(*graph, bye@),
        !matchable ==> forall|rest: PairingCandidateGraph, indices: Seq<usize>|
            #![trigger is_remainder(*graph, bye@, rest), is_complete_matching(rest, indices)]
            is_remainder(*graph, bye@, rest) && exhaustively_decidable(rest) ==> !is_complete_matching(rest, indices),
{
    let mut entrant_ids: Vec<EntrantId> = Vec::new();
    let mut i: usize = 0;
    while i < graph.entrant_ids.len()
        invariant
            i <= graph.entrant_ids@.len(),
            id_texts(entrant_ids@) == id_texts(graph.entrant_ids@.subrange(0, i as int)).filter(differs_from(bye@)),
        decreases graph.entrant_ids@.len() - i,
    {
        let ghost before = entrant_ids@;
        proof {
            assert(id_texts(graph.entrant_ids@.subrange(0, i + 1)) =~= id_texts(graph.entrant_ids@.subrange(0, i as int)).push(
                graph.entrant_ids@[i as int]@,
            ));
            lemma_filter_push(
                id_texts(graph.entrant_ids@.subrange(0, i as int)),
                graph.entrant_ids@[i as int]@,
                differs_from(bye@),
            );
        }
        if !graph.entrant_ids[i].same_as(bye) {
            entrant_ids.push(graph.entrant_ids[i].duplicate());
            proof {
                assert(id_texts(entrant_ids@) =~= id_texts(before).push(graph.entrant_ids@[i as int]@));
            }
        }
        i = i + 1;
    }
    let mut edges: Vec<PairingCandidateEdge> = Vec::new();
    let mut k: usize = 0;
    while k < graph.edges.len()
        invariant
            k <= graph.edges@.len(),
            edge_ends_seq(edges@) == edge_ends_seq(graph.edges@.subrange(0, k as int).filter(stays_without(bye@))),
        decreases graph.edges@.len() - k,
    {
        let edge = &graph.edges[k];
        let ghost before = edges@;
        proof {
            assert(graph.edges@.subrange(0, k + 1) =~= graph.edges@.subrange(0, k as int).push(*edge));
            lemma_filter_push(graph.edges@.subrange(0, k as int), *edge, stays_without(bye@));
        }
        let keep = !edge.first_entrant_id.same_as(bye) && match &edge.target {
            PairingEdgeTarget::Entrant(id) => !id.same_as(bye),
            PairingEdgeTarget::Bye => false,
        };
        proof {
            assert(keep == (stays_without(bye@))(*edge));
        }
        if keep {
            let copy = edge.duplicate();
            proof {
                assert(edge_ends(copy) == edge_ends(*edge));
            }
            edges.push(copy);
            proof {
                let kept = graph.edges@.subrange(0, k as int).filter(stays_without(bye@));
                assert(edge_ends_seq(before).len() == before.len());
                assert(edge_ends_seq(kept).len() == kept.len());
                assert(edges@ == before.push(copy));
                assert forall|x: int| 0 <= x < edges@.len() implies #[trigger] edge_ends_seq(edges@)[x] == edge_ends_seq(
                    kept.push(*edge),
                )[x] by {
                    if x < before.len() {
                        assert(edge_ends_seq(before)[x] == edge_ends_seq(kept)[x]);
                        assert(edges@[x] == before[x]);
                        assert(kept.push(*edge)[x] == kept[x]);
                    } else {
                        assert(edges@[x] == copy);
                        assert(kept.push(*edge)[x] == *edge);
                    }
                }
                assert(edge_ends_seq(edges@) =~= edge_ends_seq(kept.push(*edge)));
            }
        }
        k = k + 1;
    }
    proof {
        assert(graph.entrant_ids@.subrange(0, graph.entrant_ids@.len() as int) =~= graph.entrant_ids@);
        assert(graph.edges@.subrange(0, graph.edges@.len() as int) =~= graph.edges@);
    }
    let remainder = PairingCandidateGraph {
        relaxation_tier: graph.relaxation_tier,
        entrant_ids,
        edges,
        diagnostics: graph.diagnostics,
    };
    proof {
        assert(is_remainder(*graph, bye@, remainder));
    }
    match SolverGraph::from_candidate_graph(&remainder) {
        Ok(solver) => {
            let matching = maximum_cardinality_matching(&solver);
            if matching.is_complete() {
                let mut indices: Vec<usize> = Vec::new();
                let mut e: usize = 0;
                while e < solver.edges.len()
                    decreases solver.edges@.len() - e,
                {
                    let edge = solver.edges[e];
                    if matching.mate_of(edge.first_node) == edge.second_node {
                        indices.push(edge.candidate_edge_index);
                    }
                    e = e + 1;
                }
                if is_complete_selection(&remainder, &indices) {
                    proof {
                        assert(is_remainder(*graph, bye@, remainder) && is_complete_matching(remainder, indices@));
                    }
                    return true;
                }
            }
        },
        Err(_) => {},
    }
    exhaustive_decision(graph, bye, &remainder)
}

/// The exhaustive search's answer for a small remainder; `false` for one
/// too large or not decidable.
fn exhaustive_decision(graph: &PairingCandidateGraph, bye: &EntrantId, remainder: &PairingCandidateGraph) -> (matchable: bool)
    requires
        is_remainder(*graph, bye@, *remainder),
    ensures
        matchable ==> bye_leaves_complete_pairing(*graph, bye@),
        !matchable ==> forall|rest: PairingCandidateGraph, indices: Seq<usize>|
            #![trigger is_remainder(*graph, bye@, rest), is_complete_matching(rest, indices)]
            is_remainder(*graph, bye@, rest) && exhaustively_decidable(rest) ==> !is_complete_matching(rest, indices),
{
    let entrant_count = remainder.entrant_ids.len();
    if entrant_count > EXHAUSTIVE_PAIRING_NODE_COUNT {
        proof {
            assert forall|rest: PairingCandidateGraph, indices: Seq<usize>|
                #![trigger is_remainder(*graph, bye@, rest), is_complete_matching(rest, indices)]
                is_remainder(*graph, bye@, rest) && exhaustively_decidable(rest) implies !is_complete_matching(rest, indices) by {
                lemma_remainders_agree(*graph, bye@, rest, *remainder);
            }
        }
        return false;
    }
    match solve_exactly(remainder) {
        Ok(Some(found)) => {
            proof {
                let indices = found.edge_indices@;
                assert(indices.no_duplicates()) by {
                    assert forall|a: int, b: int| 0 <= a < indices.len() && 0 <= b < indices.len() && a != b implies indices[a]
                        != indices[b] by {
                        if a < b {
                            assert(indices[a] < indices[b]);
                        } else {
                            assert(indices[b] < indices[a]);
                        }
                    }
                }
                assert(is_remainder(*graph, bye@, *remainder) && is_complete_matching(*remainder, indices));
            }
            true
        },
        Ok(None) => {
            proof {
                assert forall|rest: PairingCandidateGraph, indices: Seq<usize>|
                    #![trigger is_remainder(*graph, bye@, rest), is_complete_matching(rest, indices)]
                    is_remainder(*graph, bye@, rest) && exhaustively_decidable(rest) implies !is_complete_matching(rest, indices) by {
                    lemma_remainders_agree(*graph, bye@, rest, *remainder);
                    if is_complete_matching(rest, indices) {
                        assert(!is_complete_matching(*remainder, indices));
                    }
                }
            }
            false
        },
        Err(_) => {
            proof {
                assert forall|rest: PairingCandidateGraph, indices: Seq<usize>|
                    #![trigger is_remainder(*graph, bye@, rest), is_complete_matching(rest, indices)]
                    is_remainder(*graph, bye@, rest) && exhaustively_decidable(rest) implies !is_complete_matching(rest, indices) by {
                    lemma_remainders_agree(*graph, bye@, rest, *remainder);
                }
            }
            false
        },
    }
}

} // verus!
