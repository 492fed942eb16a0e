//! Turns a solver selection of candidate edges into a validated proposal.
use vstd::prelude::*;

use crate::identity::{
    EntrantId, lemma_text_le_transitive, lemma_text_order_antisymmetric, lemma_text_order_zero, text_le, text_lt,
};
use crate::platform_time::{diagnostic_clock_microseconds, elapsed_microseconds};

use super::blossom_feasibility::ids_view;
use super::proposal_validation::{
    all_entrants_seen, edge_violation, first_bye_count, graph_offers_bye, invalid_reason, mark_once, validate_bye_fairness, validate_coverage, validate_edge,
};
use super::reference_solver::lemma_cost_permutation;
use super::solver_graph::invalid;
use super::{
    BlossomPairingError, InvalidSolverOutputReason, PairingCandidateEdge, PairingCandidateGraph, PairingCost,
    PairingCostBreakdown,
    PairingCostComponent, PairingEdgeTarget, PairingPolicyVersion, PairingProposal, PairingRequest,
    BlossomV1Policy, PairingWarning, ProposedBye, ProposedMatch, RelaxationTier,
};

verus! {

/// `a` sorts strictly before `b` by first and then second entrant id.
pub open spec fn match_precedes(a: ProposedMatch, b: ProposedMatch) -> bool {
    ||| text_lt(a.first_entrant_id@, b.first_entrant_id@)
    ||| (a.first_entrant_id@ == b.first_entrant_id@ && text_lt(a.second_entrant_id@, b.second_entrant_id@))
}

/// No match sorts strictly before one that precedes it in the sequence.
pub open spec fn matches_in_order(matches: Seq<ProposedMatch>) -> bool {
    forall|i: int, j: int| 0 <= i < j < matches.len() ==> !match_precedes(#[trigger] matches[j], #[trigger] matches[i])
}

/// The total cost of the first `count` selected edges.
pub open spec fn selected_cost(edges: Seq<PairingCandidateEdge>, selected: Seq<usize>, count: nat) -> int
    decreases count,
{
    if count == 0 {
        0
    } else {
        selected_cost(edges, selected, (count - 1) as nat) + edges[selected[count - 1] as int].cost.0
    }
}

/// The match pairs the two entrants of a selected edge, the lower id first,
/// with that edge's cost breakdown.
pub open spec fn match_from_selection(
    edges: Seq<PairingCandidateEdge>,
    selected: Seq<usize>,
    pairing: ProposedMatch,
) -> bool {
    exists|k: int| 0 <= k < selected.len() && {
        let edge = #[trigger] edges[selected[k] as int];
        &&& edge.target matches PairingEdgeTarget::Entrant(second) && {
            ||| (pairing.first_entrant_id@ == edge.first_entrant_id@ && pairing.second_entrant_id@ == second@)
            ||| (pairing.first_entrant_id@ == second@ && pairing.second_entrant_id@ == edge.first_entrant_id@)
        }
        &&& pairing.cost == edge.breakdown
    }
}

/// The match comes from a selected edge as `match_from_selection` says,
/// and that edge joins clubmates exactly when `flags.0` holds and repeats a
/// pairing exactly when `flags.1` holds.
pub open spec fn flagged_from_selection(
    edges: Seq<PairingCandidateEdge>,
    selected: Seq<usize>,
    pairing: ProposedMatch,
    flags: (bool, bool),
) -> bool {
    exists|k: int| 0 <= k < selected.len() && {
        let edge = #[trigger] edges[selected[k] as int];
        &&& edge.target matches PairingEdgeTarget::Entrant(second) && {
            ||| (pairing.first_entrant_id@ == edge.first_entrant_id@ && pairing.second_entrant_id@ == second@)
            ||| (pairing.first_entrant_id@ == second@ && pairing.second_entrant_id@ == edge.first_entrant_id@)
        }
        &&& pairing.cost == edge.breakdown
        &&& edge.same_club == flags.0
        &&& edge.rematch == flags.1
    }
}

/// A warning as its kind (relaxed tier, same club, rematch, bye), the tier
/// it names and the entrants it names.
pub open spec fn warning_view(warning: PairingWarning) -> (int, RelaxationTier, Seq<char>, Seq<char>) {
    match warning {
        PairingWarning::RelaxedPairingRequired { tier } => (0, tier, Seq::empty(), Seq::empty()),
        PairingWarning::SameClubPairingRequired { first_entrant_id, second_entrant_id } => (
            1,
            RelaxationTier::Strict,
            first_entrant_id@,
            second_entrant_id@,
        ),
        PairingWarning::RematchRequired { first_entrant_id, second_entrant_id } => (
            2,
            RelaxationTier::Strict,
            first_entrant_id@,
            second_entrant_id@,
        ),
        PairingWarning::ByeAssigned { entrant_id } => (3, RelaxationTier::Strict, entrant_id@, Seq::empty()),
    }
}

/// The warnings of the list, in order, as views.
pub open spec fn warning_views(warnings: Seq<PairingWarning>) -> Seq<(int, RelaxationTier, Seq<char>, Seq<char>)> {
    warnings.map_values(|warning: PairingWarning| warning_view(warning))
}

/// The warnings a match calls for under the policy: a same-club warning
/// when clubmates meet and the policy avoids it, then a rematch warning
/// when the pairing repeats and the policy avoids that.
pub open spec fn pairing_warnings(policy: BlossomV1Policy, pairing: ProposedMatch, flags: (bool, bool)) -> Seq<
    (int, RelaxationTier, Seq<char>, Seq<char>),
> {
    let first = pairing.first_entrant_id@;
    let second = pairing.second_entrant_id@;
    (if policy.avoid_same_club && flags.0 {
        seq![(1int, RelaxationTier::Strict, first, second)]
    } else {
        Seq::empty()
    }) + (if policy.avoid_rematches && flags.1 {
        seq![(2int, RelaxationTier::Strict, first, second)]
    } else {
        Seq::empty()
    })
}

/// The warnings of the first `count` matches, in match order.
pub open spec fn matches_warnings(
    policy: BlossomV1Policy,
    matches: Seq<ProposedMatch>,
    flags: Seq<(bool, bool)>,
    count: nat,
) -> Seq<(int, RelaxationTier, Seq<char>, Seq<char>)>
    decreases count,
{
    if count == 0 {
        Seq::empty()
    } else {
        matches_warnings(policy, matches, flags, (count - 1) as nat) + pairing_warnings(
            policy,
            matches[count - 1],
            flags[count - 1],
        )
    }
}

/// The warning that opens the list when the tier is relaxed.
pub open spec fn tier_warnings(tier: RelaxationTier) -> Seq<(int, RelaxationTier, Seq<char>, Seq<char>)> {
    if tier != RelaxationTier::Strict {
        seq![(0int, tier, Seq::<char>::empty(), Seq::<char>::empty())]
    } else {
        Seq::empty()
    }
}

/// The proposal's warnings with `flags` telling, per match, whether its
/// edge joins clubmates and repeats a pairing: the relaxed tier first, then
/// each match's warnings in match order, then the bye.
pub open spec fn warnings_fit(
    request: PairingRequest,
    graph: PairingCandidateGraph,
    selected: Seq<usize>,
    proposal: PairingProposal,
    flags: Seq<(bool, bool)>,
) -> bool {
    &&& flags.len() == proposal.matches@.len()
    &&& forall|i: int| 0 <= i < flags.len() ==> flagged_from_selection(
        graph.edges@,
        selected,
        #[trigger] proposal.matches@[i],
        flags[i],
    )
    &&& warning_views(proposal.warnings@) == tier_warnings(graph.relaxation_tier) + matches_warnings(
        request.policy,
        proposal.matches@,
        flags,
        flags.len(),
    ) + match proposal.bye {
        Some(bye) => seq![(3int, RelaxationTier::Strict, bye.entrant_id@, Seq::<char>::empty())],
        None => Seq::empty(),
    }
}

/// The flags of each entry.
pub open spec fn entry_flags(entries: Seq<(ProposedMatch, bool, bool)>) -> Seq<(bool, bool)> {
    entries.map_values(|entry: (ProposedMatch, bool, bool)| (entry.1, entry.2))
}

/// The bye sits out along a selected bye edge, with its cost breakdown.
pub open spec fn bye_from_selection(edges: Seq<PairingCandidateEdge>, selected: Seq<usize>, bye: ProposedBye) -> bool {
    exists|k: int| 0 <= k < selected.len() && {
        let edge = #[trigger] edges[selected[k] as int];
        &&& edge.target is Bye
        &&& edge.first_entrant_id@ == bye.entrant_id@
        &&& bye.cost == edge.breakdown
    }
}

/// The entrant plays in one of the matches or has the bye.
pub open spec fn covers(matches: Seq<ProposedMatch>, bye: Option<ProposedBye>, id: Seq<char>) -> bool {
    ||| exists|i: int| 0 <= i < matches.len() && ((#[trigger] matches[i]).first_entrant_id@ == id
        || matches[i].second_entrant_id@ == id)
    ||| (bye matches Some(b) && b.entrant_id@ == id)
}

/// A match as its two entrant ids and its cost breakdown.
pub open spec fn match_key(pairing: ProposedMatch) -> (Seq<char>, Seq<char>, PairingCostBreakdown) {
    (pairing.first_entrant_id@, pairing.second_entrant_id@, pairing.cost)
}

/// The keys of the matches, in order.
pub open spec fn match_keys(matches: Seq<ProposedMatch>) -> Seq<(Seq<char>, Seq<char>, PairingCostBreakdown)> {
    matches.map_values(|pairing: ProposedMatch| match_key(pairing))
}

/// The key of the match that a pairing edge makes: its two entrants, the
/// one that sorts first in front, and its cost breakdown.
pub open spec fn edge_match_key(edge: PairingCandidateEdge) -> (Seq<char>, Seq<char>, PairingCostBreakdown) {
    match edge.target {
        PairingEdgeTarget::Entrant(second) => if text_le(edge.first_entrant_id@, second@) {
            (edge.first_entrant_id@, second@, edge.breakdown)
        } else {
            (second@, edge.first_entrant_id@, edge.breakdown)
        },
        PairingEdgeTarget::Bye => (edge.first_entrant_id@, Seq::empty(), edge.breakdown),
    }
}

/// The keys that `keys_of` gives the first `count` selected edges, in
/// selection order.
pub open spec fn selection_keys(
    edges: Seq<PairingCandidateEdge>,
    selected: Seq<usize>,
    count: nat,
    keys_of: spec_fn(PairingCandidateEdge) -> Seq<(Seq<char>, Seq<char>, PairingCostBreakdown)>,
) -> Seq<(Seq<char>, Seq<char>, PairingCostBreakdown)>
    decreases count,
{
    if count == 0 {
        Seq::empty()
    } else {
        selection_keys(edges, selected, (count - 1) as nat, keys_of) + keys_of(edges[selected[count - 1] as int])
    }
}

/// The keys of the matches that the pairing edges among the first `count`
/// selected edges make, in selection order.
pub open spec fn selection_match_keys(edges: Seq<PairingCandidateEdge>, selected: Seq<usize>, count: nat) -> Seq<
    (Seq<char>, Seq<char>, PairingCostBreakdown),
> {
    selection_keys(edges, selected, count, |edge: PairingCandidateEdge| edge_keys(edge))
}

/// The keys of the bye edges among the first `count` selected edges: the
/// entrant sitting out, no opponent, and the cost breakdown.
pub open spec fn selection_bye_keys(edges: Seq<PairingCandidateEdge>, selected: Seq<usize>, count: nat) -> Seq<
    (Seq<char>, Seq<char>, PairingCostBreakdown),
> {
    selection_keys(edges, selected, count, |edge: PairingCandidateEdge| bye_edge_keys(edge))
}

/// The key of a bye edge, none for a pairing edge.
pub open spec fn bye_edge_keys(edge: PairingCandidateEdge) -> Seq<(Seq<char>, Seq<char>, PairingCostBreakdown)> {
    if edge.target is Bye {
        seq![edge_match_key(edge)]
    } else {
        Seq::empty()
    }
}

/// The key of the proposal's bye, none without one.
pub open spec fn bye_keys(bye: Option<ProposedBye>) -> Seq<(Seq<char>, Seq<char>, PairingCostBreakdown)> {
    match bye {
        Some(b) => seq![(b.entrant_id@, Seq::<char>::empty(), b.cost)],
        None => Seq::empty(),
    }
}

/// The entrants that the first `count` selected edges name, in order: each
/// edge's first entrant, then its opponent when it pairs two.
pub open spec fn selection_entrants(edges: Seq<PairingCandidateEdge>, selected: Seq<usize>, count: nat) -> Seq<
    Seq<char>,
>
    decreases count,
{
    if count == 0 {
        Seq::empty()
    } else {
        let edge = edges[selected[count - 1] as int];
        selection_entrants(edges, selected, (count - 1) as nat) + match edge.target {
            PairingEdgeTarget::Entrant(second) => seq![edge.first_entrant_id@, second@],
            PairingEdgeTarget::Bye => seq![edge.first_entrant_id@],
        }
    }
}

/// How many of the first `count` selected edges are bye edges.
pub open spec fn selection_bye_count(edges: Seq<PairingCandidateEdge>, selected: Seq<usize>, count: nat) -> nat
    decreases count,
{
    if count == 0 {
        0
    } else {
        selection_bye_count(edges, selected, (count - 1) as nat) + if edges[selected[count - 1] as int].target is Bye {
            1nat
        } else {
            0nat
        }
    }
}

/// The entrant of the last bye edge among the first `count` selected edges.
pub open spec fn selection_bye(edges: Seq<PairingCandidateEdge>, selected: Seq<usize>, count: nat) -> Option<Seq<char>>
    decreases count,
{
    if count == 0 {
        None
    } else if edges[selected[count - 1] as int].target is Bye {
        Some(edges[selected[count - 1] as int].first_entrant_id@)
    } else {
        selection_bye(edges, selected, (count - 1) as nat)
    }
}

/// What checking selected edge `k` gives once the edges before it were
/// accepted: an unknown index, then the edge's violation, then a first
/// entrant already named, then an overflowing total, then an opponent
/// already named or a second bye.
pub open spec fn selection_step(
    request: PairingRequest,
    graph: PairingCandidateGraph,
    selected: Seq<usize>,
    k: int,
) -> Result<(), BlossomPairingError> {
    let edges = graph.edges@;
    if selected[k] >= edges.len() {
        invalid_reason(InvalidSolverOutputReason::UnknownEdge)
    } else {
        let edge = edges[selected[k] as int];
        let seen = selection_entrants(edges, selected, k as nat);
        match edge_violation(request, graph.relaxation_tier, edge) {
            Some(reason) => invalid_reason(reason),
            None => if seen.contains(edge.first_entrant_id@) {
                invalid_reason(InvalidSolverOutputReason::DuplicateEntrant)
            } else if selected_cost(edges, selected, k as nat) + edge.cost.0 > u64::MAX {
                Err(BlossomPairingError::PairingCostOverflow { component: PairingCostComponent::Total })
            } else {
                match edge.target {
                    PairingEdgeTarget::Entrant(second) => if seen.push(edge.first_entrant_id@).contains(second@) {
                        invalid_reason(InvalidSolverOutputReason::DuplicateEntrant)
                    } else {
                        Ok(())
                    },
                    PairingEdgeTarget::Bye => if selection_bye_count(edges, selected, k as nat) >= 1 {
                        invalid_reason(InvalidSolverOutputReason::MultipleByes)
                    } else {
                        Ok(())
                    },
                }
            },
        }
    }
}

/// Selected edge `k` is the first whose check fails.
pub open spec fn first_failing_step(
    request: PairingRequest,
    graph: PairingCandidateGraph,
    selected: Seq<usize>,
    k: int,
) -> bool {
    &&& 0 <= k < selected.len()
    &&& forall|j: int| 0 <= j < k ==> (#[trigger] selection_step(request, graph, selected, j)) is Ok
    &&& selection_step(request, graph, selected, k) is Err
}

/// The first `count` selected edges are edges of the graph that the tier
/// allows, name no entrant twice, hold at most one bye and cost in all no
/// more than a `u64` holds.
pub open spec fn selection_prefix_ok(
    request: PairingRequest,
    graph: PairingCandidateGraph,
    selected: Seq<usize>,
    count: nat,
) -> bool
    decreases count,
{
    if count == 0 {
        true
    } else {
        let edges = graph.edges@;
        &&& selection_prefix_ok(request, graph, selected, (count - 1) as nat)
        &&& selected[count - 1] < edges.len()
        &&& edge_violation(request, graph.relaxation_tier, edges[selected[count - 1] as int]) is None
        &&& selection_entrants(edges, selected, count).no_duplicates()
        &&& selection_bye_count(edges, selected, count) <= 1
        &&& selected_cost(edges, selected, count) <= u64::MAX
    }
}

/// A selection that the proposal builder accepts: its edges are allowed,
/// name every entrant of the request once, hold a bye exactly in an odd
/// field, cost no more than a `u64` holds, and no entrant with fewer byes
/// than the one sitting out is offered a bye by the graph.
pub open spec fn selection_acceptable(request: PairingRequest, graph: PairingCandidateGraph, selected: Seq<usize>) -> bool {
    let edges = graph.edges@;
    let count = selected.len();
    &&& selection_prefix_ok(request, graph, selected, count)
    &&& all_entrants_seen(request, selection_entrants(edges, selected, count))
    &&& (request.entrants@.len() % 2 == 1 <==> selection_bye_count(edges, selected, count) == 1)
    &&& selection_bye(edges, selected, count) matches Some(bye) ==> forall|i: int|
        0 <= i < request.entrants@.len() ==> !(#[trigger] request.entrants@[i].bye_count < first_bye_count(
            request.entrants@,
            bye,
            0,
        ) && graph_offers_bye(graph, request.entrants@[i].entrant_id@))
}

proof fn lemma_prefix_ok_shorter(
    request: PairingRequest,
    graph: PairingCandidateGraph,
    selected: Seq<usize>,
    longer: nat,
    shorter: nat,
)
    requires
        selection_prefix_ok(request, graph, selected, longer),
        shorter <= longer,
    ensures
        selection_prefix_ok(request, graph, selected, shorter),
    decreases longer - shorter,
{
    if shorter < longer {
        lemma_prefix_ok_shorter(request, graph, selected, (longer - 1) as nat, shorter);
    }
}

/// What a proposal built from `selected` on `graph` holds.
pub open spec fn proposal_reflects_selection(
    request: PairingRequest,
    graph: PairingCandidateGraph,
    selected: Seq<usize>,
    policy_version: PairingPolicyVersion,
    proposal: PairingProposal,
) -> bool {
    let edges = graph.edges@;
    &&& forall|k: int| 0 <= k < selected.len() ==> (#[trigger] selected[k]) < edges.len()
        && edge_violation(request, graph.relaxation_tier, edges[selected[k] as int]) is None
    &&& proposal.total_cost.0 == selected_cost(edges, selected, selected.len())
    &&& proposal.relaxation_tier == graph.relaxation_tier
    &&& proposal.policy_version == policy_version
    &&& matches_in_order(proposal.matches@)
    &&& proposal.matches@.len() + (if proposal.bye is Some { 1int } else { 0int }) == selected.len()
    &&& forall|i: int| 0 <= i < proposal.matches@.len() ==> {
        &&& text_le((#[trigger] proposal.matches@[i]).first_entrant_id@, proposal.matches@[i].second_entrant_id@)
        &&& match_from_selection(edges, selected, proposal.matches@[i])
    }
    &&& proposal.bye matches Some(bye) ==> bye_from_selection(edges, selected, bye)
    &&& (request.entrants@.len() % 2 == 1 <==> proposal.bye is Some)
    &&& forall|i: int| 0 <= i < request.entrants@.len() ==> covers(
        proposal.matches@,
        proposal.bye,
        #[trigger] request.entrants@[i].entrant_id@,
    )
    &&& proposal.diagnostics == (super::PairingDiagnostics {
        validation_microseconds: proposal.diagnostics.validation_microseconds,
        ..graph.diagnostics
    })
    &&& exists|flags: Seq<(bool, bool)>| #[trigger] warnings_fit(request, graph, selected, proposal, flags)
    &&& match_keys(proposal.matches@).to_multiset() == selection_match_keys(edges, selected, selected.len()).to_multiset()
    &&& bye_keys(proposal.bye) == selection_bye_keys(edges, selected, selected.len())
    &&& forall|i: int, j: int| 0 <= i < proposal.matches@.len() && 0 <= j < proposal.matches@.len() && i != j ==> (
    #[trigger] proposal.matches@[i]).first_entrant_id@ != (#[trigger] proposal.matches@[j]).first_entrant_id@
}

/// The keys of the entries' matches, in order.
pub open spec fn entry_keys(entries: Seq<(ProposedMatch, bool, bool)>) -> Seq<
    (Seq<char>, Seq<char>, PairingCostBreakdown),
> {
    entries.map_values(|entry: (ProposedMatch, bool, bool)| match_key(entry.0))
}

/// Two lists with the same elements keep the same keys.
proof fn lemma_entry_keys_permutation(first: Seq<(ProposedMatch, bool, bool)>, second: Seq<(ProposedMatch, bool, bool)>)
    requires
        first.to_multiset() == second.to_multiset(),
    ensures
        entry_keys(first).to_multiset() == entry_keys(second).to_multiset(),
    decreases first.len(),
{
    vstd::seq_lib::to_multiset_len(first);
    vstd::seq_lib::to_multiset_len(second);
    if first.len() == 0 {
        assert(entry_keys(first) =~= entry_keys(second));
    } else {
        let last = first.last();
        let shorter = first.drop_last();
        assert(first =~= shorter.push(last));
        vstd::seq_lib::to_multiset_build(shorter, last);
        vstd::seq_lib::to_multiset_contains(second, last);
        assert(first.to_multiset().count(last) > 0);
        let position = choose|q: int| 0 <= q < second.len() && second[q] == last;
        vstd::seq_lib::to_multiset_remove(second, position);
        assert(shorter.to_multiset() =~= second.remove(position).to_multiset());
        lemma_entry_keys_permutation(shorter, second.remove(position));
        assert(entry_keys(first) =~= entry_keys(shorter).push(match_key(last.0)));
        vstd::seq_lib::to_multiset_build(entry_keys(shorter), match_key(last.0));
        assert(entry_keys(second.remove(position)) =~= entry_keys(second).remove(position));
        vstd::seq_lib::to_multiset_remove(entry_keys(second), position);
        vstd::seq_lib::to_multiset_contains(entry_keys(second), match_key(last.0));
        assert(entry_keys(second)[position] == match_key(last.0));
        assert(entry_keys(second).to_multiset().remove(match_key(last.0)).insert(match_key(last.0))
            =~= entry_keys(second).to_multiset());
    }
}

/// Builds the first-version proposal of a selection.
pub fn build_proposal(request: &PairingRequest, graph: &PairingCandidateGraph, selected_edge_indices: &[usize]) -> (outcome:
    Result<PairingProposal, BlossomPairingError>)
    ensures
        outcome matches Ok(proposal) ==> proposal_reflects_selection(
            *request,
            *graph,
            selected_edge_indices@,
            PairingPolicyVersion::BlossomV1,
            proposal,
        ),
        outcome matches Err(e) ==> e is InvalidSolverOutput || e == (BlossomPairingError::PairingCostOverflow {
            component: PairingCostComponent::Total,
        }),
        selection_acceptable(*request, *graph, selected_edge_indices@) ==> outcome is Ok,
        forall|k: int| #[trigger] first_failing_step(*request, *graph, selected_edge_indices@, k) ==> (outcome matches Err(
            e,
        ) && Err::<(), BlossomPairingError>(e) == selection_step(*request, *graph, selected_edge_indices@, k)),
        (forall|k: int| 0 <= k < selected_edge_indices@.len() ==> (#[trigger] selection_step(
            *request,
            *graph,
            selected_edge_indices@,
            k,
        )) is Ok) ==> {
            let named = selection_entrants(graph.edges@, selected_edge_indices@, selected_edge_indices@.len());
            let byes = selection_bye_count(graph.edges@, selected_edge_indices@, selected_edge_indices@.len());
            &&& !all_entrants_seen(*request, named) ==> outcome == Err::<PairingProposal, BlossomPairingError>(
                BlossomPairingError::InvalidSolverOutput { reason: InvalidSolverOutputReason::MissingEntrant },
            )
            &&& all_entrants_seen(*request, named) && request.entrants@.len() % 2 == 0 && byes >= 1 ==> outcome == Err::<
                PairingProposal,
                BlossomPairingError,
            >(BlossomPairingError::InvalidSolverOutput { reason: InvalidSolverOutputReason::UnexpectedBye })
            &&& all_entrants_seen(*request, named) && request.entrants@.len() % 2 == 1 && byes == 0 ==> outcome == Err::<
                PairingProposal,
                BlossomPairingError,
            >(BlossomPairingError::InvalidSolverOutput { reason: InvalidSolverOutputReason::MissingEntrant })
            &&& outcome is Err ==> outcome == Err::<PairingProposal, BlossomPairingError>(
                BlossomPairingError::InvalidSolverOutput { reason: InvalidSolverOutputReason::MissingEntrant },
            ) || outcome == Err::<PairingProposal, BlossomPairingError>(
                BlossomPairingError::InvalidSolverOutput { reason: InvalidSolverOutputReason::UnexpectedBye },
            ) || outcome == Err::<PairingProposal, BlossomPairingError>(
                BlossomPairingError::InvalidSolverOutput { reason: InvalidSolverOutputReason::AvoidableRepeatedBye },
            )
        },
{
    build_versioned_proposal(request, graph, selected_edge_indices, PairingPolicyVersion::BlossomV1)
}

/// The matches, bye, seen entrants and running total of a selection read
/// up to some edge.
pub struct SelectionParts {
    pub matches: Vec<(ProposedMatch, bool, bool)>,
    pub bye: Option<ProposedBye>,
    pub seen: Vec<EntrantId>,
    pub total: u64,
}

/// The parts reflect the first `count` selected edges.
pub open spec fn parts_reflect(
    request: PairingRequest,
    graph: PairingCandidateGraph,
    selected: Seq<usize>,
    count: int,
    parts: SelectionParts,
) -> bool {
    let edges = graph.edges@;
    &&& 0 <= count <= selected.len()
    &&& parts.total == selected_cost(edges, selected, count as nat)
    &&& forall|j: int| 0 <= j < count ==> (#[trigger] selected[j]) < edges.len() && edge_violation(
        request,
        graph.relaxation_tier,
        edges[selected[j] as int],
    ) is None
    &&& parts.matches@.len() + (if parts.bye is Some { 1int } else { 0int }) == count
    &&& forall|i: int| 0 <= i < parts.matches@.len() ==> {
        &&& text_le((#[trigger] parts.matches@[i]).0.first_entrant_id@, parts.matches@[i].0.second_entrant_id@)
        &&& match_from_selection(edges, selected, parts.matches@[i].0)
        &&& flagged_from_selection(edges, selected, parts.matches@[i].0, (parts.matches@[i].1, parts.matches@[i].2))
    }
    &&& parts.bye matches Some(bye) ==> bye_from_selection(edges, selected, bye)
    &&& forall|s: int| 0 <= s < ids_view(parts.seen@).len() ==> covers(
        tuple_matches(parts.matches@),
        parts.bye,
        #[trigger] ids_view(parts.seen@)[s],
    )
    &&& ids_view(parts.seen@) == selection_entrants(edges, selected, count as nat)
    &&& match_keys(tuple_matches(parts.matches@)) == selection_match_keys(edges, selected, count as nat)
    &&& bye_keys(parts.bye) == selection_bye_keys(edges, selected, count as nat)
    &&& forall|i: int| 0 <= i < parts.matches@.len() ==> ids_view(parts.seen@).contains(
        (#[trigger] parts.matches@[i]).0.first_entrant_id@,
    ) && ids_view(parts.seen@).contains(parts.matches@[i].0.second_entrant_id@)
    &&& forall|i: int, j: int| 0 <= i < parts.matches@.len() && 0 <= j < parts.matches@.len() && i != j ==> (
    #[trigger] parts.matches@[i]).0.first_entrant_id@ != (#[trigger] parts.matches@[j]).0.first_entrant_id@
    &&& (parts.bye is None <==> selection_bye_count(edges, selected, count as nat) == 0)
    &&& parts.bye matches Some(bye) ==> selection_bye(edges, selected, count as nat) == Some(bye.entrant_id@)
}

/// Validates selected edge `k` and adds it to the parts.
fn record_selected_edge(
    request: &PairingRequest,
    graph: &PairingCandidateGraph,
    selected_edge_indices: &[usize],
    k: usize,
    parts: &mut SelectionParts,
) -> (outcome: Result<(), BlossomPairingError>)
    requires
        k < selected_edge_indices@.len(),
        parts_reflect(*request, *graph, selected_edge_indices@, k as int, *old(parts)),
    ensures
        outcome is Ok ==> parts_reflect(*request, *graph, selected_edge_indices@, k + 1, *final(parts)),
        outcome matches Err(e) ==> e is InvalidSolverOutput || e == (BlossomPairingError::PairingCostOverflow {
            component: PairingCostComponent::Total,
        }),
        selection_prefix_ok(*request, *graph, selected_edge_indices@, (k + 1) as nat) ==> outcome is Ok,
        outcome == selection_step(*request, *graph, selected_edge_indices@, k as int),
{
    let ghost edges = graph.edges@;
    let ghost prefix_ok = selection_prefix_ok(*request, *graph, selected_edge_indices@, (k + 1) as nat);
    let ghost selected = selected_edge_indices@;
    let edge_index = selected_edge_indices[k];
    if edge_index >= graph.edges.len() {
        return Err(invalid(InvalidSolverOutputReason::UnknownEdge));
    }
    let edge = &graph.edges[edge_index];
    validate_edge(request, graph.relaxation_tier, edge)?;
    let ghost seen_before = ids_view(parts.seen@);
    let ghost matches_before = parts.matches@;
    let ghost bye_before = parts.bye;
    let ghost named = selection_entrants(edges, selected, (k + 1) as nat);
    proof {
        assert(edges[selected[k as int] as int] == *edge);
        assert(named == seen_before + match edge.target {
            PairingEdgeTarget::Entrant(second) => seq![edge.first_entrant_id@, second@],
            PairingEdgeTarget::Bye => seq![edge.first_entrant_id@],
        });
        if prefix_ok {
            assert(named[seen_before.len() as int] == edge.first_entrant_id@);
            if seen_before.contains(edge.first_entrant_id@) {
                let s = choose|s: int| 0 <= s < seen_before.len() && seen_before[s] == edge.first_entrant_id@;
                assert(named[s] == seen_before[s]);
            }
        }
    }
    mark_once(&mut parts.seen, &edge.first_entrant_id)?;
    parts.total = match parts.total.checked_add(edge.cost.value()) {
        Some(total) => total,
        None => {
            return Err(BlossomPairingError::PairingCostOverflow { component: PairingCostComponent::Total });
        },
    };
    proof {
        assert(edges[selected[k as int] as int] == *edge);
    }
    match &edge.target {
        PairingEdgeTarget::Entrant(second) => {
            proof {
                let marked = seen_before.push(edge.first_entrant_id@);
                if prefix_ok {
                    assert(named[seen_before.len() as int + 1] == second@);
                    if marked.contains(second@) {
                        let s = choose|s: int| 0 <= s < marked.len() && marked[s] == second@;
                        if s < seen_before.len() {
                            assert(named[s] == seen_before[s]);
                        } else {
                            assert(named[seen_before.len() as int] == edge.first_entrant_id@);
                        }
                    }
                }
            }
            mark_once(&mut parts.seen, second)?;
            let (first, second_id) = ordered_ids(&edge.first_entrant_id, second);
            let pairing = ProposedMatch { first_entrant_id: first, second_entrant_id: second_id, cost: edge.breakdown };
            let ghost pairing_view = pairing;
            parts.matches.push((pairing, edge.same_club, edge.rematch));
            proof {
                assert(match_from_selection(edges, selected, pairing_view));
                assert(flagged_from_selection(edges, selected, pairing_view, (edge.same_club, edge.rematch)));
                lemma_covers_grow(matches_before, parts.matches@, bye_before);
                let last = parts.matches@.len() - 1;
                assert(tuple_matches(parts.matches@)[last] == pairing_view);
                let now = ids_view(parts.seen@);
                assert(now =~= named);
                lemma_text_order_antisymmetric(edge.first_entrant_id@, second@);
                lemma_text_order_zero(edge.first_entrant_id@, second@);
                assert(match_key(pairing_view) == edge_match_key(*edge));
                assert(match_keys(tuple_matches(parts.matches@)) =~= match_keys(tuple_matches(matches_before)).push(
                    match_key(pairing_view),
                ));
                assert(selection_match_keys(edges, selected, (k + 1) as nat) =~= selection_match_keys(
                    edges,
                    selected,
                    k as nat,
                ).push(edge_match_key(*edge)));
                assert(selection_bye_keys(edges, selected, (k + 1) as nat) =~= selection_bye_keys(
                    edges,
                    selected,
                    k as nat,
                ));
                assert(now =~= seen_before.push(edge.first_entrant_id@).push(second@));
                assert(now.contains(pairing_view.first_entrant_id@)) by {
                    if pairing_view.first_entrant_id@ == edge.first_entrant_id@ {
                        assert(now[seen_before.len() as int] == edge.first_entrant_id@);
                    } else {
                        assert(now[seen_before.len() as int + 1] == second@);
                    }
                }
                assert(now.contains(pairing_view.second_entrant_id@)) by {
                    if pairing_view.second_entrant_id@ == edge.first_entrant_id@ {
                        assert(now[seen_before.len() as int] == edge.first_entrant_id@);
                    } else {
                        assert(now[seen_before.len() as int + 1] == second@);
                    }
                }
                assert forall|i: int| 0 <= i < parts.matches@.len() implies now.contains(
                    (#[trigger] parts.matches@[i]).0.first_entrant_id@,
                ) && now.contains(parts.matches@[i].0.second_entrant_id@) by {
                    if i < matches_before.len() {
                        assert(parts.matches@[i] == matches_before[i]);
                        let a = choose|a: int| 0 <= a < seen_before.len() && seen_before[a]
                            == matches_before[i].0.first_entrant_id@;
                        let b = choose|b: int| 0 <= b < seen_before.len() && seen_before[b]
                            == matches_before[i].0.second_entrant_id@;
                        assert(now[a] == seen_before[a]);
                        assert(now[b] == seen_before[b]);
                    }
                }
                assert forall|i: int, j: int|
                    0 <= i < parts.matches@.len() && 0 <= j < parts.matches@.len() && i != j implies (
                    #[trigger] parts.matches@[i]).0.first_entrant_id@ != (#[trigger] parts.matches@[j]).0.first_entrant_id@ by {
                    if i == last || j == last {
                        let other = if i == last { j } else { i };
                        assert(parts.matches@[other] == matches_before[other]);
                        assert(seen_before.contains(matches_before[other].0.first_entrant_id@));
                        assert(!seen_before.contains(edge.first_entrant_id@));
                        if seen_before.contains(second@) {
                            let q = choose|q: int| 0 <= q < seen_before.len() && seen_before[q] == second@;
                            assert(seen_before.push(edge.first_entrant_id@)[q] == second@);
                        }
                        assert(parts.matches@[last].0 == pairing_view);
                    } else {
                        assert(parts.matches@[i] == matches_before[i]);
                        assert(parts.matches@[j] == matches_before[j]);
                    }
                }
                assert forall|s: int| 0 <= s < now.len() implies covers(
                    tuple_matches(parts.matches@),
                    parts.bye,
                    #[trigger] now[s],
                ) by {
                    if s < seen_before.len() {
                        assert(now[s] == seen_before[s]);
                    }
                }
            }
        },
        PairingEdgeTarget::Bye => {
            if parts.bye.is_some() {
                return Err(invalid(InvalidSolverOutputReason::MultipleByes));
            }
            let bye = ProposedBye { entrant_id: edge.first_entrant_id.duplicate(), cost: edge.breakdown };
            let ghost bye_view = bye;
            parts.bye = Some(bye);
            proof {
                assert(bye_from_selection(edges, selected, bye_view));
                let now = ids_view(parts.seen@);
                assert(now =~= named);
                assert(selection_match_keys(edges, selected, (k + 1) as nat) =~= selection_match_keys(
                    edges,
                    selected,
                    k as nat,
                ));
                assert(selection_bye_keys(edges, selected, k as nat) =~= Seq::empty());
                assert(selection_bye_keys(edges, selected, (k + 1) as nat) =~= seq![edge_match_key(*edge)]);
                assert(bye_keys(parts.bye) =~= seq![edge_match_key(*edge)]);
                assert(now =~= seen_before.push(edge.first_entrant_id@));
                assert forall|i: int| 0 <= i < parts.matches@.len() implies now.contains(
                    (#[trigger] parts.matches@[i]).0.first_entrant_id@,
                ) && now.contains(parts.matches@[i].0.second_entrant_id@) by {
                    let a = choose|a: int| 0 <= a < seen_before.len() && seen_before[a]
                        == parts.matches@[i].0.first_entrant_id@;
                    let b = choose|b: int| 0 <= b < seen_before.len() && seen_before[b]
                        == parts.matches@[i].0.second_entrant_id@;
                    assert(now[a] == seen_before[a]);
                    assert(now[b] == seen_before[b]);
                }
                assert forall|s: int| 0 <= s < now.len() implies covers(
                    tuple_matches(parts.matches@),
                    parts.bye,
                    #[trigger] now[s],
                ) by {
                    if s < seen_before.len() {
                        assert(now[s] == seen_before[s]);
                        assert(covers(tuple_matches(matches_before), bye_before, seen_before[s]));
                    }
                }
            }
        },
    }
    Ok(())
}

/// Validates the selected edges (each known, consistent and allowed by the
/// tier; every entrant once; a bye exactly in an odd field and only when no
/// entrant with fewer byes could have taken it) and turns them into matches
/// ordered by entrant ids, the bye, the total cost and the warnings.
pub fn build_versioned_proposal(
    request: &PairingRequest,
    graph: &PairingCandidateGraph,
    selected_edge_indices: &[usize],
    policy_version: PairingPolicyVersion,
) -> (outcome: Result<PairingProposal, BlossomPairingError>)
    ensures
        outcome matches Ok(proposal) ==> proposal_reflects_selection(
            *request,
            *graph,
            selected_edge_indices@,
            policy_version,
            proposal,
        ),
        outcome matches Err(e) ==> e is InvalidSolverOutput || e == (BlossomPairingError::PairingCostOverflow {
            component: PairingCostComponent::Total,
        }),
        selection_acceptable(*request, *graph, selected_edge_indices@) ==> outcome is Ok,
        forall|k: int| #[trigger] first_failing_step(*request, *graph, selected_edge_indices@, k) ==> (outcome matches Err(
            e,
        ) && Err::<(), BlossomPairingError>(e) == selection_step(*request, *graph, selected_edge_indices@, k)),
        (forall|k: int| 0 <= k < selected_edge_indices@.len() ==> (#[trigger] selection_step(
            *request,
            *graph,
            selected_edge_indices@,
            k,
        )) is Ok) ==> {
            let named = selection_entrants(graph.edges@, selected_edge_indices@, selected_edge_indices@.len());
            let byes = selection_bye_count(graph.edges@, selected_edge_indices@, selected_edge_indices@.len());
            &&& !all_entrants_seen(*request, named) ==> outcome == Err::<PairingProposal, BlossomPairingError>(
                BlossomPairingError::InvalidSolverOutput { reason: InvalidSolverOutputReason::MissingEntrant },
            )
            &&& all_entrants_seen(*request, named) && request.entrants@.len() % 2 == 0 && byes >= 1 ==> outcome == Err::<
                PairingProposal,
                BlossomPairingError,
            >(BlossomPairingError::InvalidSolverOutput { reason: InvalidSolverOutputReason::UnexpectedBye })
            &&& all_entrants_seen(*request, named) && request.entrants@.len() % 2 == 1 && byes == 0 ==> outcome == Err::<
                PairingProposal,
                BlossomPairingError,
            >(BlossomPairingError::InvalidSolverOutput { reason: InvalidSolverOutputReason::MissingEntrant })
            &&& outcome is Err ==> outcome == Err::<PairingProposal, BlossomPairingError>(
                BlossomPairingError::InvalidSolverOutput { reason: InvalidSolverOutputReason::MissingEntrant },
            ) || outcome == Err::<PairingProposal, BlossomPairingError>(
                BlossomPairingError::InvalidSolverOutput { reason: InvalidSolverOutputReason::UnexpectedBye },
            ) || outcome == Err::<PairingProposal, BlossomPairingError>(
                BlossomPairingError::InvalidSolverOutput { reason: InvalidSolverOutputReason::AvoidableRepeatedBye },
            )
        },
{
    let validation_started = diagnostic_clock_microseconds();
    let parts = collect_selection(request, graph, selected_edge_indices)?;
    finish_proposal(request, graph, selected_edge_indices, policy_version, parts, validation_started)
}

/// Reads every selected edge into the parts.
fn collect_selection(request: &PairingRequest, graph: &PairingCandidateGraph, selected_edge_indices: &[usize]) -> (outcome:
    Result<SelectionParts, BlossomPairingError>)
    ensures
        outcome matches Ok(parts) ==> parts_reflect(
            *request,
            *graph,
            selected_edge_indices@,
            selected_edge_indices@.len() as int,
            parts,
        ),
        outcome matches Err(e) ==> e is InvalidSolverOutput || e == (BlossomPairingError::PairingCostOverflow {
            component: PairingCostComponent::Total,
        }),
        selection_prefix_ok(*request, *graph, selected_edge_indices@, selected_edge_indices@.len()) ==> outcome is Ok,
        forall|k: int| #[trigger] first_failing_step(*request, *graph, selected_edge_indices@, k) ==> (outcome matches Err(
            e,
        ) && Err::<(), BlossomPairingError>(e) == selection_step(*request, *graph, selected_edge_indices@, k)),
        outcome is Ok ==> forall|k: int| 0 <= k < selected_edge_indices@.len() ==> (#[trigger] selection_step(
            *request,
            *graph,
            selected_edge_indices@,
            k,
        )) is Ok,
        outcome is Err ==> exists|k: int| 0 <= k < selected_edge_indices@.len() && (#[trigger] selection_step(
            *request,
            *graph,
            selected_edge_indices@,
            k,
        )) is Err,
{
    let mut parts = SelectionParts { matches: Vec::new(), bye: None, seen: Vec::new(), total: 0 };
    proof {
        assert(ids_view(parts.seen@) =~= Seq::<Seq<char>>::empty());
        assert(match_keys(tuple_matches(parts.matches@)) =~= selection_match_keys(
            graph.edges@,
            selected_edge_indices@,
            0,
        ));
        assert(bye_keys(parts.bye) =~= selection_bye_keys(graph.edges@, selected_edge_indices@, 0));
    }
    let mut k: usize = 0;
    while k < selected_edge_indices.len()
        invariant
            k <= selected_edge_indices@.len(),
            parts_reflect(*request, *graph, selected_edge_indices@, k as int, parts),
            forall|j: int| 0 <= j < k ==> (#[trigger] selection_step(*request, *graph, selected_edge_indices@, j)) is Ok,
        decreases selected_edge_indices@.len() - k,
    {
        proof {
            if selection_prefix_ok(*request, *graph, selected_edge_indices@, selected_edge_indices@.len()) {
                lemma_prefix_ok_shorter(
                    *request,
                    *graph,
                    selected_edge_indices@,
                    selected_edge_indices@.len(),
                    (k + 1) as nat,
                );
            }
        }
        let step = record_selected_edge(request, graph, selected_edge_indices, k, &mut parts);
        match step {
            Ok(()) => {},
            Err(error) => {
                proof {
                    assert(first_failing_step(*request, *graph, selected_edge_indices@, k as int));
                    assert forall|q: int| #[trigger] first_failing_step(*request, *graph, selected_edge_indices@, q)
                        implies q == k by {
                        if q < k {
                            assert(selection_step(*request, *graph, selected_edge_indices@, q) is Ok);
                        } else if q > k {
                            assert(selection_step(*request, *graph, selected_edge_indices@, k as int) is Ok);
                        }
                    }
                }
                return Err(error);
            },
        }
        k = k + 1;
    }
    Ok(parts)
}

/// Checks coverage and bye fairness, orders the matches and assembles the
/// proposal with its warnings and diagnostics.
#[verifier::rlimit(30)]
fn finish_proposal(
    request: &PairingRequest,
    graph: &PairingCandidateGraph,
    selected_edge_indices: &[usize],
    policy_version: PairingPolicyVersion,
    parts: SelectionParts,
    validation_started: u128,
) -> (outcome: Result<PairingProposal, BlossomPairingError>)
    requires
        parts_reflect(*request, *graph, selected_edge_indices@, selected_edge_indices@.len() as int, parts),
    ensures
        outcome matches Ok(proposal) ==> proposal_reflects_selection(
            *request,
            *graph,
            selected_edge_indices@,
            policy_version,
            proposal,
        ),
        outcome matches Err(e) ==> e is InvalidSolverOutput,
        selection_acceptable(*request, *graph, selected_edge_indices@) ==> outcome is Ok,
        ({
            let named = selection_entrants(graph.edges@, selected_edge_indices@, selected_edge_indices@.len());
            let byes = selection_bye_count(graph.edges@, selected_edge_indices@, selected_edge_indices@.len());
            &&& !all_entrants_seen(*request, named) ==> outcome == Err::<PairingProposal, BlossomPairingError>(
                BlossomPairingError::InvalidSolverOutput { reason: InvalidSolverOutputReason::MissingEntrant },
            )
            &&& all_entrants_seen(*request, named) && request.entrants@.len() % 2 == 0 && byes >= 1 ==> outcome == Err::<
                PairingProposal,
                BlossomPairingError,
            >(BlossomPairingError::InvalidSolverOutput { reason: InvalidSolverOutputReason::UnexpectedBye })
            &&& all_entrants_seen(*request, named) && request.entrants@.len() % 2 == 1 && byes == 0 ==> outcome == Err::<
                PairingProposal,
                BlossomPairingError,
            >(BlossomPairingError::InvalidSolverOutput { reason: InvalidSolverOutputReason::MissingEntrant })
            &&& outcome is Err ==> outcome == Err::<PairingProposal, BlossomPairingError>(
                BlossomPairingError::InvalidSolverOutput { reason: InvalidSolverOutputReason::MissingEntrant },
            ) || outcome == Err::<PairingProposal, BlossomPairingError>(
                BlossomPairingError::InvalidSolverOutput { reason: InvalidSolverOutputReason::UnexpectedBye },
            ) || outcome == Err::<PairingProposal, BlossomPairingError>(
                BlossomPairingError::InvalidSolverOutput { reason: InvalidSolverOutputReason::AvoidableRepeatedBye },
            )
        }),
{
    let SelectionParts { matches: selected_matches, bye: selected_bye, seen: seen_entrants, total: total_cost } = parts;
    let bye_ref: Option<&ProposedBye> = match &selected_bye {
        Some(bye) => Some(bye),
        None => None,
    };
    validate_coverage(request, &seen_entrants, bye_ref)?;
    match &selected_bye {
        Some(bye) => validate_bye_fairness(request, graph, bye)?,
        None => {},
    }
    let ghost unsorted = selected_matches@;
    let sorted = sort_matches(selected_matches);
    let mut warnings = warnings_for(request, graph.relaxation_tier, &sorted);
    let ghost listed = warnings@;
    match &selected_bye {
        Some(bye) => warnings.push(PairingWarning::ByeAssigned { entrant_id: bye.entrant_id.duplicate() }),
        None => {},
    }
    proof {
        assert(warning_views(warnings@) =~= warning_views(listed) + match selected_bye {
            Some(bye) => seq![(3int, RelaxationTier::Strict, bye.entrant_id@, Seq::<char>::empty())],
            None => Seq::empty(),
        });
    }
    let mut diagnostics = graph.diagnostics;
    diagnostics.validation_microseconds = elapsed_microseconds(validation_started);
    let matches = strip_flags(sorted);
    proof {
        lemma_coverage_carries(*request, unsorted, sorted@, matches@, selected_bye, ids_view(seen_entrants@));
        lemma_selection_carries(graph.edges@, selected_edge_indices@, unsorted, sorted@, matches@);
        lemma_flags_carry(graph.edges@, selected_edge_indices@, unsorted, sorted@, matches@);
    }
    let proposal = PairingProposal {
        matches,
        bye: selected_bye,
        relaxation_tier: graph.relaxation_tier,
        total_cost: PairingCost::new(total_cost),
        policy_version,
        warnings,
        diagnostics,
    };
    proof {
        assert(warnings_fit(*request, *graph, selected_edge_indices@, proposal, entry_flags(sorted@)));
        lemma_sorted_keys(unsorted, sorted@);
        assert(match_keys(proposal.matches@) =~= entry_keys(sorted@));
        assert(match_keys(tuple_matches(unsorted)) =~= entry_keys(unsorted));
    }
    Ok(proposal)
}

/// A reordering of entries whose first ids differ keeps their keys and
/// keeps the first ids apart.
proof fn lemma_sorted_keys(unsorted: Seq<(ProposedMatch, bool, bool)>, sorted: Seq<(ProposedMatch, bool, bool)>)
    requires
        sorted.to_multiset() == unsorted.to_multiset(),
        forall|i: int, j: int| 0 <= i < unsorted.len() && 0 <= j < unsorted.len() && i != j ==> (
        #[trigger] unsorted[i]).0.first_entrant_id@ != (#[trigger] unsorted[j]).0.first_entrant_id@,
    ensures
        entry_keys(sorted).to_multiset() == entry_keys(unsorted).to_multiset(),
        forall|i: int, j: int| 0 <= i < sorted.len() && 0 <= j < sorted.len() && i != j ==> (
        #[trigger] sorted[i]).0.first_entrant_id@ != (#[trigger] sorted[j]).0.first_entrant_id@,
{
    lemma_entry_keys_permutation(sorted, unsorted);
    assert(unsorted.no_duplicates());
    unsorted.lemma_multiset_has_no_duplicates();
    sorted.lemma_multiset_has_no_duplicates_conv();
    assert forall|i: int, j: int| 0 <= i < sorted.len() && 0 <= j < sorted.len() && i != j implies (
    #[trigger] sorted[i]).0.first_entrant_id@ != (#[trigger] sorted[j]).0.first_entrant_id@ by {
        vstd::seq_lib::to_multiset_contains(sorted, sorted[i]);
        vstd::seq_lib::to_multiset_contains(sorted, sorted[j]);
        vstd::seq_lib::to_multiset_contains(unsorted, sorted[i]);
        vstd::seq_lib::to_multiset_contains(unsorted, sorted[j]);
        assert(sorted.contains(sorted[i]));
        assert(sorted.contains(sorted[j]));
        let a = choose|a: int| 0 <= a < unsorted.len() && unsorted[a] == sorted[i];
        let b = choose|b: int| 0 <= b < unsorted.len() && unsorted[b] == sorted[j];
        assert(sorted[i] != sorted[j]);
    }
}

/// Sorting keeps each match together with the flags of the edge it came from.
proof fn lemma_flags_carry(
    edges: Seq<PairingCandidateEdge>,
    selected: Seq<usize>,
    unsorted: Seq<(ProposedMatch, bool, bool)>,
    sorted: Seq<(ProposedMatch, bool, bool)>,
    matches: Seq<ProposedMatch>,
)
    requires
        forall|i: int| 0 <= i < sorted.len() ==> unsorted.contains(#[trigger] sorted[i]),
        matches == tuple_matches(sorted),
        forall|i: int| 0 <= i < unsorted.len() ==> flagged_from_selection(
            edges,
            selected,
            (#[trigger] unsorted[i]).0,
            (unsorted[i].1, unsorted[i].2),
        ),
    ensures
        entry_flags(sorted).len() == matches.len(),
        forall|i: int| 0 <= i < matches.len() ==> flagged_from_selection(
            edges,
            selected,
            #[trigger] matches[i],
            entry_flags(sorted)[i],
        ),
{
    assert forall|i: int| 0 <= i < matches.len() implies flagged_from_selection(
        edges,
        selected,
        #[trigger] matches[i],
        entry_flags(sorted)[i],
    ) by {
        assert(unsorted.contains(sorted[i]));
        let t = choose|t: int| 0 <= t < unsorted.len() && unsorted[t] == sorted[i];
        assert(flagged_from_selection(edges, selected, unsorted[t].0, (unsorted[t].1, unsorted[t].2)));
    }
}

/// The matches of the entries, in order.
fn strip_flags(entries: Vec<(ProposedMatch, bool, bool)>) -> (matches: Vec<ProposedMatch>)
    ensures
        matches@ == tuple_matches(entries@),
{
    let ghost all = entries@;
    let mut matches: Vec<ProposedMatch> = Vec::new();
    for entry in iter: entries.into_iter()
        invariant
            iter.seq() == all,
            matches@ == tuple_matches(all.subrange(0, iter.index() as int)),
    {
        proof {
            assert(all.subrange(0, iter.index() + 1) =~= all.subrange(0, iter.index() as int).push(entry));
            assert(tuple_matches(all.subrange(0, iter.index() + 1)) =~= tuple_matches(
                all.subrange(0, iter.index() as int),
            ).push(entry.0));
        }
        matches.push(entry.0);
    }
    proof {
        assert(all.subrange(0, all.len() as int) =~= all);
    }
    matches
}

/// Coverage survives sorting and dropping the flags.
proof fn lemma_coverage_carries(
    request: PairingRequest,
    unsorted: Seq<(ProposedMatch, bool, bool)>,
    sorted: Seq<(ProposedMatch, bool, bool)>,
    matches: Seq<ProposedMatch>,
    bye: Option<ProposedBye>,
    seen: Seq<Seq<char>>,
)
    requires
        forall|i: int| 0 <= i < unsorted.len() ==> sorted.contains(#[trigger] unsorted[i]),
        matches == tuple_matches(sorted),
        all_entrants_seen(request, seen),
        forall|s: int| 0 <= s < seen.len() ==> covers(tuple_matches(unsorted), bye, #[trigger] seen[s]),
    ensures
        forall|i: int| 0 <= i < request.entrants@.len() ==> covers(matches, bye, #[trigger] request.entrants@[i].entrant_id@),
{
    assert forall|i: int| 0 <= i < request.entrants@.len() implies covers(
        matches,
        bye,
        #[trigger] request.entrants@[i].entrant_id@,
    ) by {
        let id = request.entrants@[i].entrant_id@;
        assert(seen.contains(id));
        let s = choose|s: int| 0 <= s < seen.len() && seen[s] == id;
        assert(covers(tuple_matches(unsorted), bye, seen[s]));
        if !(bye matches Some(b) && b.entrant_id@ == id) {
            let j = choose|j: int| 0 <= j < tuple_matches(unsorted).len() && ((#[trigger] tuple_matches(unsorted)[j]).first_entrant_id@
                == id || tuple_matches(unsorted)[j].second_entrant_id@ == id);
            assert(sorted.contains(unsorted[j]));
            let t = choose|t: int| 0 <= t < sorted.len() && sorted[t] == unsorted[j];
            assert(matches[t] == unsorted[j].0);
        }
    }
}

/// The per-match facts survive sorting and dropping the flags.
proof fn lemma_selection_carries(
    edges: Seq<PairingCandidateEdge>,
    selected: Seq<usize>,
    unsorted: Seq<(ProposedMatch, bool, bool)>,
    sorted: Seq<(ProposedMatch, bool, bool)>,
    matches: Seq<ProposedMatch>,
)
    requires
        forall|i: int| 0 <= i < sorted.len() ==> unsorted.contains(#[trigger] sorted[i]),
        matches == tuple_matches(sorted),
        forall|i: int| 0 <= i < unsorted.len() ==> {
            &&& text_le((#[trigger] unsorted[i]).0.first_entrant_id@, unsorted[i].0.second_entrant_id@)
            &&& match_from_selection(edges, selected, unsorted[i].0)
        },
    ensures
        forall|i: int| 0 <= i < matches.len() ==> {
            &&& text_le((#[trigger] matches[i]).first_entrant_id@, matches[i].second_entrant_id@)
            &&& match_from_selection(edges, selected, matches[i])
        },
{
    assert forall|i: int| 0 <= i < matches.len() implies {
        &&& text_le((#[trigger] matches[i]).first_entrant_id@, matches[i].second_entrant_id@)
        &&& match_from_selection(edges, selected, matches[i])
    } by {
        assert(unsorted.contains(sorted[i]));
        let t = choose|t: int| 0 <= t < unsorted.len() && unsorted[t] == sorted[i];
        assert(matches[i] == unsorted[t].0);
    }
}

/// The matches of a sequence of (match, same club, rematch) entries.
pub open spec fn tuple_matches(entries: Seq<(ProposedMatch, bool, bool)>) -> Seq<ProposedMatch> {
    entries.map_values(|entry: (ProposedMatch, bool, bool)| entry.0)
}

proof fn lemma_covers_grow(shorter: Seq<(ProposedMatch, bool, bool)>, longer: Seq<(ProposedMatch, bool, bool)>, bye: Option<ProposedBye>)
    requires
        shorter.len() <= longer.len(),
        forall|i: int| 0 <= i < shorter.len() ==> shorter[i] == longer[i],
    ensures
        forall|id: Seq<char>| covers(tuple_matches(shorter), bye, id) ==> #[trigger] covers(tuple_matches(longer), bye, id),
{
    assert forall|id: Seq<char>| covers(tuple_matches(shorter), bye, id) implies #[trigger] covers(
        tuple_matches(longer),
        bye,
        id,
    ) by {
        if !(bye matches Some(b) && b.entrant_id@ == id) {
            let i = choose|i: int| 0 <= i < tuple_matches(shorter).len() && ((#[trigger] tuple_matches(shorter)[i]).first_entrant_id@
                == id || tuple_matches(shorter)[i].second_entrant_id@ == id);
            assert(tuple_matches(longer)[i] == tuple_matches(shorter)[i]);
        }
    }
}

proof fn lemma_match_precedes_transitive(a: ProposedMatch, b: ProposedMatch, c: ProposedMatch)
    requires
        match_precedes(a, b),
        match_precedes(b, c),
    ensures
        match_precedes(a, c),
{
    lemma_text_order_antisymmetric(a.first_entrant_id@, b.first_entrant_id@);
    lemma_text_order_antisymmetric(b.first_entrant_id@, c.first_entrant_id@);
    lemma_text_order_antisymmetric(a.second_entrant_id@, b.second_entrant_id@);
    lemma_text_order_antisymmetric(b.second_entrant_id@, c.second_entrant_id@);
    if text_lt(a.first_entrant_id@, b.first_entrant_id@) && text_lt(b.first_entrant_id@, c.first_entrant_id@) {
        lemma_text_le_transitive(a.first_entrant_id@, b.first_entrant_id@, c.first_entrant_id@);
    } else if text_lt(a.first_entrant_id@, b.first_entrant_id@) {
        assert(b.first_entrant_id@ == c.first_entrant_id@);
    } else if text_lt(b.first_entrant_id@, c.first_entrant_id@) {
        assert(a.first_entrant_id@ == b.first_entrant_id@);
    } else {
        lemma_text_le_transitive(a.second_entrant_id@, b.second_entrant_id@, c.second_entrant_id@);
    }
}

proof fn lemma_match_precedes_asymmetric(a: ProposedMatch, b: ProposedMatch)
    ensures
        !(match_precedes(a, b) && match_precedes(b, a)),
{
    lemma_text_order_antisymmetric(a.first_entrant_id@, b.first_entrant_id@);
    lemma_text_order_antisymmetric(a.second_entrant_id@, b.second_entrant_id@);
}

/// Whether `a` sorts strictly before `b` by first and then second id.
fn precedes(a: &ProposedMatch, b: &ProposedMatch) -> (before: bool)
    ensures
        before == match_precedes(*a, *b),
{
    if a.first_entrant_id.precedes(&b.first_entrant_id) {
        true
    } else if a.first_entrant_id.same_as(&b.first_entrant_id) {
        a.second_entrant_id.precedes(&b.second_entrant_id)
    } else {
        false
    }
}

/// The entries ordered by their match's (first id, second id), each entry
/// kept exactly as it was.
fn sort_matches(entries: Vec<(ProposedMatch, bool, bool)>) -> (sorted: Vec<(ProposedMatch, bool, bool)>)
    ensures
        sorted@.len() == entries@.len(),
        matches_in_order(tuple_matches(sorted@)),
        forall|i: int| 0 <= i < entries@.len() ==> sorted@.contains(#[trigger] entries@[i]),
        forall|i: int| 0 <= i < sorted@.len() ==> entries@.contains(#[trigger] sorted@[i]),
        sorted@.to_multiset() == entries@.to_multiset(),
{
    let ghost original = entries@;
    let mut sorted: Vec<(ProposedMatch, bool, bool)> = Vec::new();
    proof {
        assert(original.take(0) =~= Seq::<(ProposedMatch, bool, bool)>::empty());
        assert(sorted@ =~= Seq::<(ProposedMatch, bool, bool)>::empty());
    }
    for entry in iter: entries.into_iter()
        invariant
            iter.seq() == original,
            sorted@.len() == iter.index(),
            sorted@.to_multiset() == original.take(iter.index() as int).to_multiset(),
            matches_in_order(tuple_matches(sorted@)),
            forall|i: int| 0 <= i < iter.index() ==> sorted@.contains(#[trigger] original[i]),
            forall|i: int| 0 <= i < sorted@.len() ==> original.contains(#[trigger] sorted@[i]),
    {
        let mut position: usize = 0;
        while position < sorted.len() && !precedes(&entry.0, &sorted[position].0)
            invariant
                position <= sorted@.len(),
                forall|q: int| 0 <= q < position ==> !match_precedes(entry.0, #[trigger] sorted@[q].0),
            decreases sorted@.len() - position,
        {
            position = position + 1;
        }
        let ghost before = sorted@;
        sorted.insert(position, entry);
        proof {
            assert(sorted@ == before.insert(position as int, entry));
            vstd::seq_lib::to_multiset_insert(before, position as int, entry);
            assert(original[iter.index() as int] == entry);
            assert(original.take(iter.index() + 1) =~= original.take(iter.index() as int).push(entry));
            vstd::seq_lib::to_multiset_build(original.take(iter.index() as int), entry);
            assert forall|i: int, j: int| 0 <= i < j < tuple_matches(sorted@).len() implies !match_precedes(
                #[trigger] tuple_matches(sorted@)[j],
                #[trigger] tuple_matches(sorted@)[i],
            ) by {
                let m = tuple_matches(sorted@);
                let b = tuple_matches(before);
                let p = position as int;
                if j < p {
                    assert(m[i] == b[i] && m[j] == b[j]);
                } else if j == p {
                    assert(m[i] == b[i]);
                    assert(m[j] == entry.0);
                } else if i == p {
                    assert(m[i] == entry.0);
                    assert(m[j] == b[j - 1]);
                    assert(p < before.len());
                    assert(match_precedes(entry.0, b[p]));
                    if match_precedes(m[j], m[i]) {
                        if j - 1 > p {
                            assert(!match_precedes(b[j - 1], b[p]));
                            lemma_match_precedes_transitive(b[j - 1], entry.0, b[p]);
                        } else {
                            lemma_match_precedes_asymmetric(entry.0, b[p]);
                        }
                    }
                } else if i < p {
                    assert(m[i] == b[i] && m[j] == b[j - 1]);
                } else {
                    assert(m[i] == b[i - 1] && m[j] == b[j - 1]);
                }
            }
            assert forall|i: int| 0 <= i < iter.index() + 1 implies sorted@.contains(#[trigger] original[i]) by {
                if i < iter.index() {
                    let t = choose|t: int| 0 <= t < before.len() && before[t] == original[i];
                    if t < position {
                        assert(sorted@[t] == original[i]);
                    } else {
                        assert(sorted@[t + 1] == original[i]);
                    }
                } else {
                    assert(sorted@[position as int] == original[i]);
                }
            }
            assert forall|i: int| 0 <= i < sorted@.len() implies original.contains(#[trigger] sorted@[i]) by {
                if i < position {
                    assert(sorted@[i] == before[i]);
                } else if i == position {
                    assert(original[iter.index() as int] == entry);
                } else {
                    assert(sorted@[i] == before[i - 1]);
                }
            }
        }
    }
    proof {
        assert(original.take(original.len() as int) =~= original);
    }
    sorted
}

/// A relaxed tier warning first, then per match the same-club and rematch
/// warnings that the policy asks for.
fn warnings_for(request: &PairingRequest, tier: RelaxationTier, matches: &Vec<(ProposedMatch, bool, bool)>) -> (warnings:
    Vec<PairingWarning>)
    ensures
        warning_views(warnings@) == tier_warnings(tier) + matches_warnings(
            request.policy,
            tuple_matches(matches@),
            entry_flags(matches@),
            matches@.len(),
        ),
{
    let mut warnings: Vec<PairingWarning> = Vec::new();
    if tier != RelaxationTier::Strict {
        warnings.push(PairingWarning::RelaxedPairingRequired { tier });
    }
    proof {
        assert(warning_views(warnings@) =~= tier_warnings(tier) + matches_warnings(
            request.policy,
            tuple_matches(matches@),
            entry_flags(matches@),
            0,
        ));
    }
    let mut i: usize = 0;
    while i < matches.len()
        invariant
            i <= matches@.len(),
            warning_views(warnings@) == tier_warnings(tier) + matches_warnings(
                request.policy,
                tuple_matches(matches@),
                entry_flags(matches@),
                i as nat,
            ),
        decreases matches@.len() - i,
    {
        let ghost before = warnings@;
        let entry = &matches[i];
        if request.policy.avoid_same_club && entry.1 {
            warnings.push(
                PairingWarning::SameClubPairingRequired {
                    first_entrant_id: entry.0.first_entrant_id.duplicate(),
                    second_entrant_id: entry.0.second_entrant_id.duplicate(),
                },
            );
        }
        if request.policy.avoid_rematches && entry.2 {
            warnings.push(
                PairingWarning::RematchRequired {
                    first_entrant_id: entry.0.first_entrant_id.duplicate(),
                    second_entrant_id: entry.0.second_entrant_id.duplicate(),
                },
            );
        }
        proof {
            let added = pairing_warnings(
                request.policy,
                tuple_matches(matches@)[i as int],
                entry_flags(matches@)[i as int],
            );
            assert(warning_views(warnings@) =~= warning_views(before) + added);
            assert(tier_warnings(tier) + matches_warnings(
                request.policy,
                tuple_matches(matches@),
                entry_flags(matches@),
                (i + 1) as nat,
            ) =~= tier_warnings(tier) + matches_warnings(
                request.policy,
                tuple_matches(matches@),
                entry_flags(matches@),
                i as nat,
            ) + added);
        }
        i = i + 1;
    }
    warnings
}

/// The two ids, the one that sorts first (or equal) in front.
fn ordered_ids(first: &EntrantId, second: &EntrantId) -> (ordered: (EntrantId, EntrantId))
    ensures
        text_le(ordered.0@, ordered.1@),
        (ordered.0@ == first@ && ordered.1@ == second@) || (ordered.0@ == second@ && ordered.1@ == first@),
{
    proof {
        lemma_text_order_antisymmetric(first@, second@);
    }
    if first.compare(second) <= 0 {
        (first.duplicate(), second.duplicate())
    } else {
        (second.duplicate(), first.duplicate())
    }
}

/// The key of the match that a selected edge makes, none for a bye edge.
pub open spec fn edge_keys(edge: PairingCandidateEdge) -> Seq<(Seq<char>, Seq<char>, PairingCostBreakdown)> {
    if edge.target is Entrant {
        seq![edge_match_key(edge)]
    } else {
        Seq::empty()
    }
}

proof fn lemma_selection_keys_agree(
    edges: Seq<PairingCandidateEdge>,
    first: Seq<usize>,
    second: Seq<usize>,
    count: nat,
    keys_of: spec_fn(PairingCandidateEdge) -> Seq<(Seq<char>, Seq<char>, PairingCostBreakdown)>,
)
    requires
        count <= first.len(),
        count <= second.len(),
        forall|i: int| 0 <= i < count ==> first[i] == second[i],
    ensures
        selection_keys(edges, first, count, keys_of) == selection_keys(edges, second, count, keys_of),
    decreases count,
{
    if count > 0 {
        lemma_selection_keys_agree(edges, first, second, (count - 1) as nat, keys_of);
    }
}

proof fn lemma_selection_keys_step(
    edges: Seq<PairingCandidateEdge>,
    selected: Seq<usize>,
    count: nat,
    keys_of: spec_fn(PairingCandidateEdge) -> Seq<(Seq<char>, Seq<char>, PairingCostBreakdown)>,
)
    requires
        0 < count,
    ensures
        selection_keys(edges, selected, count, keys_of).to_multiset() == selection_keys(
            edges,
            selected,
            (count - 1) as nat, keys_of).to_multiset().add(keys_of(edges[selected[count - 1] as int]).to_multiset()),
{
    vstd::seq_lib::lemma_multiset_commutative(
        selection_keys(edges, selected, (count - 1) as nat, keys_of),
        keys_of(edges[selected[count - 1] as int]),
    );
}

/// Taking one edge out of a selection takes its match key out of the keys.
proof fn lemma_selection_keys_remove(
    edges: Seq<PairingCandidateEdge>,
    selected: Seq<usize>,
    position: int,
    keys_of: spec_fn(PairingCandidateEdge) -> Seq<(Seq<char>, Seq<char>, PairingCostBreakdown)>,
)
    requires
        0 <= position < selected.len(),
    ensures
        selection_keys(edges, selected, selected.len(), keys_of).to_multiset() == selection_keys(
            edges,
            selected.remove(position),
            (selected.len() - 1) as nat, keys_of).to_multiset().add(keys_of(edges[selected[position] as int]).to_multiset()),
    decreases selected.len(),
{
    let last = selected.len() - 1;
    let rest = selected.remove(position);
    lemma_selection_keys_step(edges, selected, selected.len(), keys_of);
    if position == last {
        lemma_selection_keys_agree(edges, selected, rest, last as nat, keys_of);
    } else {
        let shorter = selected.drop_last();
        lemma_selection_keys_remove(edges, shorter, position, keys_of);
        assert(shorter.remove(position) =~= rest.drop_last());
        lemma_selection_keys_agree(edges, selected, shorter, last as nat, keys_of);
        lemma_selection_keys_agree(edges, rest, rest.drop_last(), (last - 1) as nat, keys_of);
        lemma_selection_keys_step(edges, rest, last as nat, keys_of);
        lemma_selection_keys_step(edges, shorter, last as nat, keys_of);
        assert(rest[last - 1] == selected[last]);
        assert(shorter[position] == selected[position]);
        let a = selection_keys(edges, rest.drop_last(), (last - 1) as nat, keys_of).to_multiset();
        let b = keys_of(edges[selected[position] as int]).to_multiset();
        let c = keys_of(edges[selected[last] as int]).to_multiset();
        assert(a.add(b).add(c) =~= a.add(c).add(b));
    }
}

/// Two selections of the same edges make the same match keys.
proof fn lemma_selection_keys_permutation(
    edges: Seq<PairingCandidateEdge>,
    first: Seq<usize>,
    second: Seq<usize>,
    keys_of: spec_fn(PairingCandidateEdge) -> Seq<(Seq<char>, Seq<char>, PairingCostBreakdown)>,
)
    requires
        first.to_multiset() =~= second.to_multiset(),
    ensures
        selection_keys(edges, first, first.len(), keys_of).to_multiset() == selection_keys(
            edges,
            second,
            second.len(), keys_of).to_multiset(),
    decreases first.len(),
{
    vstd::seq_lib::to_multiset_len(first);
    vstd::seq_lib::to_multiset_len(second);
    if first.len() == 0 {
        assert(selection_keys(edges, first, 0, keys_of) =~= selection_keys(edges, second, 0, keys_of));
    } else {
        let last = first.last();
        let shorter = first.drop_last();
        assert(first =~= shorter.push(last));
        vstd::seq_lib::to_multiset_build(shorter, last);
        vstd::seq_lib::to_multiset_contains(second, last);
        assert(first.to_multiset().count(last) > 0);
        let position = choose|q: int| 0 <= q < second.len() && second[q] == last;
        vstd::seq_lib::to_multiset_remove(second, position);
        assert(shorter.to_multiset() =~= second.remove(position).to_multiset());
        lemma_selection_keys_permutation(edges, shorter, second.remove(position), keys_of);
        lemma_selection_keys_remove(edges, second, position, keys_of);
        lemma_selection_keys_step(edges, first, first.len(), keys_of);
        lemma_selection_keys_agree(edges, first, shorter, shorter.len(), keys_of);
    }
}

/// In a match list in order whose first ids differ, first ids strictly
/// ascend.
proof fn lemma_first_ids_ascend(matches: Seq<ProposedMatch>, i: int, j: int)
    requires
        matches_in_order(matches),
        0 <= i < j < matches.len(),
        matches[i].first_entrant_id@ != matches[j].first_entrant_id@,
    ensures
        text_lt(matches[i].first_entrant_id@, matches[j].first_entrant_id@),
{
    assert(!match_precedes(matches[j], matches[i]));
    lemma_text_order_antisymmetric(matches[i].first_entrant_id@, matches[j].first_entrant_id@);
    lemma_text_order_zero(matches[i].first_entrant_id@, matches[j].first_entrant_id@);
}

/// Two key lists with strictly ascending first ids and the same keys are
/// the same list.
proof fn lemma_keys_unique(
    first: Seq<(Seq<char>, Seq<char>, PairingCostBreakdown)>,
    second: Seq<(Seq<char>, Seq<char>, PairingCostBreakdown)>,
)
    requires
        forall|i: int, j: int| 0 <= i < j < first.len() ==> text_lt(first[i].0, first[j].0),
        forall|i: int, j: int| 0 <= i < j < second.len() ==> text_lt(second[i].0, second[j].0),
        first.to_multiset() =~= second.to_multiset(),
    ensures
        first == second,
    decreases first.len(),
{
    vstd::seq_lib::to_multiset_len(first);
    vstd::seq_lib::to_multiset_len(second);
    if first.len() == 0 {
        assert(first =~= second);
    } else {
        vstd::seq_lib::to_multiset_contains(first, second[0]);
        vstd::seq_lib::to_multiset_contains(second, second[0]);
        vstd::seq_lib::to_multiset_contains(first, first[0]);
        vstd::seq_lib::to_multiset_contains(second, first[0]);
        assert(second.contains(second[0]));
        assert(first.contains(first[0]));
        let a = choose|a: int| 0 <= a < first.len() && first[a] == second[0];
        let b = choose|b: int| 0 <= b < second.len() && second[b] == first[0];
        if a > 0 && b > 0 {
            assert(text_lt(first[0].0, first[a].0));
            assert(text_lt(second[0].0, second[b].0));
            lemma_text_order_antisymmetric(first[0].0, second[0].0);
            assert(false);
        }
        assert(first[0] == second[0]);
        vstd::seq_lib::to_multiset_remove(first, 0);
        vstd::seq_lib::to_multiset_remove(second, 0);
        assert(first.remove(0) =~= first.drop_first());
        assert(second.remove(0) =~= second.drop_first());
        lemma_keys_unique(first.drop_first(), second.drop_first());
        assert(first.len() == first.drop_first().len() + 1);
        assert(second.len() == second.drop_first().len() + 1);
        assert forall|i: int| 0 <= i < first.len() implies first[i] == second[i] by {
            if i > 0 {
                assert(first[i] == first.drop_first()[i - 1]);
                assert(second[i] == second.drop_first()[i - 1]);
            }
        }
        assert(first =~= second);
    }
}

/// The keys of a proposal's matches strictly ascend by first id.
proof fn lemma_proposal_keys_ascend(matches: Seq<ProposedMatch>)
    requires
        matches_in_order(matches),
        forall|i: int, j: int| 0 <= i < matches.len() && 0 <= j < matches.len() && i != j ==> (
        #[trigger] matches[i]).first_entrant_id@ != (#[trigger] matches[j]).first_entrant_id@,
    ensures
        forall|i: int, j: int| 0 <= i < j < match_keys(matches).len() ==> text_lt(
            match_keys(matches)[i].0,
            match_keys(matches)[j].0,
        ),
{
    assert forall|i: int, j: int| 0 <= i < j < match_keys(matches).len() implies text_lt(
        match_keys(matches)[i].0,
        match_keys(matches)[j].0,
    ) by {
        assert(matches[i].first_entrant_id@ != matches[j].first_entrant_id@);
        lemma_first_ids_ascend(matches, i, j);
    }
}

/// Listing the selected edges in another order gives the same proposal:
/// the same matches, each with its two entrants and cost breakdown, in the
/// same order, the same bye with its cost breakdown, and the same total cost
/// and tier.
pub proof fn law_selection_order_keeps_proposal(
    request: PairingRequest,
    graph: PairingCandidateGraph,
    first_selection: Seq<usize>,
    second_selection: Seq<usize>,
    policy_version: PairingPolicyVersion,
    first: PairingProposal,
    second: PairingProposal,
)
    requires
        first_selection.to_multiset() =~= second_selection.to_multiset(),
        proposal_reflects_selection(request, graph, first_selection, policy_version, first),
        proposal_reflects_selection(request, graph, second_selection, policy_version, second),
    ensures
        match_keys(first.matches@) == match_keys(second.matches@),
        bye_keys(first.bye) == bye_keys(second.bye),
        first.total_cost == second.total_cost,
        first.relaxation_tier == second.relaxation_tier,
{
    lemma_cost_permutation(graph.edges@, first_selection, second_selection);
    vstd::seq_lib::to_multiset_len(first_selection);
    vstd::seq_lib::to_multiset_len(second_selection);
    lemma_selection_keys_permutation(
        graph.edges@,
        first_selection,
        second_selection,
        |edge: PairingCandidateEdge| edge_keys(edge),
    );
    lemma_proposal_keys_ascend(first.matches@);
    lemma_proposal_keys_ascend(second.matches@);
    lemma_keys_unique(match_keys(first.matches@), match_keys(second.matches@));
    lemma_selection_keys_permutation(
        graph.edges@,
        first_selection,
        second_selection,
        |edge: PairingCandidateEdge| bye_edge_keys(edge),
    );
    let a = bye_keys(first.bye);
    let b = bye_keys(second.bye);
    vstd::seq_lib::to_multiset_len(a);
    vstd::seq_lib::to_multiset_len(b);
    if a.len() == 1 {
        vstd::seq_lib::to_multiset_contains(a, a[0]);
        vstd::seq_lib::to_multiset_contains(b, a[0]);
        assert(a.contains(a[0]));
        assert(b[0] == a[0]);
    }
    assert(a =~= b);
}

} // verus!
