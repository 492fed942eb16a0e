//! Pairing algorithm implementations live in focused child modules.
//!
//! Each implementation owns an immutable snapshot input, validation,
//! algorithm-specific errors, and diagnostic proposal output. Match publication
//! and table assignment remain downstream so adding an algorithm does not
//! duplicate them or give solver output order sporting meaning.
use vstd::prelude::*;

pub mod blossom_v1;
pub mod blossom_v2;

use blossom_v1::PairingProposal;
use vstd::std_specs::convert::FromSpecImpl;

verus! {

#[derive(Clone, Debug, PartialEq, Eq, Structural)]
pub enum PairingPolicy {
    BlossomV1(blossom_v1::BlossomV1Policy),
    BlossomV2(blossom_v2::BlossomV2Policy),
}

impl Default for PairingPolicy {
    /// The second-version policy with its default settings.
    fn default() -> (policy: Self)
        ensures
            policy matches PairingPolicy::BlossomV2(inner) && inner.match_record_weight == 1_000_000_000
                && inner.maximum_entrant_count == 64,
    {
        PairingPolicy::BlossomV2(blossom_v2::BlossomV2Policy::default())
    }
}

impl From<blossom_v1::BlossomV1Policy> for PairingPolicy {
    fn from(policy: blossom_v1::BlossomV1Policy) -> (wrapped: Self) {
        PairingPolicy::BlossomV1(policy)
    }
}

impl FromSpecImpl<blossom_v1::BlossomV1Policy> for PairingPolicy {
    open spec fn obeys_from_spec() -> bool {
        true
    }

    open spec fn from_spec(policy: blossom_v1::BlossomV1Policy) -> Self {
        PairingPolicy::BlossomV1(policy)
    }
}

impl From<blossom_v2::BlossomV2Policy> for PairingPolicy {
    fn from(policy: blossom_v2::BlossomV2Policy) -> (wrapped: Self) {
        PairingPolicy::BlossomV2(policy)
    }
}

impl FromSpecImpl<blossom_v2::BlossomV2Policy> for PairingPolicy {
    open spec fn obeys_from_spec() -> bool {
        true
    }

    open spec fn from_spec(policy: blossom_v2::BlossomV2Policy) -> Self {
        PairingPolicy::BlossomV2(policy)
    }
}

#[derive(Clone, Debug, PartialEq, Eq)]
pub enum PairingSnapshot {
    BlossomV1(blossom_v1::PairingRequest),
    BlossomV2(blossom_v2::PairingRequest),
}

/// What a proposal for the snapshot is: for a first-version request, a
/// complete pairing of its entrants drawn from the fair-bye candidate graph
/// of the proposal's tier; for a second-version request, the same for its
/// compatible first-version request under the second-version costs.
pub open spec fn proposal_for_snapshot(snapshot: PairingSnapshot, proposal: PairingProposal) -> bool {
    match snapshot {
        PairingSnapshot::BlossomV1(request) => {
            &&& blossom_v1::proposal_complete(request, proposal)
            &&& proposal.policy_version == blossom_v1::PairingPolicyVersion::BlossomV1
            &&& blossom_v1::proposal_from_tier_graph(
                request,
                blossom_v1::EdgeCostModel::BlossomV1 { round_number: request.round_number.spec_value(), policy: request.policy },
                blossom_v1::PairingPolicyVersion::BlossomV1,
                proposal,
            )
        },
        PairingSnapshot::BlossomV2(request) => {
            &&& proposal.policy_version == blossom_v1::PairingPolicyVersion::BlossomV2
            &&& exists|compatible: blossom_v1::PairingRequest|
                #[trigger] blossom_v2::compatible_with(request, compatible) && blossom_v1::proposal_complete(compatible, proposal)
                    && blossom_v1::proposal_from_tier_graph(
                    compatible,
                    blossom_v2::v2_model(request),
                    blossom_v1::PairingPolicyVersion::BlossomV2,
                    proposal,
                )
        },
    }
}

/// A proposal for the snapshot by the policy version it was taken for.
pub fn propose_pairings(snapshot: &PairingSnapshot) -> (outcome: Result<
    PairingProposal,
    blossom_v1::BlossomPairingError,
>)
    ensures
        snapshot matches PairingSnapshot::BlossomV1(request) ==> {
            &&& !blossom_v1::request_valid(*request) ==> outcome is Err
            &&& outcome matches Ok(proposal) ==> blossom_v1::proposal_complete(*request, proposal)
                && proposal.policy_version == blossom_v1::PairingPolicyVersion::BlossomV1
            &&& outcome matches Ok(proposal) ==> blossom_v1::proposal_from_tier_graph(
                *request,
                blossom_v1::EdgeCostModel::BlossomV1 { round_number: request.round_number.spec_value(), policy: request.policy },
                blossom_v1::PairingPolicyVersion::BlossomV1,
                proposal,
            )
        },
        snapshot matches PairingSnapshot::BlossomV2(request) ==> (outcome matches Ok(proposal) ==> exists|
            compatible: blossom_v1::PairingRequest,
        |
            #[trigger] blossom_v2::compatible_with(*request, compatible) && blossom_v1::proposal_complete(compatible, proposal)
                && blossom_v1::proposal_from_tier_graph(
                compatible,
                blossom_v2::v2_model(*request),
                blossom_v1::PairingPolicyVersion::BlossomV2,
                proposal,
            )),
        snapshot matches PairingSnapshot::BlossomV2(request) ==> (outcome matches Ok(proposal) ==> proposal.policy_version
            == blossom_v1::PairingPolicyVersion::BlossomV2 && proposal.matches@.len() * 2 + (if proposal.bye is Some {
            1int
        } else {
            0int
        }) == request.entrants@.len()),
        outcome matches Ok(proposal) ==> proposal_for_snapshot(*snapshot, proposal),
{
    match snapshot {
        PairingSnapshot::BlossomV1(request) => blossom_v1::propose_pairings(request),
        PairingSnapshot::BlossomV2(request) => blossom_v2::propose_pairings(request),
    }
}

} // verus!
