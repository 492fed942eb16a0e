//! Record-first pairing policy using the shared in-house Blossom kernel.
//!
//! V2 retains the stable snapshot boundary and relationship relaxation from
//! BlossomV1 while replacing its linear competitive edge costs.

mod policy;
mod request;
mod solve;

pub use policy::BlossomV2Policy;
pub use request::{PairingRequest, compatibility_policy, compatibility_request, compatible_with};
pub use solve::{build_candidate_graph, build_relaxation_graphs, propose_pairings, v2_model};
