//! Signalling for a WebRTC video server: reading ICE candidate attributes and
//! the credentials of session descriptions, writing offers, choosing the local
//! candidates to offer, ordering the setup of an ICE agent, and the table of
//! sessions that wait for a viewer.
use vstd::prelude::*;

pub mod agent_setup;
pub mod candidate;
pub mod candidate_type;
pub mod fingerprint;
pub mod local_candidates;
pub mod offer;
pub mod payload;
pub mod sdp;
pub mod sessions;
pub mod state;
pub mod text;
pub mod transport;

pub use candidate::{parse_candidate, try_parse_candidate, ParsedIceCandidate};
pub use candidate_type::CandidateType;
pub use payload::{CloverLeafResponse, Payload, PayloadCandidate, PayloadType};
pub use sdp::{create_sdp, Sdp};
pub use state::{initiate, AgentOffer, CloverLeafState};
pub use transport::Transport;

verus! {
} // verus!
