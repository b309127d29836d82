//! The type of an ICE candidate.
use vstd::prelude::*;

verus! {

/// The type of an ICE candidate, with what each type carries.
#[derive(Debug, PartialEq, Eq)]
pub enum CandidateType {
    /// A host candidate reached over UDP.
    HostUdp,
    /// A host candidate reached over TCP, with its address.
    HostTcp(String),
    /// A server reflexive candidate, with its related address and port.
    ServerReflexive(String, u16),
}

/// `CandidateType` with its strings taken as character sequences.
pub enum CandidateTypeView {
    HostUdp,
    HostTcp(Seq<char>),
    ServerReflexive(Seq<char>, u16),
}

impl View for CandidateType {
    type V = CandidateTypeView;

    open spec fn view(&self) -> CandidateTypeView {
        match self {
            CandidateType::HostUdp => CandidateTypeView::HostUdp,
            CandidateType::HostTcp(addr) => CandidateTypeView::HostTcp(addr@),
            CandidateType::ServerReflexive(addr, port) => CandidateTypeView::ServerReflexive(addr@, *port),
        }
    }
}

} // verus!
