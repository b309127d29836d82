//! Choosing which of the candidates that the ICE agent gathered are offered.
use vstd::prelude::*;

use crate::candidate::{candidate_line, CandidateView, ParsedIceCandidate};
use crate::candidate_type::{CandidateType, CandidateTypeView};
use crate::transport::Transport;

verus! {

/// The type of a candidate, as the ICE agent knows it.
#[derive(Clone, Copy, Debug, PartialEq, Eq, Structural)]
pub enum AgentCandidateType {
    Host,
    ServerReflexive,
    PeerReflexive,
    Relayed,
}

/// The transport of a candidate, as the ICE agent knows it.
#[derive(Clone, Copy, Debug, PartialEq, Eq, Structural)]
pub enum AgentTransport {
    Udp,
    TcpActive,
    TcpPassive,
    TcpSimultaneousOpen,
}

/// A candidate that the ICE agent gathered, as plain values.
#[derive(Debug)]
pub struct GatheredCandidate {
    pub typ: AgentCandidateType,
    pub transport: AgentTransport,
    pub foundation: String,
    pub priority: u32,
    pub address: String,
    pub port: u32,
}

/// Whether a gathered candidate is offered: host candidates over UDP only.
pub open spec fn is_offered(c: GatheredCandidate) -> bool {
    c.typ == AgentCandidateType::Host && c.transport == AgentTransport::Udp
}

/// The candidate that a gathered one is offered as, for `component`. The port
/// keeps its low 16 bits.
pub open spec fn offered_view(c: GatheredCandidate, component: u32) -> CandidateView {
    CandidateView {
        foundation: c.foundation@,
        component,
        transport: Transport::Udp,
        priority: c.priority,
        ip: c.address@,
        port: c.port as u16,
        typ: CandidateTypeView::HostUdp,
    }
}

/// The candidates offered out of `gathered`, in their order.
pub open spec fn offered(gathered: Seq<GatheredCandidate>, component: u32) -> Seq<CandidateView>
    decreases gathered.len(),
{
    if gathered.len() == 0 {
        Seq::empty()
    } else {
        let rest = offered(gathered.drop_last(), component);
        if is_offered(gathered.last()) {
            rest.push(offered_view(gathered.last(), component))
        } else {
            rest
        }
    }
}

/// Keeps the host UDP candidates of `gathered`, in order, and writes each as
/// a candidate of `component`.
pub fn select_local_candidates(gathered: &Vec<GatheredCandidate>, component: u32) -> (r: Vec<
    ParsedIceCandidate,
>)
    ensures
        r@.map_values(|c: ParsedIceCandidate| c@) == offered(gathered@, component),
{
    let mut out: Vec<ParsedIceCandidate> = Vec::new();
    let mut i: usize = 0;
    while i < gathered.len()
        invariant
            i <= gathered.len(),
            out@.map_values(|c: ParsedIceCandidate| c@) == offered(gathered@.take(i as int), component),
        decreases gathered.len() - i,
    {
        let g = &gathered[i];
        let ghost prev = out@;
        assert(gathered@.take(i + 1).drop_last() =~= gathered@.take(i as int));
        if g.typ == AgentCandidateType::Host && g.transport == AgentTransport::Udp {
            let c = ParsedIceCandidate {
                foundation: g.foundation.clone(),
                component,
                transport: Transport::Udp,
                priority: g.priority,
                ip: g.address.clone(),
                port: g.port as u16,
                typ: CandidateType::HostUdp,
            };
            out.push(c);
            assert(out@.map_values(|c: ParsedIceCandidate| c@) =~= prev.map_values(
                |c: ParsedIceCandidate| c@,
            ).push(offered_view(gathered@[i as int], component)));
        }
        i = i + 1;
    }
    assert(gathered@.take(gathered.len() as int) =~= gathered@);
    out
}

/// The type that the ICE agent gives a candidate of type `typ`: host for
/// both host types, server reflexive for a server reflexive one.
pub open spec fn agent_type_spec(typ: CandidateTypeView) -> AgentCandidateType {
    match typ {
        CandidateTypeView::HostUdp => AgentCandidateType::Host,
        CandidateTypeView::HostTcp(_) => AgentCandidateType::Host,
        CandidateTypeView::ServerReflexive(_, _) => AgentCandidateType::ServerReflexive,
    }
}

/// The type that the ICE agent gives a candidate of type `typ`.
pub fn agent_type_of(typ: &CandidateType) -> (r: AgentCandidateType)
    ensures
        r == agent_type_spec(typ@),
{
    match typ {
        CandidateType::HostTcp(_) | CandidateType::HostUdp => AgentCandidateType::Host,
        CandidateType::ServerReflexive(_, _) => AgentCandidateType::ServerReflexive,
    }
}

/// Every candidate offered out of the gathered ones is a host UDP candidate,
/// so it can be written as an offer's candidate line.
pub proof fn law_offered_candidates_can_be_written(gathered: Seq<GatheredCandidate>, component: u32)
    ensures
        forall|i: int|
            0 <= i < offered(gathered, component).len() ==> {
                &&& (#[trigger] offered(gathered, component)[i]).transport == Transport::Udp
                &&& offered(gathered, component)[i].typ == CandidateTypeView::HostUdp
                &&& candidate_line(offered(gathered, component)[i]) is Some
            },
    decreases gathered.len(),
{
    if gathered.len() > 0 {
        law_offered_candidates_can_be_written(gathered.drop_last(), component);
    }
}

/// The UDP host candidate of `component` that a gathered candidate is
/// offered as: its foundation, priority and address, and the low 16 bits of
/// its port.
pub open spec fn host_udp_view(g: GatheredCandidate, component: u32) -> CandidateView {
    CandidateView {
        foundation: g.foundation@,
        component,
        transport: Transport::Udp,
        priority: g.priority,
        ip: g.address@,
        port: (g.port % 0x10000) as u16,
        typ: CandidateTypeView::HostUdp,
    }
}

/// The offered candidates are exactly the gathered candidates whose type is
/// host and whose transport is UDP, in the order they were gathered, each
/// offered as a UDP host candidate of `component` (see `host_udp_view`).
pub proof fn law_offered_are_the_host_udp_ones(gathered: Seq<GatheredCandidate>, component: u32)
    ensures
        offered(gathered, component) == gathered.filter(
            |g: GatheredCandidate| g.typ == AgentCandidateType::Host && g.transport == AgentTransport::Udp,
        ).map_values(|g: GatheredCandidate| host_udp_view(g, component)),
    decreases gathered.len(),
{
    let pred = |g: GatheredCandidate| g.typ == AgentCandidateType::Host && g.transport == AgentTransport::Udp;
    let f = |g: GatheredCandidate| host_udp_view(g, component);
    reveal(Seq::filter);
    if gathered.len() > 0 {
        law_offered_are_the_host_udp_ones(gathered.drop_last(), component);
        let last = gathered.last();
        let sub = gathered.drop_last().filter(pred);
        assert(gathered.filter(pred) == if pred(last) { sub.push(last) } else { sub });
        let port: u32 = last.port;
        assert(port as u16 == (port % 0x10000) as u16) by (bit_vector);
        assert(offered_view(last, component) == host_udp_view(last, component));
        if pred(last) {
            assert(sub.push(last).map_values(f) =~= sub.map_values(f).push(f(last)));
        }
    } else {
        assert(gathered.filter(pred).map_values(f) =~= Seq::<CandidateView>::empty());
    }
}

} // verus!
