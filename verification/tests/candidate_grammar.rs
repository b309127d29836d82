use cloverleaf::candidate::{parse_candidate, try_parse_candidate, ParsedIceCandidate};
use cloverleaf::{CandidateType, Transport};

fn host_udp(foundation: &str, component: u32, priority: u32, ip: &str, port: u16) -> ParsedIceCandidate {
    ParsedIceCandidate {
        foundation: foundation.to_string(),
        component,
        transport: Transport::Udp,
        priority,
        ip: ip.to_string(),
        port,
        typ: CandidateType::HostUdp,
    }
}

#[test]
fn parsed_fields_are_exact() {
    let c = parse_candidate(
        "a=candidate:0 1 UDP 2122187007 9971baf2-00e6-4bb3-b954-7a61b4eb8daf.local 48155 typ host",
    )
    .unwrap();
    assert_eq!(c.foundation, "0");
    assert_eq!(c.component, 1);
    assert_eq!(c.transport, Transport::Udp);
    assert_eq!(c.priority, 2122187007);
    assert_eq!(c.ip, "9971baf2-00e6-4bb3-b954-7a61b4eb8daf.local");
    assert_eq!(c.port, 48155);
    assert_eq!(c.typ, CandidateType::HostUdp);
}

#[test]
fn tcp_transport_only_in_capitals() {
    let c = parse_candidate("candidate:5 1 TCP 2105524479 10.0.0.1 9 typ host").unwrap();
    assert_eq!(c.transport, Transport::Tcp);
    assert_eq!(c.typ, CandidateType::HostTcp("10.0.0.1".to_string()));
    assert_eq!(
        parse_candidate("candidate:5 1 tCp 2105524479 10.0.0.1 9 typ host").unwrap_err(),
        "candidate cant be parsed"
    );
}

#[test]
fn no_candidate_is_rejected() {
    assert_eq!(parse_candidate("a=end-of-candidates").unwrap_err(), "candidate cant be parsed");
    assert_eq!(parse_candidate("").unwrap_err(), "candidate cant be parsed");
    // the address must be lower case
    assert_eq!(
        parse_candidate("candidate:0 1 UDP 1 Host.local 1 typ host").unwrap_err(),
        "candidate cant be parsed"
    );
    // a field run must be followed by white space
    assert_eq!(
        parse_candidate("candidate:0x 1 UDP 1 h 1 typ host").unwrap_err(),
        "candidate cant be parsed"
    );
}

#[test]
fn leftmost_candidate_is_read() {
    let c = parse_candidate("candidate:x candidate:7 2 UDP 3 h 4 typ host candidate:8 2 UDP 3 h 4 typ host")
        .unwrap();
    assert_eq!(c.foundation, "7");
    assert_eq!(c.component, 2);
}

#[test]
fn srflx_needs_related_address_and_port() {
    assert_eq!(
        parse_candidate("candidate:1 1 UDP 1 1.2.3.4 5 typ srflx").unwrap_err(),
        "can't parse rip"
    );
    assert_eq!(
        parse_candidate("candidate:1 1 UDP 1 1.2.3.4 5 typ srflx raddr 0.0.0.0").unwrap_err(),
        "can't parse rport"
    );
    let c = parse_candidate("candidate:1 1 UDP 1 1.2.3.4 5 typ srflx raddr 10.1.2.3 rport 65535").unwrap();
    assert_eq!(c.typ, CandidateType::ServerReflexive("10.1.2.3".to_string(), 65535));
}

#[test]
fn prflx_is_an_unknown_type() {
    assert_eq!(
        parse_candidate("candidate:1 1 UDP 1 1.2.3.4 5 typ prflx").unwrap_err(),
        "unknown type: prflx"
    );
}

#[test]
fn numbers_that_do_not_fit_give_none() {
    assert!(try_parse_candidate("candidate:1 4294967296 UDP 1 h 5 typ host").is_none());
    assert!(try_parse_candidate("candidate:1 1 UDP 4294967296 h 5 typ host").is_none());
    assert!(try_parse_candidate("candidate:1 1 UDP 1 h 65536 typ host").is_none());
    assert!(try_parse_candidate("candidate:1 1 UDP 1 h 5 typ srflx raddr 1.1.1.1 rport 65536").is_none());
    let c = try_parse_candidate("candidate:1 4294967295 UDP 4294967295 h 0065535 typ host")
        .unwrap()
        .unwrap();
    assert_eq!(c.component, 4294967295);
    assert_eq!(c.priority, 4294967295);
    assert_eq!(c.port, 65535);
    // a rejection wins over a number that does not fit, as the type is read first
    assert_eq!(
        try_parse_candidate("candidate:1 99999999999 UDP 1 h 5 typ prflx").unwrap().unwrap_err(),
        "unknown type: prflx"
    );
}

#[test]
fn display_writes_the_candidate_line() {
    let c = host_udp("1", 1, 2015363327, "192.168.1.2", 42933);
    assert_eq!(c.display().unwrap(), "candidate:1 1 UDP 2015363327 192.168.1.2 42933 typ host");
    let mut bad = host_udp("1", 1, 1, "h", 1);
    bad.transport = Transport::Invalid;
    assert!(bad.display().is_none());
}

#[test]
fn display_then_parse_round_trip() {
    let c = host_udp("4077567720", 1, 2113937151, "068fdcb4-42c6.local", 43023);
    let line = c.display().unwrap();
    let back = parse_candidate(&line).unwrap();
    assert_eq!(back.foundation, c.foundation);
    assert_eq!(back.component, c.component);
    assert_eq!(back.transport, c.transport);
    assert_eq!(back.priority, c.priority);
    assert_eq!(back.ip, c.ip);
    assert_eq!(back.port, c.port);
    assert_eq!(back.typ, c.typ);
}

#[test]
fn transport_names() {
    assert_eq!(Transport::from("UDP"), Transport::Udp);
    assert_eq!(Transport::from("TCP"), Transport::Tcp);
    assert_eq!(Transport::from("udp"), Transport::Invalid);
    assert_eq!(Transport::Udp.display().unwrap(), "UDP");
    assert_eq!(Transport::Tcp.display().unwrap(), "TCP");
    assert!(Transport::Invalid.display().is_none());
    assert_eq!(Transport::from(Transport::Tcp.display().unwrap().as_str()), Transport::Tcp);
}

#[test]
fn transport_spellings_read() {
    let c = parse_candidate("candidate:1 1 udp 5 h 6 typ host").unwrap();
    assert_eq!(c.transport, Transport::Udp);
    assert_eq!(c.typ, CandidateType::HostUdp);
    let c = parse_candidate("candidate:1 1 TCP 5 h 6 typ host").unwrap();
    assert_eq!(c.typ, CandidateType::HostTcp("h".to_string()));
    assert!(parse_candidate("candidate:1 1 tcp 5 h 6 typ host").is_err());
    assert!(parse_candidate("candidate:1 1 Udp 5 h 6 typ host").is_err());
    assert!(parse_candidate("candidate:1 1 uDP 5 h 6 typ host").is_err());
}
