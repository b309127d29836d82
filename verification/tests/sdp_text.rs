use cloverleaf::candidate::ParsedIceCandidate;
use cloverleaf::offer;
use cloverleaf::sdp::{create_sdp, Sdp};
use cloverleaf::{CandidateType, Transport};

#[test]
fn last_credentials_win_and_others_are_ignored() {
    let text = "v=0\r\na=ice-ufrag:first\r\na=ice-ufrag:second9 trailing\r\nm=video\r\na=ice-pwd:pw1";
    let sdp = Sdp::from(text);
    assert_eq!(sdp.ufrag, "second9");
    assert_eq!(sdp.pwd, "pw1");
}

#[test]
fn missing_credentials_are_empty() {
    let sdp = Sdp::from("v=0\r\ns=-");
    assert_eq!(sdp.ufrag, "");
    assert_eq!(sdp.pwd, "");
    let d = Sdp::default();
    assert_eq!(d.ufrag, "");
    assert_eq!(d.pwd, "");
}

#[test]
fn unreadable_lines_give_none() {
    // names ice-ufrag without a value
    assert!(Sdp::try_parse("a=ice-ufrag:\r\n").is_none());
    assert!(Sdp::try_parse("a=ice-pwd:UPPER").is_none());
    // names candidate without holding one
    assert!(Sdp::try_parse("a=ice-ufrag:abc\r\na=end-of-candidates\r\n").is_none());
    // a readable candidate line passes
    let sdp = Sdp::try_parse(
        "a=ice-ufrag:abc\r\na=candidate:1 1 udp 2015363327 192.168.1.2 42933 typ host\r\n",
    )
    .unwrap();
    assert_eq!(sdp.ufrag, "abc");
}

#[test]
fn only_crlf_splits_lines() {
    // a lone "\n" does not end a line, so the ufrag runs to the first non-alphanumeric
    let sdp = Sdp::from("a=ice-ufrag:abc\na=ice-pwd:def");
    assert_eq!(sdp.ufrag, "abc");
    assert_eq!(sdp.pwd, "");
}

fn local() -> ParsedIceCandidate {
    ParsedIceCandidate {
        foundation: "1".to_string(),
        component: 1,
        transport: Transport::Udp,
        priority: 2015363327,
        ip: "192.168.1.2".to_string(),
        port: 42933,
        typ: CandidateType::HostUdp,
    }
}

#[test]
fn offer_carries_credentials_fingerprint_and_candidate() {
    let sdp = Sdp { ufrag: "uf".to_string(), pwd: "pw".to_string() };
    let text = create_sdp(&sdp, &local(), "sha-256 AA:BB");
    assert!(text.starts_with("v=0\\r\\no=- 1625733337583270 1 IN IP4 192.168.1.2\\r\\n"));
    assert!(text.contains("\\r\\na=ice-ufrag:uf\\r\\na=ice-pwd:pw\\r\\na=ice-options:trickle\\r\\na=fingerprint:sha-256 AA:BB\\r\\na=setup:actpass"));
    assert!(text.ends_with("a=candidate:1 1 UDP 2015363327 192.168.1.2 42933 typ host\\r\\na=end-of-candidates\\r\\n"));
    assert!(!text.contains('\r'));
}

#[test]
fn fixed_offer_carries_credentials() {
    let sdp = Sdp { ufrag: "uf".to_string(), pwd: "pw".to_string() };
    let text = offer::create_sdp(&sdp);
    assert!(text.starts_with("v=0\r\no=- 1625733337583270 1 IN IP4 192.168.1.2\r\n"));
    assert!(text.contains("\r\na=ice-ufrag:uf\r\na=ice-pwd:pw\r\na=ice-options:trickle\r\n"));
    assert!(text.ends_with("a=candidate:1 1 udp 2015363327 192.168.1.2 42933 typ host\r\na=end-of-candidates\r\n"));
    assert_eq!(text.lines().count(), 36);
}

#[test]
fn credentials_pass_over_unreadable_lines() {
    let sdp = Sdp::credentials("a=ice-ufrag:uf\r\na=ice-pwd:pw\r\na=end-of-candidates\r\n");
    assert_eq!(sdp.ufrag, "uf");
    assert_eq!(sdp.pwd, "pw");
    // an unreadable ufrag line keeps the earlier value; the last readable one wins
    let sdp = Sdp::credentials("a=ice-ufrag:one\r\na=ice-ufrag:\r\na=ice-pwd:x\r\na=ice-pwd:y");
    assert_eq!(sdp.ufrag, "one");
    assert_eq!(sdp.pwd, "y");
    let sdp = Sdp::credentials("");
    assert_eq!(sdp.ufrag, "");
    assert_eq!(sdp.pwd, "");
}
