use cloverleaf::agent_setup::{credentials_result, send_result};
use cloverleaf::fingerprint::fingerprint_text;
use cloverleaf::local_candidates::{agent_type_of, AgentCandidateType};
use cloverleaf::CandidateType;

#[test]
fn fingerprint_is_colon_separated_upper_hex() {
    assert_eq!(fingerprint_text(&[0x5b, 0xf5, 0x0c, 0x00]), "sha-256 5B:F5:0C:00");
    assert_eq!(fingerprint_text(&[0xff]), "sha-256 FF");
    assert_eq!(fingerprint_text(&[]), "sha-256 ");
    let digest: Vec<u8> = (0u8..32).collect();
    let text = fingerprint_text(&digest);
    assert_eq!(text.len(), "sha-256 ".len() + 32 * 3 - 1);
    assert!(text.ends_with(":1E:1F"));
}

#[test]
fn agent_types_of_candidate_types() {
    assert_eq!(agent_type_of(&CandidateType::HostUdp), AgentCandidateType::Host);
    assert_eq!(agent_type_of(&CandidateType::HostTcp("h".to_string())), AgentCandidateType::Host);
    assert_eq!(
        agent_type_of(&CandidateType::ServerReflexive("1.1.1.1".to_string(), 5)),
        AgentCandidateType::ServerReflexive
    );
}

#[test]
fn agent_answers() {
    assert_eq!(credentials_result(0).unwrap_err(), "couldn't set remote creds");
    assert!(credentials_result(1).is_ok());
    assert!(credentials_result(-1).is_ok());
    assert_eq!(send_result(-1).unwrap_err(), "there was a problem sending the packet to the browser");
    assert!(send_result(0).is_ok());
    assert!(send_result(1200).is_ok());
}
