use cloverleaf::agent_setup::{setup_next, setup_start, SetupAction, SetupStage};
use cloverleaf::candidate::ParsedIceCandidate;
use cloverleaf::local_candidates::{select_local_candidates, GatheredCandidate, AgentTransport, AgentCandidateType};
use cloverleaf::payload::{CloverLeafResponse, Payload, PayloadCandidate, PayloadType};
use cloverleaf::sessions::SessionTable;
use cloverleaf::state::{initiate, AgentOffer, CloverLeafState};
use cloverleaf::{CandidateType, Transport};

fn gathered(typ: AgentCandidateType, transport: AgentTransport, foundation: &str, port: u32) -> GatheredCandidate {
    GatheredCandidate {
        typ,
        transport,
        foundation: foundation.to_string(),
        priority: 7,
        address: "10.0.0.2".to_string(),
        port,
    }
}

#[test]
fn only_host_udp_candidates_are_offered() {
    let all = vec![
        gathered(AgentCandidateType::Host, AgentTransport::TcpActive, "1", 9),
        gathered(AgentCandidateType::Host, AgentTransport::Udp, "2", 5000),
        gathered(AgentCandidateType::ServerReflexive, AgentTransport::Udp, "3", 5001),
        gathered(AgentCandidateType::Host, AgentTransport::Udp, "4", 70000),
    ];
    let offered = select_local_candidates(&all, 1);
    assert_eq!(offered.len(), 2);
    assert_eq!(offered[0].foundation, "2");
    assert_eq!(offered[0].port, 5000);
    assert_eq!(offered[0].transport, Transport::Udp);
    assert_eq!(offered[0].typ, CandidateType::HostUdp);
    assert_eq!(offered[0].component, 1);
    assert_eq!(offered[0].ip, "10.0.0.2");
    assert_eq!(offered[1].foundation, "4");
    // the port keeps its low 16 bits
    assert_eq!(offered[1].port, 70000u32 as u16);
}

#[test]
fn table_reads_back_what_was_written() {
    let mut t: SessionTable<u32> = SessionTable::new();
    let a = "a".to_string();
    let b = "b".to_string();
    assert_eq!(t.insert(a.clone(), 1), None);
    assert_eq!(t.insert(b.clone(), 2), None);
    assert_eq!(t.insert(a.clone(), 3), Some(1));
    assert_eq!(*t.get_mut(&a).unwrap(), 3);
    *t.get_mut(&b).unwrap() = 20;
    assert_eq!(t.remove(&b), Some(20));
    assert!(!t.contains_key(&b));
    assert!(t.get_mut(&b).is_none());
    assert!(t.contains_key(&a));
}

#[test]
fn setup_runs_every_step_then_finishes() {
    let mut action = setup_start();
    let mut steps = vec![];
    loop {
        match action {
            SetupAction::Run(stage) => {
                steps.push(stage);
                action = setup_next(stage, true);
            }
            SetupAction::Finish => break,
            SetupAction::Fail(e) => panic!("{e}"),
        }
    }
    assert_eq!(
        steps,
        vec![
            SetupStage::SetAddress,
            SetupStage::CreateAgent,
            SetupStage::AddLocalAddress,
            SetupStage::GatherCandidates,
            SetupStage::AttachReceiver
        ]
    );
}

#[test]
fn setup_failure_names_the_step() {
    match setup_next(SetupStage::SetAddress, false) {
        SetupAction::Fail(e) => assert_eq!(e, "an error occurred while setting the addr"),
        _ => panic!(),
    }
    match setup_next(SetupStage::CreateAgent, false) {
        SetupAction::Fail(e) => assert_eq!(e, "agent creation failed"),
        _ => panic!(),
    }
    match setup_next(SetupStage::AddLocalAddress, false) {
        SetupAction::Fail(e) => assert_eq!(e, "couldn't add local addr to agent"),
        _ => panic!(),
    }
    match setup_next(SetupStage::GatherCandidates, false) {
        SetupAction::Fail(e) => assert_eq!(e, "either invalid stream id or couldnt allocate host candidate"),
        _ => panic!(),
    }
    assert!(matches!(setup_next(SetupStage::AttachReceiver, false), SetupAction::Finish));
}

fn local() -> ParsedIceCandidate {
    ParsedIceCandidate {
        foundation: "1".to_string(),
        component: 1,
        transport: Transport::Udp,
        priority: 5,
        ip: "10.0.0.2".to_string(),
        port: 6,
        typ: CandidateType::HostUdp,
    }
}

fn prepared(agent: u32, cands: Result<Vec<ParsedIceCandidate>, String>) -> AgentOffer<u32> {
    AgentOffer {
        agent,
        ufrag: "uf".to_string(),
        pwd: "pw".to_string(),
        local_candidates: cands,
        fingerprint: "fp".to_string(),
    }
}

fn msg(session: &str) -> Payload {
    Payload {
        pt: PayloadType::Watch,
        payload: String::new(),
        id: String::new(),
        session: session.to_string(),
    }
}

fn is_uuid(s: &str) -> bool {
    s.len() == 36
        && s.chars().enumerate().all(|(i, c)| {
            if [8, 13, 18, 23].contains(&i) {
                c == '-'
            } else {
                c.is_ascii_digit() || ('a'..='f').contains(&c)
            }
        })
        && s.as_bytes()[14] == b'4'
}

#[test]
fn sessions_open_answer_and_start() {
    let mut state: CloverLeafState<u32> = CloverLeafState::new("cert.pem", "key.pem");
    assert_eq!(state.cert_path(), "cert.pem");
    assert_eq!(state.key_path(), "key.pem");
    let (id, sdp) = state.create_session(Some(prepared(7, Ok(vec![local()])))).unwrap();
    assert!(is_uuid(&id));
    assert!(sdp.contains("a=ice-ufrag:uf\\r\\na=ice-pwd:pw"));
    assert!(sdp.contains("a=fingerprint:fp\\r\\n"));
    let (id2, _) = state.create_session(Some(prepared(8, Ok(vec![local()])))).unwrap();
    assert_ne!(id, id2);

    let answer = Payload {
        pt: PayloadType::Answer,
        payload: "a=ice-ufrag:remote\r\na=ice-pwd:secret".to_string(),
        id: String::new(),
        session: id.clone(),
    };
    let (agent, creds) = state.process_answer(&answer).unwrap();
    assert_eq!(*agent, 7);
    *agent = 70;
    assert_eq!(creds.ufrag, "remote");
    assert_eq!(creds.pwd, "secret");

    let cand_text = |t: &str| PayloadCandidate { candidate: t.to_string() };
    let (agent, cand) = state
        .add_candidate(&msg(&id), &cand_text("candidate:1 1 UDP 5 10.0.0.9 6 typ host"))
        .unwrap()
        .unwrap();
    assert_eq!(*agent, 70);
    assert_eq!(cand.ip, "10.0.0.9");
    assert!(state
        .add_candidate(&msg("none"), &cand_text("candidate:1 1 UDP 5 h 6 typ host"))
        .unwrap()
        .is_none());
    assert_eq!(
        state.add_candidate(&msg(&id), &cand_text("garbage")).unwrap_err(),
        "candidate cant be parsed"
    );
    assert_eq!(*state.candidates_done(&msg(&id)).unwrap(), 70);

    let (start_stream, agent) = state.start(&msg(&id));
    assert!(start_stream);
    assert_eq!(agent, Some(70));
    assert!(state.candidates_done(&msg(&id)).is_none());
    let (start_stream, agent) = state.start(&msg(&id2));
    assert!(!start_stream);
    assert_eq!(agent, Some(8));
    let (start_stream, agent) = state.start(&msg(&id2));
    assert!(!start_stream);
    assert_eq!(agent, None);
}

#[test]
fn session_errors() {
    let mut state: CloverLeafState<u32> = CloverLeafState::new("c", "k");
    assert_eq!(state.create_session(None).unwrap_err(), "error creating ice agent");
    assert_eq!(
        state.create_session(Some(prepared(1, Err("x".to_string())))).unwrap_err(),
        "error getting local cands"
    );
    assert!(state.process_answer(&Payload {
        pt: PayloadType::Answer,
        payload: String::new(),
        id: String::new(),
        session: "missing".to_string(),
    })
    .is_none());
}

#[test]
fn initiate_messages() {
    let mut state: CloverLeafState<u32> = CloverLeafState::new("c", "k");
    assert_eq!(initiate(&mut state, None), "{\"type\": \"error creating ice agent\"}");
    assert_eq!(
        initiate(&mut state, Some(prepared(1, Err("x".to_string())))),
        "{\"type\": \"error getting local cands\"}"
    );
    let reply = initiate(&mut state, Some(prepared(1, Ok(vec![local()]))));
    assert!(reply.starts_with("{\"type\": \"offer\", \"session\": \""));
    let id = &reply[30..66];
    assert!(is_uuid(id));
    assert!(reply[66..].starts_with("\", \"sdp\": \"v=0\\r\\n"));
    assert!(reply.ends_with("a=end-of-candidates\\r\\n\"}"));
    assert_eq!(state.candidates_done(&msg(id)), Some(&mut 1));
}

#[test]
fn success_response() {
    let r = CloverLeafResponse::success();
    assert_eq!(r.pt(), "msg");
    assert_eq!(r.status(), "success");
}

#[test]
fn answer_with_end_of_candidates_gives_its_credentials() {
    let mut state: CloverLeafState<u32> = CloverLeafState::new("c", "k");
    let (id, _) = state.create_session(Some(prepared(5, Ok(vec![local()])))).unwrap();
    let answer = Payload {
        pt: PayloadType::Answer,
        payload: "a=ice-ufrag:uf\r\na=ice-pwd:pw\r\na=end-of-candidates\r\n".to_string(),
        id: String::new(),
        session: id.clone(),
    };
    let (agent, creds) = state.process_answer(&answer).unwrap();
    assert_eq!(*agent, 5);
    assert_eq!(creds.ufrag, "uf");
    assert_eq!(creds.pwd, "pw");
}

#[test]
fn session_opened_under_a_given_id() {
    let mut state: CloverLeafState<u32> = CloverLeafState::new("c", "k");
    let id = "00000000-0000-4000-8000-000000000000".to_string();
    let (rid, sdp) = state.open_session(id.clone(), Some(prepared(3, Ok(vec![local()])))).unwrap();
    assert_eq!(rid, id);
    assert!(sdp.contains("a=ice-ufrag:uf\\r\\na=ice-pwd:pw"));
    assert_eq!(state.candidates_done(&msg(&id)), Some(&mut 3));
    assert_eq!(
        state.open_session("x".to_string(), None).unwrap_err(),
        "error creating ice agent"
    );
    assert!(state.candidates_done(&msg("x")).is_none());
}
