use hersir::grpc::MockClientError;
use hersir::mock::{
    CallLog, CallPredicate, HandshakeResponse, MethodType, MockConfig, MockExitCode, MockServer,
    ProtocolVersion, StoredFragment, HASH_LEN,
};

fn genesis_hash() -> Vec<u8> {
    (0..HASH_LEN as u8).collect()
}

fn config(protocol: ProtocolVersion) -> MockConfig {
    MockConfig {
        port: 9999,
        genesis_hash: genesis_hash(),
        genesis_header: vec![1, 2, 3],
        protocol,
        tip_header: None,
    }
}

fn id(b: u8) -> Vec<u8> {
    vec![b; HASH_LEN]
}

#[test]
fn one_handshake_verifies_at_least_once() {
    let mut m = MockServer::new(config(ProtocolVersion::GenesisPraos), Vec::new());
    m.handshake(&vec![9, 9], 10).unwrap();
    assert_eq!(
        m.finish_and_verify(CallPredicate::ExecutedAtLeastOnce(MethodType::Handshake)),
        MockExitCode::Success
    );
}

#[test]
fn method_never_invoked_fails_at_least_once() {
    let mut m = MockServer::new(config(ProtocolVersion::GenesisPraos), Vec::new());
    m.handshake(&Vec::new(), 10).unwrap();
    assert_eq!(
        m.finish_and_verify(CallPredicate::ExecutedAtLeastOnce(MethodType::PullBlocks)),
        MockExitCode::Failure
    );
}

#[test]
fn other_predicates() {
    let mut log = CallLog::new();
    assert!(log.record(MethodType::Tip, 1));
    assert!(log.record(MethodType::Tip, 2));
    assert_eq!(log.count(MethodType::Tip), 2);
    assert!(log.method_never_executed(MethodType::Handshake));
    assert!(log.method_executed_at_least_once(MethodType::Tip));
    assert_eq!(log.finish_and_verify(CallPredicate::ExecutedExactly(MethodType::Tip, 2)), MockExitCode::Success);
    assert!(!log.record(MethodType::Tip, 3));
    assert_eq!(log.count(MethodType::Tip), 2);
}

#[test]
fn calls_are_ranked_in_arrival_order() {
    let mut m = MockServer::new(config(ProtocolVersion::Bft), Vec::new());
    m.handshake(&Vec::new(), 5).unwrap();
    m.tip(7).unwrap();
    m.acknowledge(MethodType::UploadBlocks, 9).unwrap();
    let calls = m.calls();
    let seen: Vec<(MethodType, u64, u64)> = calls.iter().map(|c| (c.method, c.timestamp_ms, c.ordinal)).collect();
    assert_eq!(
        seen,
        vec![(MethodType::Handshake, 5, 0), (MethodType::Tip, 7, 1), (MethodType::UploadBlocks, 9, 2)]
    );
}

#[test]
fn stopped_mock_refuses_calls() {
    let mut m = MockServer::new(config(ProtocolVersion::Bft), Vec::new());
    m.finish_and_verify(CallPredicate::NeverExecuted(MethodType::Handshake));
    assert_eq!(
        m.handshake(&Vec::new(), 1),
        Err(MockClientError::InvalidRequest("mock server stopped".to_string()))
    );
    assert!(m.calls().is_empty());
}

#[test]
fn handshake_answers_from_configuration() {
    let mut m = MockServer::new(config(ProtocolVersion::Bft), Vec::new());
    let a = m.handshake(&vec![1], 1).unwrap();
    let b = m.handshake(&vec![2, 3, 4], 2).unwrap();
    assert_eq!(a, b);
    assert_eq!(a, HandshakeResponse { version: 0, block0: genesis_hash() });
}

#[test]
fn genesis_hash_in_hex() {
    let r = HandshakeResponse { version: 1, block0: vec![0x01, 0xab, 0xff, 0x10] };
    assert_eq!(r.block0_hex(), "01abff10");
    let empty = HandshakeResponse { version: 1, block0: Vec::new() };
    assert_eq!(empty.block0_hex(), "");
}

#[test]
fn tip_defaults_to_genesis_header() {
    let mut m = MockServer::new(config(ProtocolVersion::Bft), Vec::new());
    assert_eq!(m.tip(1), Ok(vec![1, 2, 3]));
    let mut c = config(ProtocolVersion::Bft);
    c.tip_header = Some(vec![7, 7]);
    let mut t = MockServer::new(c, Vec::new());
    assert_eq!(t.tip(1), Ok(vec![7, 7]));
    assert_eq!(t.config().tip_header, Some(vec![7, 7]));
}

#[test]
fn ranges_are_empty_or_refused() {
    let mut m = MockServer::new(config(ProtocolVersion::Bft), Vec::new());
    assert_eq!(m.serve_range(MethodType::PullBlocks, &vec![id(1), id(2)], 1), Ok(Vec::new()));
    assert_eq!(
        m.serve_range(MethodType::GetHeaders, &vec![vec![1, 2]], 2),
        Err(MockClientError::InvalidRequest("malformed id".to_string()))
    );
    assert_eq!(m.calls().len(), 2);
}

#[test]
fn fragments_are_served_by_id() {
    let stored = vec![
        StoredFragment { id: id(1), content: vec![10] },
        StoredFragment { id: id(2), content: vec![20] },
        StoredFragment { id: id(3), content: vec![30] },
    ];
    let mut m = MockServer::new(config(ProtocolVersion::Bft), stored);
    assert_eq!(m.get_fragments(&vec![id(3), id(1), id(9)], 1), Ok(vec![vec![10], vec![30]]));
    assert_eq!(m.get_fragments(&vec![id(9)], 2), Ok(Vec::new()));
    assert!(m.get_fragments(&vec![vec![1]], 3).is_err());
}

#[test]
fn client_error_messages() {
    assert_eq!(
        MockClientError::InvalidRequest("boom".to_string()).message(),
        "request failed with message 'boom'"
    );
    assert_eq!(
        MockClientError::InvalidAddressFormat("x:y".to_string()).message(),
        "could not parse address 'x:y'. HINT: accepted format example: /ip4/127.0.0.1/tcp/9000"
    );
}

#[test]
fn protocol_codes() {
    assert_eq!(ProtocolVersion::Bft.code(), 0);
    assert_eq!(ProtocolVersion::GenesisPraos.code(), 1);
}

// L1005 Handshake version discrepancy
#[test]
pub fn wrong_protocol() {
    let node_genesis = genesis_hash();
    let mut mock_controller = MockServer::new(config(ProtocolVersion::Bft), Vec::new());
    let response = mock_controller.handshake(&vec![0; 8], 1).unwrap();
    let mock_result =
        mock_controller.finish_and_verify(CallPredicate::ExecutedAtLeastOnce(MethodType::Handshake));
    assert_eq!(mock_result, MockExitCode::Success, "Handshake with mock never happened");
    assert_ne!(response.version, ProtocolVersion::GenesisPraos.code());
    assert_eq!(response.block0, node_genesis);
}

// L1004 Handshake hash discrepancy
#[test]
pub fn wrong_genesis_hash() {
    let node_genesis = genesis_hash();
    let mut c = config(ProtocolVersion::GenesisPraos);
    c.genesis_hash = id(0xee);
    c.tip_header = Some(vec![1, 2, 3]);
    let mut mock_controller = MockServer::new(c, Vec::new());
    let response = mock_controller.handshake(&vec![0; 8], 1).unwrap();
    let mock_result =
        mock_controller.finish_and_verify(CallPredicate::ExecutedAtLeastOnce(MethodType::Handshake));
    assert_eq!(mock_result, MockExitCode::Success, "Handshake with mock never happened");
    assert_ne!(response.block0, node_genesis);
}

// L1002 Handshake compatible
#[test]
pub fn handshake_ok() {
    let node_genesis = genesis_hash();
    let mut mock_controller = MockServer::new(config(ProtocolVersion::GenesisPraos), Vec::new());
    let response = mock_controller.handshake(&vec![0; 8], 1).unwrap();
    let mock_result =
        mock_controller.finish_and_verify(CallPredicate::ExecutedAtLeastOnce(MethodType::Handshake));
    assert_eq!(mock_result, MockExitCode::Success, "Handshake with mock never happened");
    assert_eq!(response.version, ProtocolVersion::GenesisPraos.code());
    assert_eq!(response.block0, node_genesis);
}
