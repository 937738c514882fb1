use preers::codec::{decode_resp, encode_req, UseServiceReq};
use preers::framing::{decode_frame, encode_frame, FrameDecode};
use preers::ip::IpLiteral;
use preers::proxy::{
    provider_handle_message, AllowSet, ForwarderSession, ForwarderSessionState, ProviderSession,
    ProviderSessionState, ProviderStep,
};

fn allow_of(entries: &[(&[u8], u16)]) -> AllowSet {
    let mut allow = AllowSet::new();
    for (host, port) in entries {
        allow.insert(host.to_vec(), *port);
    }
    allow
}

fn request_message(host: &[u8], port: u32) -> Vec<u8> {
    encode_req(&UseServiceReq { host: host.to_vec(), port })
}

fn resp_allowed(frame: &[u8]) -> bool {
    match decode_frame(&frame.to_vec(), 0) {
        FrameDecode::Frame(body, _) => decode_resp(&body).expect("response decodes").allowed,
        _ => panic!("expected a whole response frame"),
    }
}

#[test]
fn allowed_request_is_accepted() {
    let allow = allow_of(&[(b"127.0.0.1", 7000)]);
    let message = request_message(b"127.0.0.1", 7000);
    match provider_handle_message(&allow, &message) {
        ProviderStep::Accept { response, target } => {
            assert!(resp_allowed(&response));
            assert_eq!(target.ip, IpLiteral::V4(127, 0, 0, 1));
            assert_eq!(target.port, 7000);
        },
        _ => panic!("expected the request to be served"),
    }
}

#[test]
fn allowed_ipv6_request_is_accepted() {
    let allow = allow_of(&[(b"[::1]", 7000)]);
    let message = request_message(b"[::1]", 7000);
    match provider_handle_message(&allow, &message) {
        ProviderStep::Accept { response, target } => {
            assert!(resp_allowed(&response));
            match target.ip {
                IpLiteral::V6(s, scope) => {
                    assert_eq!((s.s0, s.s1, s.s2, s.s3, s.s4, s.s5, s.s6, s.s7), (0, 0, 0, 0, 0, 0, 0, 1));
                    assert_eq!(scope, 0);
                },
                _ => panic!("expected an IPv6 target"),
            }
            assert_eq!(target.port, 7000);
        },
        _ => panic!("expected the request to be served"),
    }
}

#[test]
fn unbracketed_ipv6_host_is_refused() {
    // "::1:7000" is not a valid socket-address text, so the original
    // refused it too
    let allow = allow_of(&[(b"::1", 7000)]);
    let message = request_message(b"::1", 7000);
    match provider_handle_message(&allow, &message) {
        ProviderStep::Reject { response } => assert!(!resp_allowed(&response)),
        _ => panic!("expected an unbracketed IPv6 host to be refused"),
    }
}

#[test]
fn unknown_port_is_refused_without_dialing() {
    let allow = allow_of(&[(b"127.0.0.1", 7000)]);
    let message = request_message(b"127.0.0.1", 7001);
    match provider_handle_message(&allow, &message) {
        ProviderStep::Reject { response } => assert!(!resp_allowed(&response)),
        _ => panic!("expected the request to be refused"),
    }
}

#[test]
fn host_name_is_refused_by_policy() {
    let allow = allow_of(&[(b"localhost", 7000)]);
    let message = request_message(b"localhost", 7000);
    match provider_handle_message(&allow, &message) {
        ProviderStep::Reject { response } => assert!(!resp_allowed(&response)),
        _ => panic!("expected a non-literal host to be refused"),
    }
}

#[test]
fn undecodable_frame_is_dropped_without_answer() {
    let allow = allow_of(&[(b"127.0.0.1", 7000)]);
    let garbage = vec![0x80u8, 0x80, 0x80];
    assert!(matches!(provider_handle_message(&allow, &garbage), ProviderStep::Drop));
}

#[test]
fn port_over_16_bits_is_refused() {
    // 72536 truncates to 7000 for the allow-set check but cannot name a
    // socket port
    let allow = allow_of(&[(b"127.0.0.1", 7000)]);
    let message = request_message(b"127.0.0.1", 72536);
    match provider_handle_message(&allow, &message) {
        ProviderStep::Reject { response } => assert!(!resp_allowed(&response)),
        _ => panic!("expected an oversized port to be refused"),
    }
}

#[test]
fn duplicate_inserts_keep_one_entry() {
    let mut allow = AllowSet::new();
    allow.insert(b"10.0.0.1".to_vec(), 80);
    allow.insert(b"10.0.0.1".to_vec(), 80);
    assert_eq!(allow.entries.len(), 1);
    assert!(allow.contains(&b"10.0.0.1".to_vec(), 80));
    assert!(!allow.contains(&b"10.0.0.1".to_vec(), 81));
}

#[test]
fn provider_session_accept_path() {
    let allow = allow_of(&[(b"127.0.0.1", 7000)]);
    let mut session = ProviderSession::new();
    assert_eq!(session.state, ProviderSessionState::AwaitingRequest);
    let message = request_message(b"127.0.0.1", 7000);
    let step = session.on_request_message(&allow, &message);
    assert!(matches!(step, ProviderStep::Accept { .. }));
    assert_eq!(session.state, ProviderSessionState::Validated);
    session.on_dialed(true);
    assert_eq!(session.state, ProviderSessionState::Splicing);
    session.on_splice_end();
    assert_eq!(session.state, ProviderSessionState::Closed);
}

#[test]
fn provider_session_reject_path() {
    let allow = AllowSet::new();
    let mut session = ProviderSession::new();
    let message = request_message(b"127.0.0.1", 7001);
    let step = session.on_request_message(&allow, &message);
    assert!(matches!(step, ProviderStep::Reject { .. }));
    assert_eq!(session.state, ProviderSessionState::Rejected);
    session.on_reject_sent();
    assert_eq!(session.state, ProviderSessionState::Closed);
}

#[test]
fn provider_session_dial_failure_closes() {
    let allow = allow_of(&[(b"127.0.0.1", 7000)]);
    let mut session = ProviderSession::new();
    let message = request_message(b"127.0.0.1", 7000);
    session.on_request_message(&allow, &message);
    session.on_dialed(false);
    assert_eq!(session.state, ProviderSessionState::Closed);
}

#[test]
fn handshake_end_to_end_echo_decision() {
    // the user forwarder and the provider acceptor agree on the wire:
    // the forwarder's request frame is served and the provider's answer
    // lets the forwarder bridge
    let allow = allow_of(&[(b"127.0.0.1", 7000)]);
    let mut forwarder = ForwarderSession::new();
    let frame = forwarder
        .handshake_frame(&b"127.0.0.1".to_vec(), 7000)
        .expect("request under the cap");
    assert_eq!(forwarder.state, ForwarderSessionState::HandshakeSent);

    let (request, _) = match decode_frame(&frame, 0) {
        FrameDecode::Frame(body, next) => (body, next),
        _ => panic!("expected a whole request frame"),
    };
    let mut provider = ProviderSession::new();
    let response = match provider.on_request_message(&allow, &request) {
        ProviderStep::Accept { response, target } => {
            assert_eq!(target.port, 7000);
            response
        },
        _ => panic!("expected the request to be served"),
    };
    provider.on_dialed(true);

    let response_body = match decode_frame(&response, 0) {
        FrameDecode::Frame(body, _) => body,
        _ => panic!("expected a whole response frame"),
    };
    assert!(forwarder.on_response_message(&response_body));
    assert_eq!(forwarder.state, ForwarderSessionState::HandshakeResolved);
    forwarder.on_splice_start();
    forwarder.on_splice_end();
    assert_eq!(forwarder.state, ForwarderSessionState::Closed);
}

#[test]
fn forwarder_abandons_on_refusal() {
    let allow = AllowSet::new();
    let mut forwarder = ForwarderSession::new();
    let frame = forwarder
        .handshake_frame(&b"127.0.0.1".to_vec(), 7001)
        .expect("request under the cap");
    let request = match decode_frame(&frame, 0) {
        FrameDecode::Frame(body, _) => body,
        _ => panic!("expected a whole request frame"),
    };
    let mut provider = ProviderSession::new();
    let response = match provider.on_request_message(&allow, &request) {
        ProviderStep::Reject { response } => response,
        _ => panic!("expected the request to be refused"),
    };
    let response_body = match decode_frame(&response, 0) {
        FrameDecode::Frame(body, _) => body,
        _ => panic!("expected a whole response frame"),
    };
    assert!(!forwarder.on_response_message(&response_body));
    assert_eq!(forwarder.state, ForwarderSessionState::Closed);
}

#[test]
fn oversized_host_cannot_be_requested() {
    let mut forwarder = ForwarderSession::new();
    let long_host = vec![b'a'; 1100];
    assert!(forwarder.handshake_frame(&long_host, 80).is_none());
    assert_eq!(forwarder.state, ForwarderSessionState::Closed);
}
