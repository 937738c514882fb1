use preers::controller::{Action, Command, Controller, Event};
use preers::ids::{Cookie, Namespace, PeerId};
use preers::multiaddr::{Multiaddr, Protocol};

fn peer(name: &[u8]) -> PeerId {
    PeerId { bytes: name.to_vec() }
}

fn addr_9000() -> Multiaddr {
    Multiaddr { parts: vec![Protocol::Ip4(127, 0, 0, 1), Protocol::Tcp(9000)] }
}

fn controller() -> Controller {
    Controller::new(false, false, Vec::new())
}

#[test]
fn add_rendezvous_dials_and_records() {
    let mut c = controller();
    let acts = c.handle_command(Command::AddRendezvous(addr_9000()));
    assert_eq!(acts.len(), 1);
    match &acts[0] {
        Action::DialAddress { connection_id, address } => {
            assert_eq!(*connection_id, 0);
            assert_eq!(address.parts.len(), 2);
        },
        _ => panic!("expected a dial"),
    }
    assert_eq!(c.rendezvous_list.len(), 1);
    assert_eq!(c.pending_rendezvous, vec![0]);
    assert_eq!(c.next_connection_id, 1);
}

#[test]
fn pending_dial_becomes_rendezvous_point() {
    let mut c = controller();
    c.handle_command(Command::AddRendezvous(addr_9000()));
    let acts = c.handle_event(Event::ConnectionEstablished {
        peer: peer(b"A"),
        connection_id: 0,
        dial_address: Some(addr_9000()),
    });
    assert_eq!(acts.len(), 1);
    match &acts[0] {
        Action::SpawnRendezvousTicker { rendezvous } => assert_eq!(rendezvous.bytes, b"A".to_vec()),
        _ => panic!("expected the ticker"),
    }
    assert!(c.pending_rendezvous.is_empty());
    assert_eq!(c.rendezvous_points.len(), 1);
    assert_eq!(c.peers.len(), 1);
}

#[test]
fn failed_dial_drops_the_pending_entry() {
    let mut c = controller();
    c.handle_command(Command::AddRendezvous(addr_9000()));
    let acts = c.handle_event(Event::OutgoingConnectionError { connection_id: 0 });
    assert!(acts.is_empty());
    assert!(c.pending_rendezvous.is_empty());
    // the same connection id no longer marks a rendezvous point
    let acts = c.handle_event(Event::ConnectionEstablished {
        peer: peer(b"A"),
        connection_id: 0,
        dial_address: None,
    });
    assert!(acts.is_empty());
    assert!(c.rendezvous_points.is_empty());
}

#[test]
fn talk_registers_once_and_discovers_both_namespaces() {
    let mut c = controller();
    let acts = c.handle_command(Command::TalkToRendezvous(peer(b"A")));
    assert_eq!(acts.len(), 3);
    assert!(matches!(&acts[0], Action::Register { namespace: Namespace::Preers, ttl_seconds: 7200, .. }));
    assert!(matches!(&acts[1], Action::Discover { namespace: Namespace::Relay, cookie: None, .. }));
    assert!(matches!(&acts[2], Action::Discover { namespace: Namespace::Preers, cookie: None, .. }));
}

#[test]
fn relay_node_registers_under_both_namespaces() {
    let mut c = Controller::new(true, false, Vec::new());
    let acts = c.handle_command(Command::TalkToRendezvous(peer(b"A")));
    // two registrations, no relay discovery, one participating-nodes
    // discovery
    assert_eq!(acts.len(), 3);
    assert!(matches!(&acts[0], Action::Register { namespace: Namespace::Preers, .. }));
    assert!(matches!(&acts[1], Action::Register { namespace: Namespace::Relay, .. }));
    assert!(matches!(&acts[2], Action::Discover { namespace: Namespace::Preers, .. }));
}

#[test]
fn discovery_stores_cookie_and_replays_it() {
    let mut c = controller();
    let acts = c.handle_event(Event::Discovered {
        rendezvous: peer(b"A"),
        namespace: Some(Namespace::Preers),
        cookie: Cookie { token: 41 },
        peers: vec![peer(b"Q")],
    });
    assert!(acts.is_empty());
    // the next discovery against A replays cookie 41
    let acts = c.handle_command(Command::TalkToRendezvous(peer(b"A")));
    match &acts[2] {
        Action::Discover { namespace: Namespace::Preers, cookie, .. } => {
            assert_eq!(*cookie, Some(Cookie { token: 41 }));
        },
        _ => panic!("expected the participating-nodes discovery"),
    }
    // a fresh cookie replaces it; the old one is never replayed again
    c.handle_event(Event::Discovered {
        rendezvous: peer(b"A"),
        namespace: Some(Namespace::Preers),
        cookie: Cookie { token: 42 },
        peers: Vec::new(),
    });
    let acts = c.handle_command(Command::TalkToRendezvous(peer(b"A")));
    match &acts[2] {
        Action::Discover { namespace: Namespace::Preers, cookie, .. } => {
            assert_eq!(*cookie, Some(Cookie { token: 42 }));
        },
        _ => panic!("expected the participating-nodes discovery"),
    }
    // another rendezvous point still has no cookie
    let acts = c.handle_command(Command::TalkToRendezvous(peer(b"B")));
    assert!(matches!(&acts[2], Action::Discover { cookie: None, .. }));
}

#[test]
fn discovery_adds_peers_to_known_set() {
    let mut c = controller();
    c.handle_event(Event::Discovered {
        rendezvous: peer(b"A"),
        namespace: Some(Namespace::Preers),
        cookie: Cookie { token: 1 },
        peers: vec![peer(b"Q"), peer(b"R")],
    });
    let acts = c.handle_command(Command::GetNetworkInfo);
    match &acts[0] {
        Action::ReplyNetworkInfo { peers } => {
            let names: Vec<&[u8]> = peers.iter().map(|p| p.bytes.as_slice()).collect();
            assert!(names.contains(&b"Q".as_slice()));
            assert!(names.contains(&b"R".as_slice()));
        },
        _ => panic!("expected the report"),
    }
}

#[test]
fn relay_discovery_dials_each_registration_once() {
    let mut c = controller();
    let acts = c.handle_event(Event::Discovered {
        rendezvous: peer(b"A"),
        namespace: Some(Namespace::Relay),
        cookie: Cookie { token: 1 },
        peers: vec![peer(b"R1"), peer(b"R2")],
    });
    assert_eq!(acts.len(), 2);
    match (&acts[0], &acts[1]) {
        (
            Action::DialPeer { connection_id: c1, peer: p1 },
            Action::DialPeer { connection_id: c2, peer: p2 },
        ) => {
            assert_eq!(*c1, 0);
            assert_eq!(*c2, 1);
            assert_eq!(p1.bytes, b"R1".to_vec());
            assert_eq!(p2.bytes, b"R2".to_vec());
        },
        _ => panic!("expected two dials"),
    }
    assert_eq!(c.relays.len(), 2);
    assert_eq!(c.pending_relay, vec![0, 1]);
}

#[test]
fn relay_server_notes_relays_without_dialing() {
    let mut c = Controller::new(true, false, Vec::new());
    let acts = c.handle_command(Command::AddRelay(peer(b"R")));
    assert!(acts.is_empty());
    assert_eq!(c.relays.len(), 1);
    assert!(c.pending_relay.is_empty());
}

#[test]
fn add_relay_dials_even_when_already_known() {
    let mut c = controller();
    let first = c.handle_command(Command::AddRelay(peer(b"R")));
    let second = c.handle_command(Command::AddRelay(peer(b"R")));
    assert_eq!(first.len(), 1);
    assert_eq!(second.len(), 1);
    assert_eq!(c.relays.len(), 1);
    assert_eq!(c.pending_relay, vec![0, 1]);
}

#[test]
fn connection_to_known_relay_listens_on_circuit_address() {
    let mut c = controller();
    c.handle_command(Command::AddRelay(peer(b"R")));
    let mut dialed = addr_9000();
    dialed.parts.push(Protocol::P2p(peer(b"R")));
    let acts = c.handle_event(Event::ConnectionEstablished {
        peer: peer(b"R"),
        connection_id: 0,
        dial_address: Some(dialed),
    });
    assert_eq!(acts.len(), 1);
    match &acts[0] {
        Action::ListenOn { address } => {
            assert_eq!(address.parts.len(), 4);
            assert!(matches!(address.parts[2], Protocol::P2p(_)));
            assert!(matches!(address.parts[3], Protocol::P2pCircuit));
        },
        _ => panic!("expected a circuit listen"),
    }
}

#[test]
fn external_address_confirmation_replays_registrations() {
    let mut c = controller();
    c.handle_command(Command::AddRendezvous(addr_9000()));
    // before confirmation, only the dial was issued: no registration yet
    c.handle_event(Event::ConnectionEstablished {
        peer: peer(b"A"),
        connection_id: 0,
        dial_address: Some(addr_9000()),
    });
    c.handle_event(Event::ConnectionEstablished {
        peer: peer(b"B"),
        connection_id: 99,
        dial_address: None,
    });
    let acts = c.handle_event(Event::ExternalAddrConfirmed { address: addr_9000() });
    // exactly one registration per rendezvous point (B is not one)
    assert_eq!(acts.len(), 1);
    match &acts[0] {
        Action::Register { rendezvous, namespace: Namespace::Preers, ttl_seconds } => {
            assert_eq!(rendezvous.bytes, b"A".to_vec());
            assert_eq!(*ttl_seconds, 7200);
        },
        _ => panic!("expected one registration"),
    }
}

#[test]
fn reservation_acceptance_replays_registrations() {
    let mut c = controller();
    c.handle_command(Command::AddRendezvous(addr_9000()));
    c.handle_event(Event::ConnectionEstablished {
        peer: peer(b"A"),
        connection_id: 0,
        dial_address: Some(addr_9000()),
    });
    let acts = c.handle_event(Event::ReservationAccepted { relay: peer(b"R") });
    assert_eq!(acts.len(), 1);
    assert!(matches!(&acts[0], Action::Register { namespace: Namespace::Preers, .. }));
}

#[test]
fn use_service_discovers_before_spawning() {
    let mut c = controller();
    c.handle_command(Command::AddRendezvous(addr_9000()));
    c.handle_event(Event::ConnectionEstablished {
        peer: peer(b"A"),
        connection_id: 0,
        dial_address: Some(addr_9000()),
    });
    let record = preers::records::UseService {
        id: 1,
        peer_id: peer(b"P"),
        host: b"127.0.0.1".to_vec(),
        port: 7000,
        forwarder_port: 17000,
    };
    let acts = c.handle_command(Command::UseService(record));
    assert_eq!(acts.len(), 2);
    assert!(matches!(&acts[0], Action::Discover { namespace: Namespace::Preers, .. }));
    match &acts[1] {
        Action::SpawnForwarder { service } => {
            assert_eq!(service.forwarder_port, 17000);
            assert_eq!(service.peer_id.bytes, b"P".to_vec());
        },
        _ => panic!("expected the forwarder"),
    }
}

#[test]
fn provide_service_feeds_the_allow_set() {
    let mut c = controller();
    let record = preers::records::ProvideService { id: 1, host: b"127.0.0.1".to_vec(), port: 7000 };
    let acts = c.handle_command(Command::ProvideService(record));
    assert_eq!(acts.len(), 1);
    match &acts[0] {
        Action::AddAllowedService { service } => assert_eq!(service.port, 7000),
        _ => panic!("expected the allow-set entry"),
    }
}

#[test]
fn new_listen_address_becomes_external() {
    let mut c = controller();
    let acts = c.handle_event(Event::NewListenAddr { address: addr_9000() });
    assert_eq!(acts.len(), 1);
    assert!(matches!(&acts[0], Action::ConfirmExternalAddress { .. }));
}

#[test]
fn init_listens_dials_and_reports() {
    let mut c = Controller::new(false, false, vec![addr_9000()]);
    let used = vec![preers::records::UseService {
        id: 1,
        peer_id: peer(b"P"),
        host: b"127.0.0.1".to_vec(),
        port: 7000,
        forwarder_port: 17000,
    }];
    let provided = vec![preers::records::ProvideService {
        id: 1,
        host: b"127.0.0.1".to_vec(),
        port: 7000,
    }];
    let acts = c.init(9000, used, provided, None);
    // four listens, one dial, one forwarder, one allow-set entry
    assert_eq!(acts.len(), 7);
    assert!(matches!(&acts[0], Action::ListenOn { .. }));
    assert!(matches!(&acts[3], Action::ListenOn { .. }));
    assert!(matches!(&acts[4], Action::DialAddress { connection_id: 0, .. }));
    assert!(matches!(&acts[5], Action::SpawnForwarder { .. }));
    assert!(matches!(&acts[6], Action::AddAllowedService { .. }));
    assert_eq!(c.pending_rendezvous, vec![0]);
}

#[test]
fn log_only_events_change_nothing() {
    let mut c = controller();
    assert!(c.handle_event(Event::Registered {
        rendezvous: peer(b"A"),
        namespace: Namespace::Preers,
        ttl_seconds: 7200,
    }).is_empty());
    assert!(c.handle_event(Event::RegisterFailed {
        rendezvous: peer(b"A"),
        namespace: Namespace::Preers,
    }).is_empty());
    assert!(c.handle_event(Event::PingSuccess { peer: peer(b"A") }).is_empty());
    assert!(c.handle_event(Event::ConnectionClosed { peer: peer(b"A") }).is_empty());
    assert!(c.peers.is_empty());
}
