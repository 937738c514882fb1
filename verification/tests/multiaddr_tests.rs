use preers::ids::PeerId;
use preers::multiaddr::{listen_addresses, relay_listen_address, Multiaddr, Protocol};

fn peer(name: &[u8]) -> PeerId {
    PeerId { bytes: name.to_vec() }
}

#[test]
fn relay_address_gains_peer_and_circuit() {
    let dialed = Multiaddr { parts: vec![Protocol::Ip4(127, 0, 0, 1), Protocol::Tcp(9001)] };
    let listen = relay_listen_address(&dialed, &peer(b"R"));
    assert_eq!(listen.parts.len(), 4);
    match &listen.parts[2] {
        Protocol::P2p(p) => assert_eq!(p.bytes, b"R".to_vec()),
        _ => panic!("expected the peer-id component"),
    }
    assert!(matches!(listen.parts[3], Protocol::P2pCircuit));
}

#[test]
fn relay_address_keeps_existing_peer_component() {
    let dialed = Multiaddr {
        parts: vec![
            Protocol::Ip4(127, 0, 0, 1),
            Protocol::Tcp(9001),
            Protocol::P2p(peer(b"R")),
        ],
    };
    let listen = relay_listen_address(&dialed, &peer(b"R"));
    assert_eq!(listen.parts.len(), 4);
    assert!(matches!(listen.parts[3], Protocol::P2pCircuit));
}

#[test]
fn relay_address_appends_when_suffix_names_another_peer() {
    let dialed = Multiaddr {
        parts: vec![Protocol::Tcp(9001), Protocol::P2p(peer(b"OTHER"))],
    };
    let listen = relay_listen_address(&dialed, &peer(b"R"));
    assert_eq!(listen.parts.len(), 4);
    match &listen.parts[2] {
        Protocol::P2p(p) => assert_eq!(p.bytes, b"R".to_vec()),
        _ => panic!("expected the peer-id component"),
    }
}

#[test]
fn ends_with_p2p_checks_the_last_component() {
    let mut addr = Multiaddr { parts: vec![Protocol::Tcp(1)] };
    assert!(!addr.ends_with_p2p(&peer(b"R")));
    addr.with(Protocol::P2p(peer(b"R")));
    assert!(addr.ends_with_p2p(&peer(b"R")));
    assert!(!addr.ends_with_p2p(&peer(b"S")));
}

#[test]
fn startup_listens_on_both_stacks_and_transports() {
    let addrs = listen_addresses(9000);
    assert_eq!(addrs.len(), 4);
    assert!(matches!(addrs[0].parts[0], Protocol::Ip4(0, 0, 0, 0)));
    assert!(matches!(addrs[0].parts[1], Protocol::Tcp(9000)));
    assert!(matches!(addrs[1].parts[0], Protocol::Ip6(_)));
    assert!(matches!(addrs[2].parts[1], Protocol::Udp(9000)));
    assert!(matches!(addrs[2].parts[2], Protocol::QuicV1));
    assert!(matches!(addrs[3].parts[2], Protocol::QuicV1));
}
