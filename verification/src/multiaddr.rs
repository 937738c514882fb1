//! Multiaddresses: self-describing addresses on the overlay, an ordered
//! list of protocol components.
//!
//! The components modelled are the ones the daemon produces or inspects:
//! IP, DNS names, TCP and UDP ports, the QUIC marker, the peer-id
//! component and the circuit-relay marker. The controller appends the
//! peer-id and circuit-relay components to a dialed relay address to
//! obtain the address it listens on for a reservation.

use vstd::prelude::*;
use crate::ids::PeerId;

verus! {

/// An IPv6 address as its eight 16-bit segments.
#[derive(Clone, Copy, Debug, PartialEq, Eq, Structural)]
pub struct Ipv6Segments {
    pub s0: u16,
    pub s1: u16,
    pub s2: u16,
    pub s3: u16,
    pub s4: u16,
    pub s5: u16,
    pub s6: u16,
    pub s7: u16,
}

/// One protocol component of a multiaddress.
pub enum Protocol {
    Ip4(u8, u8, u8, u8),
    Ip6(Ipv6Segments),
    Dns(Vec<u8>),
    Tcp(u16),
    Udp(u16),
    QuicV1,
    P2p(PeerId),
    P2pCircuit,
}

/// Mathematical value of a [`Protocol`].
#[verifier::ext_equal]
pub enum ProtocolSpec {
    Ip4(u8, u8, u8, u8),
    Ip6(Ipv6Segments),
    Dns(Seq<u8>),
    Tcp(u16),
    Udp(u16),
    QuicV1,
    P2p(Seq<u8>),
    P2pCircuit,
}

impl View for Protocol {
    type V = ProtocolSpec;

    open spec fn view(&self) -> ProtocolSpec {
        match self {
            Protocol::Ip4(a, b, c, d) => ProtocolSpec::Ip4(*a, *b, *c, *d),
            Protocol::Ip6(s) => ProtocolSpec::Ip6(*s),
            Protocol::Dns(name) => ProtocolSpec::Dns(name@),
            Protocol::Tcp(p) => ProtocolSpec::Tcp(*p),
            Protocol::Udp(p) => ProtocolSpec::Udp(*p),
            Protocol::QuicV1 => ProtocolSpec::QuicV1,
            Protocol::P2p(peer) => ProtocolSpec::P2p(peer@),
            Protocol::P2pCircuit => ProtocolSpec::P2pCircuit,
        }
    }
}

impl Clone for Protocol {
    fn clone(&self) -> (r: Self)
        ensures
            r@ == self@,
    {
        match self {
            Protocol::Ip4(a, b, c, d) => Protocol::Ip4(*a, *b, *c, *d),
            Protocol::Ip6(s) => Protocol::Ip6(*s),
            Protocol::Dns(name) => Protocol::Dns(vstd::slice::slice_to_vec(name.as_slice())),
            Protocol::Tcp(p) => Protocol::Tcp(*p),
            Protocol::Udp(p) => Protocol::Udp(*p),
            Protocol::QuicV1 => Protocol::QuicV1,
            Protocol::P2p(peer) => Protocol::P2p(peer.clone()),
            Protocol::P2pCircuit => Protocol::P2pCircuit,
        }
    }
}

/// A multiaddress: an ordered list of protocol components.
pub struct Multiaddr {
    pub parts: Vec<Protocol>,
}

impl View for Multiaddr {
    type V = Seq<ProtocolSpec>;

    open spec fn view(&self) -> Seq<ProtocolSpec> {
        self.parts@.map_values(|p: Protocol| p@)
    }
}

impl Clone for Multiaddr {
    fn clone(&self) -> (r: Self)
        ensures
            r@ == self@,
    {
        let mut parts: Vec<Protocol> = Vec::new();
        let mut i: usize = 0;
        while i < self.parts.len()
            invariant
                i <= self.parts@.len(),
                parts@.len() == i,
                forall|j: int| 0 <= j < i ==> parts@[j]@ == self.parts@[j]@,
            decreases self.parts@.len() - i,
        {
            parts.push(self.parts[i].clone());
            i = i + 1;
        }
        let r = Multiaddr { parts };
        assert(r@ =~= self@);
        r
    }
}

impl Multiaddr {
    /// The empty multiaddress.
    pub fn empty() -> (r: Multiaddr)
        ensures
            r@ == Seq::<ProtocolSpec>::empty(),
    {
        let parts: Vec<Protocol> = Vec::new();
        assert(parts@.map_values(|p: Protocol| p@) =~= Seq::<ProtocolSpec>::empty());
        Multiaddr { parts }
    }

    /// Append one component.
    pub fn with(&mut self, part: Protocol)
        ensures
            final(self)@ == old(self)@.push(part@),
    {
        let ghost part_view = part@;
        self.parts.push(part);
        assert(final(self)@ =~= old(self)@.push(part_view));
    }

    /// Whether the last component is the peer-id component of `peer`.
    pub fn ends_with_p2p(&self, peer: &PeerId) -> (r: bool)
        ensures
            r == (self@.len() > 0 && self@.last() == ProtocolSpec::P2p(peer@)),
    {
        if self.parts.len() == 0 {
            return false;
        }
        match &self.parts[self.parts.len() - 1] {
            Protocol::P2p(p) => p.same_as(peer),
            _ => false,
        }
    }
}

/// The address a node listens on to obtain a reservation from a relay it
/// dialed at `address`: the dialed address, given the relay's peer-id
/// component if it lacks one, then the circuit-relay marker.
pub open spec fn spec_relay_listen_address(address: Seq<ProtocolSpec>, relay: Seq<u8>) -> Seq<
    ProtocolSpec,
> {
    (if address.len() > 0 && address.last() == ProtocolSpec::P2p(relay) {
        address
    } else {
        address.push(ProtocolSpec::P2p(relay))
    }).push(ProtocolSpec::P2pCircuit)
}

/// Compute the address to listen on for a reservation from `relay`
/// dialed at `address`.
pub fn relay_listen_address(address: &Multiaddr, relay: &PeerId) -> (r: Multiaddr)
    ensures
        r@ == spec_relay_listen_address(address@, relay@),
{
    let mut out = address.clone();
    if !address.ends_with_p2p(relay) {
        out.with(Protocol::P2p(relay.clone()));
    }
    out.with(Protocol::P2pCircuit);
    out
}

/// The any-interface addresses a node listens on at start, for port
/// `port`: IPv4 and IPv6, over TCP and over QUIC.
pub fn listen_addresses(port: u16) -> (r: Vec<Multiaddr>)
    ensures
        r@.len() == 4,
        r@[0]@ == seq![ProtocolSpec::Ip4(0, 0, 0, 0), ProtocolSpec::Tcp(port)],
        r@[1]@ == seq![
            ProtocolSpec::Ip6(Ipv6Segments { s0: 0, s1: 0, s2: 0, s3: 0, s4: 0, s5: 0, s6: 0, s7: 0 }),
            ProtocolSpec::Tcp(port),
        ],
        r@[2]@ == seq![ProtocolSpec::Ip4(0, 0, 0, 0), ProtocolSpec::Udp(port), ProtocolSpec::QuicV1],
        r@[3]@ == seq![
            ProtocolSpec::Ip6(Ipv6Segments { s0: 0, s1: 0, s2: 0, s3: 0, s4: 0, s5: 0, s6: 0, s7: 0 }),
            ProtocolSpec::Udp(port),
            ProtocolSpec::QuicV1,
        ],
{
    let any6 = Ipv6Segments { s0: 0, s1: 0, s2: 0, s3: 0, s4: 0, s5: 0, s6: 0, s7: 0 };
    let mut tcp4 = Multiaddr::empty();
    tcp4.with(Protocol::Ip4(0, 0, 0, 0));
    tcp4.with(Protocol::Tcp(port));
    let mut tcp6 = Multiaddr::empty();
    tcp6.with(Protocol::Ip6(any6));
    tcp6.with(Protocol::Tcp(port));
    let mut quic4 = Multiaddr::empty();
    quic4.with(Protocol::Ip4(0, 0, 0, 0));
    quic4.with(Protocol::Udp(port));
    quic4.with(Protocol::QuicV1);
    let mut quic6 = Multiaddr::empty();
    quic6.with(Protocol::Ip6(any6));
    quic6.with(Protocol::Udp(port));
    quic6.with(Protocol::QuicV1);
    let mut r: Vec<Multiaddr> = Vec::new();
    r.push(tcp4);
    r.push(tcp6);
    r.push(quic4);
    r.push(quic6);
    assert(r@[0]@ =~= seq![ProtocolSpec::Ip4(0, 0, 0, 0), ProtocolSpec::Tcp(port)]);
    assert(r@[1]@ =~= seq![
        ProtocolSpec::Ip6(Ipv6Segments { s0: 0, s1: 0, s2: 0, s3: 0, s4: 0, s5: 0, s6: 0, s7: 0 }),
        ProtocolSpec::Tcp(port),
    ]);
    assert(r@[2]@ =~= seq![
        ProtocolSpec::Ip4(0, 0, 0, 0),
        ProtocolSpec::Udp(port),
        ProtocolSpec::QuicV1,
    ]);
    assert(r@[3]@ =~= seq![
        ProtocolSpec::Ip6(Ipv6Segments { s0: 0, s1: 0, s2: 0, s3: 0, s4: 0, s5: 0, s6: 0, s7: 0 }),
        ProtocolSpec::Udp(port),
        ProtocolSpec::QuicV1,
    ]);
    r
}

} // verus!
