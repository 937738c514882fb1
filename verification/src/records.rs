//! The records the daemon is administered with: rendezvous addresses,
//! provided services, and used services, together with the report of the
//! node's view of the network.

use vstd::prelude::*;
use crate::ids::PeerId;
use crate::multiaddr::{Multiaddr, ProtocolSpec};

verus! {

/// A rendezvous server the node should talk to.
pub struct Rendezvous {
    pub id: i64,
    pub multiaddr: Multiaddr,
}

/// Mathematical value of a [`Rendezvous`].
#[verifier::ext_equal]
pub struct RendezvousSpec {
    pub id: i64,
    pub multiaddr: Seq<ProtocolSpec>,
}

impl View for Rendezvous {
    type V = RendezvousSpec;

    open spec fn view(&self) -> RendezvousSpec {
        RendezvousSpec { id: self.id, multiaddr: self.multiaddr@ }
    }
}

/// A local TCP endpoint the node permits inbound overlay users to reach.
pub struct ProvideService {
    pub id: i64,
    pub host: Vec<u8>,
    pub port: u16,
}

/// Mathematical value of a [`ProvideService`].
#[verifier::ext_equal]
pub struct ProvideServiceSpec {
    pub id: i64,
    pub host: Seq<u8>,
    pub port: u16,
}

impl View for ProvideService {
    type V = ProvideServiceSpec;

    open spec fn view(&self) -> ProvideServiceSpec {
        ProvideServiceSpec { id: self.id, host: self.host@, port: self.port }
    }
}

impl Clone for ProvideService {
    fn clone(&self) -> (r: Self)
        ensures
            r@ == self@,
    {
        ProvideService {
            id: self.id,
            host: vstd::slice::slice_to_vec(self.host.as_slice()),
            port: self.port,
        }
    }
}

/// A remote endpoint on a named peer, fronted locally by a TCP listener
/// on `forwarder_port`.
pub struct UseService {
    pub id: i64,
    pub peer_id: PeerId,
    pub host: Vec<u8>,
    pub port: u16,
    pub forwarder_port: u16,
}

/// Mathematical value of a [`UseService`].
#[verifier::ext_equal]
pub struct UseServiceSpec {
    pub id: i64,
    pub peer_id: Seq<u8>,
    pub host: Seq<u8>,
    pub port: u16,
    pub forwarder_port: u16,
}

impl View for UseService {
    type V = UseServiceSpec;

    open spec fn view(&self) -> UseServiceSpec {
        UseServiceSpec {
            id: self.id,
            peer_id: self.peer_id@,
            host: self.host@,
            port: self.port,
            forwarder_port: self.forwarder_port,
        }
    }
}

impl Clone for UseService {
    fn clone(&self) -> (r: Self)
        ensures
            r@ == self@,
    {
        UseService {
            id: self.id,
            peer_id: self.peer_id.clone(),
            host: vstd::slice::slice_to_vec(self.host.as_slice()),
            port: self.port,
            forwarder_port: self.forwarder_port,
        }
    }
}

/// One peer of the known-peer set, with whether it is currently
/// connected.
pub struct PeerInfo {
    pub peer_id: PeerId,
    pub connected: bool,
}

/// The node's report of itself and of every peer it has ever seen.
pub struct NetworkInfo {
    pub peer_id: PeerId,
    pub peers: Vec<PeerInfo>,
}

} // verus!
