//! Verified core of a peer-to-peer TCP port-forwarding daemon.
//!
//! The library holds the logic of the daemon: the length-delimited proxy
//! handshake codec, the provider and forwarder session decisions, the
//! network controller state machine that integrates mailbox commands with
//! overlay events, the multiaddress model, and the admin URL builder.
//! All I/O — sockets, the overlay transport, the admin HTTP surface and
//! the persistent store — lives outside, hands the library plain values,
//! and performs the actions the controller decides on.

use vstd::prelude::*;

pub mod admin;
pub mod codec;
pub mod controller;
pub mod framing;
pub mod ids;
pub mod ip;
pub mod multiaddr;
pub mod proxy;
pub mod records;
pub mod varint;

verus! {

/// Per-message size cap of the proxy handshake protocol, in bytes.
pub const MAX_MESSAGE_SIZE: usize = 1024;

} // verus!
