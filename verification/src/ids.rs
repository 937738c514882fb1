//! Identities the controller reasons about: peer identifiers, the two
//! rendezvous namespaces, and discovery cookies.
//!
//! A peer identifier is the opaque token the overlay derives from a
//! node's public key; the controller only stores and compares it, so it
//! is held as its bytes. A discovery cookie is likewise opaque: the
//! controller stores the latest one per `(rendezvous, namespace)` pair
//! and replays it, so a numbered token stands for it.

use vstd::prelude::*;

verus! {

/// Opaque identifier of a peer on the overlay.
pub struct PeerId {
    pub bytes: Vec<u8>,
}

impl View for PeerId {
    type V = Seq<u8>;

    open spec fn view(&self) -> Seq<u8> {
        self.bytes@
    }
}

impl Clone for PeerId {
    fn clone(&self) -> (r: Self)
        ensures
            r@ == self@,
    {
        PeerId { bytes: vstd::slice::slice_to_vec(self.bytes.as_slice()) }
    }
}

impl PeerId {
    /// Whether `self` and `other` name the same peer.
    pub fn same_as(&self, other: &PeerId) -> (r: bool)
        ensures
            r == (self@ == other@),
    {
        bytes_eq(&self.bytes, &other.bytes)
    }
}

/// Whether two byte strings are equal.
pub fn bytes_eq(a: &Vec<u8>, b: &Vec<u8>) -> (r: bool)
    ensures
        r == (a@ == b@),
{
    if a.len() != b.len() {
        return false;
    }
    let mut i: usize = 0;
    while i < a.len()
        invariant
            a@.len() == b@.len(),
            i <= a@.len(),
            forall|j: int| 0 <= j < i ==> a@[j] == b@[j],
        decreases a@.len() - i,
    {
        if a[i] != b[i] {
            return false;
        }
        i = i + 1;
    }
    assert(a@ =~= b@);
    true
}

/// The two namespaces a node registers and discovers under: every
/// participating node, and the nodes offering circuit-relay service.
#[derive(Clone, Copy, PartialEq, Eq, Structural)]
pub enum Namespace {
    Preers,
    Relay,
}

/// Opaque discovery continuation token, one per `(rendezvous, namespace)`
/// pair, refreshed on every successful discovery and replayed on the
/// next.
#[derive(Clone, Copy, Debug, PartialEq, Eq, Structural)]
pub struct Cookie {
    pub token: u64,
}

} // verus!
