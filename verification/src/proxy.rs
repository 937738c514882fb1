//! Proxy sessions: the provider side that accepts inbound streams and
//! the user side that fronts a remote service with a local listener.
//!
//! The provider holds an allow-set of `(host, port)` pairs. For each
//! inbound stream it reads one request frame and answers `allowed=true`
//! exactly when the request decodes, its pair is in the allow-set, and
//! its host is a literal IP of a valid socket address; everything else
//! is refused or dropped. The user side sends one request frame and
//! bridges the stream only on an `allowed=true` answer. Both sides'
//! session states move only along the lifecycle the step functions
//! encode; the surrounding runtime does the reading, writing, dialing
//! and splicing.

use vstd::prelude::*;
use crate::codec::{
    decode_req, decode_resp, encode_req, encode_resp, spec_decode_req, spec_decode_resp,
    spec_encode_req, spec_encode_resp, UseServiceReq, UseServiceResp,
};
use crate::framing::{encode_frame, spec_frame};
use crate::ip::{parse_host_ip, spec_host_ip, IpLiteral, SocketTarget};
use crate::MAX_MESSAGE_SIZE;

verus! {

/// The provider's set of permitted local endpoints.
pub struct AllowSet {
    pub entries: Vec<(Vec<u8>, u16)>,
}

impl View for AllowSet {
    type V = Seq<(Seq<u8>, u16)>;

    open spec fn view(&self) -> Seq<(Seq<u8>, u16)> {
        self.entries@.map_values(|e: (Vec<u8>, u16)| (e.0@, e.1))
    }
}

/// Whether the allow-set `s` permits the endpoint `(host, port)`.
pub open spec fn allows(s: Seq<(Seq<u8>, u16)>, host: Seq<u8>, port: u16) -> bool {
    s.contains((host, port))
}

/// Whether `s` holds no endpoint twice.
pub open spec fn distinct_endpoints(s: Seq<(Seq<u8>, u16)>) -> bool {
    forall|i: int, j: int| 0 <= i < j < s.len() ==> s[i] != s[j]
}

impl AllowSet {
    /// An empty allow-set.
    pub fn new() -> (r: AllowSet)
        ensures
            r@ == Seq::<(Seq<u8>, u16)>::empty(),
            distinct_endpoints(r@),
    {
        let r = AllowSet { entries: Vec::new() };
        assert(r@ =~= Seq::<(Seq<u8>, u16)>::empty());
        r
    }

    /// Whether the endpoint `(host, port)` is permitted.
    pub fn contains(&self, host: &Vec<u8>, port: u16) -> (r: bool)
        ensures
            r == allows(self@, host@, port),
    {
        let mut i: usize = 0;
        while i < self.entries.len()
            invariant
                i <= self.entries@.len(),
                forall|j: int| 0 <= j < i ==> self@[j] != (host@, port),
            decreases self.entries@.len() - i,
        {
            if self.entries[i].1 == port && crate::ids::bytes_eq(&self.entries[i].0, host) {
                assert(self@[i as int] == (host@, port));
                return true;
            }
            assert(self@[i as int] != (host@, port));
            i = i + 1;
        }
        proof {
            if allows(self@, host@, port) {
                let k = choose|k: int| 0 <= k < self@.len() && self@[k] == (host@, port);
                assert(false);
            }
        }
        false
    }

    /// Permit the endpoint `(host, port)`, once.
    pub fn insert(&mut self, host: Vec<u8>, port: u16)
        requires
            distinct_endpoints(old(self)@),
        ensures
            distinct_endpoints(final(self)@),
            final(self)@ == (if allows(old(self)@, host@, port) {
                old(self)@
            } else {
                old(self)@.push((host@, port))
            }),
    {
        if !self.contains(&host, port) {
            let ghost pre = self@;
            let ghost hv = host@;
            self.entries.push((host, port));
            assert(self@ =~= pre.push((hv, port)));
            proof {
                assert forall|i: int, j: int|
                    0 <= i < j < self@.len() implies self@[i] != self@[j] by {
                    if j == self@.len() - 1 {
                        assert(self@[i] == pre[i]);
                        assert(!allows(pre, hv, port));
                        assert(pre[i] != (hv, port));
                    }
                }
            }
        }
    }
}

/// What the provider does with one inbound request frame.
pub enum ProviderStep {
    /// The frame did not decode: close without answering.
    Drop,
    /// Answer with this refusal frame, then close.
    Reject { response: Vec<u8> },
    /// Answer with this approval frame, then dial the target and bridge.
    Accept { response: Vec<u8>, target: SocketTarget },
}

/// Mathematical value of a [`ProviderStep`].
#[verifier::ext_equal]
pub enum ProviderStepSpec {
    Drop,
    Reject { response: Seq<u8> },
    Accept { response: Seq<u8>, target: SocketTarget },
}

impl View for ProviderStep {
    type V = ProviderStepSpec;

    open spec fn view(&self) -> ProviderStepSpec {
        match self {
            ProviderStep::Drop => ProviderStepSpec::Drop,
            ProviderStep::Reject { response } => ProviderStepSpec::Reject { response: response@ },
            ProviderStep::Accept { response, target } => ProviderStepSpec::Accept {
                response: response@,
                target: *target,
            },
        }
    }
}

/// Whether a decoded request is served: its pair — with the port taken
/// modulo 2^16, as the allow-set holds 16-bit ports — is in the
/// allow-set, the port fits a socket address, and the host is a literal
/// IP address of either family.
pub open spec fn spec_request_served(
    allow: Seq<(Seq<u8>, u16)>,
    host: Seq<u8>,
    port: u32,
) -> bool {
    &&& allows(allow, host, (port % 0x1_0000) as u16)
    &&& port <= 0xFFFF
    &&& spec_host_ip(host) is Some
}

/// The target a served request is bridged to.
pub open spec fn spec_request_target(host: Seq<u8>, port: u32) -> SocketTarget {
    SocketTarget { ip: spec_host_ip(host).unwrap(), port: (port % 0x1_0000) as u16 }
}

/// What the provider must do with the request message `message` under the
/// allow-set `allow`: drop a frame that does not decode; refuse a
/// request that is not served; approve and bridge a served one.
pub open spec fn spec_provider_step(allow: Seq<(Seq<u8>, u16)>, message: Seq<u8>) -> ProviderStepSpec {
    match spec_decode_req(message) {
        None => ProviderStepSpec::Drop,
        Some((host, port)) => if spec_request_served(allow, host, port) {
            ProviderStepSpec::Accept {
                response: spec_frame(spec_encode_resp(true)),
                target: spec_request_target(host, port),
            }
        } else {
            ProviderStepSpec::Reject { response: spec_frame(spec_encode_resp(false)) }
        },
    }
}

/// Frame a response message; a response always fits the cap.
fn frame_resp(allowed: bool) -> (r: Vec<u8>)
    ensures
        r@ == spec_frame(spec_encode_resp(allowed)),
{
    let msg = encode_resp(&UseServiceResp { allowed });
    proof {
        crate::varint::lemma_varint_len(8);
        crate::varint::lemma_varint_len(if allowed { 1u64 } else { 0u64 });
    }
    match encode_frame(&msg) {
        Some(f) => f,
        None => {
            proof {
                assert(false);
            }
            Vec::new()
        },
    }
}

/// Decide the message of one inbound request frame against the
/// allow-set: the provider approves exactly the requests whose endpoint
/// was in the allow-set when the request was read and whose target is a
/// valid literal IP socket address, of either family.
pub fn provider_handle_message(allow: &AllowSet, message: &Vec<u8>) -> (r: ProviderStep)
    ensures
        r@ == spec_provider_step(allow@, message@),
{
    let req = match decode_req(message) {
        None => {
            return ProviderStep::Drop;
        },
        Some(req) => req,
    };
    let port32 = req.port;
    let port16 = #[verifier::truncate] (port32 as u16);
    proof {
        assert(#[verifier::truncate] (port32 as u16) == (port32 % 0x1_0000) as u16)
            by (bit_vector);
    }
    if !allow.contains(&req.host, port16) {
        return ProviderStep::Reject { response: frame_resp(false) };
    }
    if req.port > 0xFFFF {
        return ProviderStep::Reject { response: frame_resp(false) };
    }
    match parse_host_ip(&req.host) {
        None => ProviderStep::Reject { response: frame_resp(false) },
        Some(ip) => ProviderStep::Accept {
            response: frame_resp(true),
            target: SocketTarget { ip, port: port16 },
        },
    }
}

/// The states of one provider session, from the inbound stream's arrival
/// to its close.
#[derive(Clone, Copy, Debug, PartialEq, Eq, Structural)]
pub enum ProviderSessionState {
    /// Waiting for the one request frame.
    AwaitingRequest,
    /// The request was approved; the target is being dialed.
    Validated,
    /// The request was refused; the refusal is being sent.
    Rejected,
    /// Bytes are being bridged in both directions.
    Splicing,
    /// The session is over.
    Closed,
}

/// One provider session's lifecycle.
pub struct ProviderSession {
    pub state: ProviderSessionState,
}

impl ProviderSession {
    /// A session for a freshly accepted inbound stream.
    pub fn new() -> (r: ProviderSession)
        ensures
            r.state == ProviderSessionState::AwaitingRequest,
    {
        ProviderSession { state: ProviderSessionState::AwaitingRequest }
    }

    /// Decide the message of the session's one request frame.
    pub fn on_request_message(&mut self, allow: &AllowSet, message: &Vec<u8>) -> (r: ProviderStep)
        requires
            old(self).state == ProviderSessionState::AwaitingRequest,
        ensures
            r@ == spec_provider_step(allow@, message@),
            final(self).state == (match r {
                ProviderStep::Drop => ProviderSessionState::Closed,
                ProviderStep::Reject { .. } => ProviderSessionState::Rejected,
                ProviderStep::Accept { .. } => ProviderSessionState::Validated,
            }),
    {
        let step = provider_handle_message(allow, message);
        self.state = match &step {
            ProviderStep::Drop => ProviderSessionState::Closed,
            ProviderStep::Reject { .. } => ProviderSessionState::Rejected,
            ProviderStep::Accept { .. } => ProviderSessionState::Validated,
        };
        step
    }

    /// The refusal was sent: the session closes.
    pub fn on_reject_sent(&mut self)
        requires
            old(self).state == ProviderSessionState::Rejected,
        ensures
            final(self).state == ProviderSessionState::Closed,
    {
        self.state = ProviderSessionState::Closed;
    }

    /// The local dial of the target finished: bridge on success, close
    /// on failure.
    pub fn on_dialed(&mut self, connected: bool)
        requires
            old(self).state == ProviderSessionState::Validated,
        ensures
            final(self).state == (if connected {
                ProviderSessionState::Splicing
            } else {
                ProviderSessionState::Closed
            }),
    {
        self.state = if connected {
            ProviderSessionState::Splicing
        } else {
            ProviderSessionState::Closed
        };
    }

    /// Either side closed while bridging: the session is over.
    pub fn on_splice_end(&mut self)
        requires
            old(self).state == ProviderSessionState::Splicing,
        ensures
            final(self).state == ProviderSessionState::Closed,
    {
        self.state = ProviderSessionState::Closed;
    }
}

/// The states of one forwarder session, from the local accept to the
/// close.
#[derive(Clone, Copy, Debug, PartialEq, Eq, Structural)]
pub enum ForwarderSessionState {
    /// A local connection was accepted; nothing sent yet.
    Idle,
    /// The request frame was sent; waiting for the answer.
    HandshakeSent,
    /// The answer arrived.
    HandshakeResolved,
    /// Bytes are being bridged in both directions.
    Splicing,
    /// The session is over.
    Closed,
}

/// One forwarder session's lifecycle.
pub struct ForwarderSession {
    pub state: ForwarderSessionState,
}

impl ForwarderSession {
    /// A session for a freshly accepted local connection.
    pub fn new() -> (r: ForwarderSession)
        ensures
            r.state == ForwarderSessionState::Idle,
    {
        ForwarderSession { state: ForwarderSessionState::Idle }
    }

    /// Build the request frame naming the remote endpoint; `None`, and
    /// the session closes, exactly when the message is over the cap.
    pub fn handshake_frame(&mut self, host: &Vec<u8>, port: u16) -> (r: Option<Vec<u8>>)
        requires
            old(self).state == ForwarderSessionState::Idle,
        ensures
            r is Some <==> spec_encode_req(host@, port as u32).len() <= MAX_MESSAGE_SIZE,
            r matches Some(f) ==> f@ == spec_frame(spec_encode_req(host@, port as u32)),
            final(self).state == (if r is Some {
                ForwarderSessionState::HandshakeSent
            } else {
                ForwarderSessionState::Closed
            }),
    {
        let msg = encode_req(&UseServiceReq { host: vstd::slice::slice_to_vec(host.as_slice()), port: port as u32 });
        match encode_frame(&msg) {
            Some(f) => {
                self.state = ForwarderSessionState::HandshakeSent;
                Some(f)
            },
            None => {
                self.state = ForwarderSessionState::Closed;
                None
            },
        }
    }

    /// Read the answer: bridge exactly when it decodes to
    /// `allowed=true`; abandon both sides otherwise.
    pub fn on_response_message(&mut self, message: &Vec<u8>) -> (proceed: bool)
        requires
            old(self).state == ForwarderSessionState::HandshakeSent,
        ensures
            proceed == (spec_decode_resp(message@) == Some(true)),
            final(self).state == (if proceed {
                ForwarderSessionState::HandshakeResolved
            } else {
                ForwarderSessionState::Closed
            }),
    {
        match decode_resp(message) {
            Some(resp) => {
                if resp.allowed {
                    self.state = ForwarderSessionState::HandshakeResolved;
                    true
                } else {
                    self.state = ForwarderSessionState::Closed;
                    false
                }
            },
            None => {
                self.state = ForwarderSessionState::Closed;
                false
            },
        }
    }

    /// Both ends are ready: bytes flow.
    pub fn on_splice_start(&mut self)
        requires
            old(self).state == ForwarderSessionState::HandshakeResolved,
        ensures
            final(self).state == ForwarderSessionState::Splicing,
    {
        self.state = ForwarderSessionState::Splicing;
    }

    /// Either side closed while bridging: the session is over.
    pub fn on_splice_end(&mut self)
        requires
            old(self).state == ForwarderSessionState::Splicing,
        ensures
            final(self).state == ForwarderSessionState::Closed,
    {
        self.state = ForwarderSessionState::Closed;
    }
}

} // verus!
