//! The network controller: the per-node state machine that owns the
//! registration state and integrates mailbox commands with overlay
//! events.
//!
//! The controller decides; it performs no I/O. Each command or event
//! maps the current state to a next state and a list of [`Action`]s, and
//! the surrounding runtime carries the actions out: it dials, registers,
//! discovers, listens, spawns the long-lived tasks, and reports dial
//! outcomes and overlay events back as [`Event`]s. Connection
//! identifiers are allocated here, counting up, so that an in-flight
//! dial can be reconciled with its outcome before the peer is known.

use vstd::prelude::*;
use vstd::pervasive::VecAdditionalExecFns;
use crate::ids::{Cookie, Namespace, PeerId};
use crate::multiaddr::{Multiaddr, ProtocolSpec};
use crate::records::{ProvideService, ProvideServiceSpec, UseService, UseServiceSpec};

verus! {

/// Seconds a registration at a rendezvous point is advertised for.
pub const REGISTRATION_TTL_SECONDS: u64 = 7200;

/// Seconds between two rounds of registration and discovery against one
/// rendezvous point; strictly less than the registration TTL.
pub const REFRESH_SECONDS: u64 = 300;

/// A command posted to the controller's mailbox by the administration
/// surface or by one of the controller's own detached tasks.
pub enum Command {
    /// Record a rendezvous address and dial it.
    AddRendezvous(Multiaddr),
    /// Note a relay peer and, unless this node is itself a relay, dial it.
    AddRelay(PeerId),
    /// Register at and run discovery against one rendezvous point.
    TalkToRendezvous(PeerId),
    /// Report the known-peer set.
    GetNetworkInfo,
    /// Start forwarding a remote service, after a fresh discovery.
    UseService(UseService),
    /// Permit inbound overlay users to reach a local endpoint.
    ProvideService(ProvideService),
}

/// An event of the overlay, handed to the controller by the runtime.
pub enum Event {
    /// A listen address was opened.
    NewListenAddr { address: Multiaddr },
    /// A connection reached a peer; `dial_address` is the dialed address
    /// when this node was the dialer.
    ConnectionEstablished { peer: PeerId, connection_id: u64, dial_address: Option<Multiaddr> },
    /// An outgoing dial failed.
    OutgoingConnectionError { connection_id: u64 },
    /// A registration was accepted.
    Registered { rendezvous: PeerId, namespace: Namespace, ttl_seconds: u64 },
    /// A registration was refused.
    RegisterFailed { rendezvous: PeerId, namespace: Namespace },
    /// A discovery answered with a fresh cookie and the registrations
    /// found.
    Discovered { rendezvous: PeerId, namespace: Option<Namespace>, cookie: Cookie, peers: Vec<PeerId> },
    /// A relay accepted this node's reservation.
    ReservationAccepted { relay: PeerId },
    /// A ping returned.
    PingSuccess { peer: PeerId },
    /// An external address of this node was confirmed.
    ExternalAddrConfirmed { address: Multiaddr },
    /// A connection closed.
    ConnectionClosed { peer: PeerId },
}

/// What the runtime must do on the controller's behalf.
pub enum Action {
    /// Dial an address whose peer is not yet known, under the given
    /// fresh connection identifier.
    DialAddress { connection_id: u64, address: Multiaddr },
    /// Dial a peer by identifier, under the given fresh connection
    /// identifier.
    DialPeer { connection_id: u64, peer: PeerId },
    /// Register this node under `namespace` at a rendezvous point.
    Register { rendezvous: PeerId, namespace: Namespace, ttl_seconds: u64 },
    /// Run a discovery under `namespace` at a rendezvous point,
    /// replaying the cookie of the previous discovery, if any.
    Discover { rendezvous: PeerId, namespace: Namespace, cookie: Option<Cookie> },
    /// Listen on an address (a relayed one, to obtain a reservation).
    ListenOn { address: Multiaddr },
    /// Promote a listen address to an external address.
    ConfirmExternalAddress { address: Multiaddr },
    /// Start the periodic ticker that posts [`Command::TalkToRendezvous`].
    SpawnRendezvousTicker { rendezvous: PeerId },
    /// Start a user forwarder for a used service.
    SpawnForwarder { service: UseService },
    /// Hand a provided service to the provider acceptor's allow-set.
    AddAllowedService { service: ProvideService },
    /// Answer [`Command::GetNetworkInfo`] with the known-peer set.
    ReplyNetworkInfo { peers: Vec<PeerId> },
}

/// Mathematical value of an [`Action`].
#[verifier::ext_equal]
pub enum ActionSpec {
    DialAddress { connection_id: u64, address: Seq<ProtocolSpec> },
    DialPeer { connection_id: u64, peer: Seq<u8> },
    Register { rendezvous: Seq<u8>, namespace: Namespace, ttl_seconds: u64 },
    Discover { rendezvous: Seq<u8>, namespace: Namespace, cookie: Option<Cookie> },
    ListenOn { address: Seq<ProtocolSpec> },
    ConfirmExternalAddress { address: Seq<ProtocolSpec> },
    SpawnRendezvousTicker { rendezvous: Seq<u8> },
    SpawnForwarder { service: UseServiceSpec },
    AddAllowedService { service: ProvideServiceSpec },
    ReplyNetworkInfo { peers: Seq<Seq<u8>> },
}

impl View for Action {
    type V = ActionSpec;

    open spec fn view(&self) -> ActionSpec {
        match self {
            Action::DialAddress { connection_id, address } => ActionSpec::DialAddress {
                connection_id: *connection_id,
                address: address@,
            },
            Action::DialPeer { connection_id, peer } => ActionSpec::DialPeer {
                connection_id: *connection_id,
                peer: peer@,
            },
            Action::Register { rendezvous, namespace, ttl_seconds } => ActionSpec::Register {
                rendezvous: rendezvous@,
                namespace: *namespace,
                ttl_seconds: *ttl_seconds,
            },
            Action::Discover { rendezvous, namespace, cookie } => ActionSpec::Discover {
                rendezvous: rendezvous@,
                namespace: *namespace,
                cookie: *cookie,
            },
            Action::ListenOn { address } => ActionSpec::ListenOn { address: address@ },
            Action::ConfirmExternalAddress { address } => ActionSpec::ConfirmExternalAddress {
                address: address@,
            },
            Action::SpawnRendezvousTicker { rendezvous } => ActionSpec::SpawnRendezvousTicker {
                rendezvous: rendezvous@,
            },
            Action::SpawnForwarder { service } => ActionSpec::SpawnForwarder { service: service@ },
            Action::AddAllowedService { service } => ActionSpec::AddAllowedService {
                service: service@,
            },
            Action::ReplyNetworkInfo { peers } => ActionSpec::ReplyNetworkInfo {
                peers: ids_view(peers@),
            },
        }
    }
}

/// Views of a list of actions.
pub open spec fn acts_view(s: Seq<Action>) -> Seq<ActionSpec> {
    s.map_values(|a: Action| a@)
}

/// Views of a list of peer identifiers.
pub open spec fn ids_view(s: Seq<PeerId>) -> Seq<Seq<u8>> {
    s.map_values(|p: PeerId| p@)
}

/// Whether the viewed set `s` holds the peer identifier `x`.
pub open spec fn has_id(s: Seq<Seq<u8>>, x: Seq<u8>) -> bool {
    s.contains(x)
}

/// Whether the viewed set `s` holds no peer identifier twice.
pub open spec fn distinct_ids(s: Seq<Seq<u8>>) -> bool {
    forall|i: int, j: int| 0 <= i < j < s.len() ==> s[i] != s[j]
}

/// One stored discovery cookie, keyed by the rendezvous point and the
/// namespace the discovery ran under.
pub struct CookieEntry {
    pub rendezvous: PeerId,
    pub namespace: Option<Namespace>,
    pub cookie: Cookie,
}

/// Mathematical value of a [`CookieEntry`].
#[verifier::ext_equal]
pub struct CookieEntrySpec {
    pub rendezvous: Seq<u8>,
    pub namespace: Option<Namespace>,
    pub cookie: Cookie,
}

impl View for CookieEntry {
    type V = CookieEntrySpec;

    open spec fn view(&self) -> CookieEntrySpec {
        CookieEntrySpec {
            rendezvous: self.rendezvous@,
            namespace: self.namespace,
            cookie: self.cookie,
        }
    }
}

/// Views of the cookie store.
pub open spec fn cookies_view(s: Seq<CookieEntry>) -> Seq<CookieEntrySpec> {
    s.map_values(|e: CookieEntry| e@)
}

/// Key of the `i`th stored cookie.
pub open spec fn cookie_key(s: Seq<CookieEntrySpec>, i: int) -> (Seq<u8>, Option<Namespace>) {
    (s[i].rendezvous, s[i].namespace)
}

/// Whether a cookie is stored for the pair `(rdv, ns)`.
pub open spec fn has_cookie(s: Seq<CookieEntrySpec>, rdv: Seq<u8>, ns: Option<Namespace>) -> bool {
    exists|i: int| 0 <= i < s.len() && cookie_key(s, i) == (rdv, ns)
}

/// Whether no pair has two stored cookies.
pub open spec fn distinct_cookie_keys(s: Seq<CookieEntrySpec>) -> bool {
    forall|i: int, j: int|
        #![trigger cookie_key(s, i), cookie_key(s, j)]
        0 <= i < j < s.len() ==> cookie_key(s, i) != cookie_key(s, j)
}

/// The cookie stored for the pair `(rdv, ns)`, if any. With distinct
/// keys this is the one cookie of the pair.
pub open spec fn stored_cookie(s: Seq<CookieEntrySpec>, rdv: Seq<u8>, ns: Option<Namespace>) -> Option<
    Cookie,
> {
    if has_cookie(s, rdv, ns) {
        Some(s[choose|i: int| 0 <= i < s.len() && cookie_key(s, i) == (rdv, ns)].cookie)
    } else {
        None
    }
}

/// The store `post` holds `c` for `(rdv, ns)` and agrees with `pre`
/// everywhere else.
pub open spec fn cookie_updated(
    pre: Seq<CookieEntrySpec>,
    post: Seq<CookieEntrySpec>,
    rdv: Seq<u8>,
    ns: Option<Namespace>,
    c: Cookie,
) -> bool {
    &&& stored_cookie(post, rdv, ns) == Some(c)
    &&& forall|r2: Seq<u8>, n2: Option<Namespace>|
        (r2, n2) != (rdv, ns) ==> #[trigger] stored_cookie(post, r2, n2) == stored_cookie(
            pre,
            r2,
            n2,
        )
}

/// Whether the viewed set `v` holds the connection identifier `x`.
pub open spec fn has_conn(v: Seq<u64>, x: u64) -> bool {
    v.contains(x)
}

/// Whether `v` holds `x` exactly where `pre` does, except that `x` is
/// gone.
pub open spec fn conn_removed(pre: Seq<u64>, post: Seq<u64>, x: u64) -> bool {
    &&& !has_conn(post, x)
    &&& forall|y: u64| y != x ==> #[trigger] has_conn(post, y) == has_conn(pre, y)
}

// ------------------------------------------------------------------
// executable set helpers
// ------------------------------------------------------------------

/// Whether `v` holds the peer `x`.
pub fn contains_id(v: &Vec<PeerId>, x: &PeerId) -> (r: bool)
    ensures
        r == has_id(ids_view(v@), x@),
{
    let mut i: usize = 0;
    while i < v.len()
        invariant
            i <= v@.len(),
            forall|j: int| 0 <= j < i ==> v@[j]@ != x@,
        decreases v@.len() - i,
    {
        if v[i].same_as(x) {
            assert(ids_view(v@)[i as int] == x@);
            return true;
        }
        i = i + 1;
    }
    assert(forall|j: int| 0 <= j < v@.len() ==> ids_view(v@)[j] != x@);
    false
}

/// Insert the peer `x` unless it is already held.
pub fn insert_id(v: &mut Vec<PeerId>, x: PeerId)
    requires
        distinct_ids(ids_view(old(v)@)),
    ensures
        distinct_ids(ids_view(final(v)@)),
        ids_view(final(v)@) == (if has_id(ids_view(old(v)@), x@) {
            ids_view(old(v)@)
        } else {
            ids_view(old(v)@).push(x@)
        }),
{
    if !contains_id(v, &x) {
        let ghost pre = ids_view(v@);
        v.push(x);
        assert(ids_view(v@) =~= pre.push(x@));
    }
}

/// Clone a list of peers, keeping its value.
pub fn clone_ids(v: &Vec<PeerId>) -> (r: Vec<PeerId>)
    ensures
        ids_view(r@) == ids_view(v@),
{
    let mut r: Vec<PeerId> = Vec::new();
    let mut i: usize = 0;
    while i < v.len()
        invariant
            i <= v@.len(),
            r@.len() == i,
            forall|j: int| 0 <= j < i ==> r@[j]@ == v@[j]@,
        decreases v@.len() - i,
    {
        r.push(v[i].clone());
        i = i + 1;
    }
    assert(ids_view(r@) =~= ids_view(v@));
    r
}

/// Whether `v` holds the connection identifier `x`.
pub fn contains_conn(v: &Vec<u64>, x: u64) -> (r: bool)
    ensures
        r == has_conn(v@, x),
{
    let mut i: usize = 0;
    while i < v.len()
        invariant
            i <= v@.len(),
            forall|j: int| 0 <= j < i ==> v@[j] != x,
        decreases v@.len() - i,
    {
        if v[i] == x {
            return true;
        }
        i = i + 1;
    }
    false
}

/// Remove the connection identifier `x`, reporting whether it was held.
#[verifier::loop_isolation(false)]
pub fn remove_conn(v: &mut Vec<u64>, x: u64) -> (found: bool)
    requires
        old(v)@.no_duplicates(),
    ensures
        final(v)@.no_duplicates(),
        found == has_conn(old(v)@, x),
        conn_removed(old(v)@, final(v)@, x),
        forall|y: u64| #[trigger] has_conn(final(v)@, y) ==> has_conn(old(v)@, y),
{
    let mut i: usize = 0;
    while i < v.len()
        invariant
            i <= v@.len(),
            forall|j: int| 0 <= j < i ==> v@[j] != x,
            old(v)@ == v@,
        decreases v@.len() - i,
    {
        if v[i] == x {
            let ghost pre = v@;
            let ghost n = pre.len() as int;
            assert(pre[i as int] == x);
            v.swap_remove(i);
            assert(v@ =~= pre.update(i as int, pre.last()).drop_last());
            assert(v@.len() == n - 1);
            proof {
                assert(forall|k: int|
                    0 <= k < n - 1 && k != i ==> v@[k] == pre[k]);
                assert(i < n - 1 ==> v@[i as int] == pre[n - 1]);
                assert(forall|a: int, b: int|
                    0 <= a < n && 0 <= b < n && a != b ==> pre[a] != pre[b]) by {
                    assert(pre.no_duplicates());
                }
                assert forall|y: u64| #[trigger] has_conn(v@, y) implies has_conn(pre, y) by {
                    let k = choose|k: int| 0 <= k < v@.len() && v@[k] == y;
                    if k == i {
                        assert(pre[n - 1] == y);
                    } else {
                        assert(pre[k] == y);
                    }
                }
                assert(!has_conn(v@, x)) by {
                    if has_conn(v@, x) {
                        let k = choose|k: int| 0 <= k < v@.len() && v@[k] == x;
                        if k == i {
                            assert(pre[n - 1] == x);
                            assert(pre[i as int] == pre[n - 1]);
                            assert(i as int != n - 1);
                        } else {
                            assert(pre[k] == x && pre[i as int] == x);
                        }
                    }
                }
                assert forall|y: u64| y != x implies #[trigger] has_conn(v@, y) == has_conn(
                    pre,
                    y,
                ) by {
                    if has_conn(pre, y) {
                        let k = choose|k: int| 0 <= k < n && pre[k] == y;
                        if k == n - 1 {
                            if i as int == n - 1 {
                                assert(pre[i as int] == y);
                            } else {
                                assert(v@[i as int] == y);
                            }
                        } else if k == i {
                            assert(pre[i as int] == x);
                        } else {
                            assert(v@[k] == y);
                        }
                    }
                }
                assert(v@.no_duplicates()) by {
                    assert forall|a: int, b: int|
                        0 <= a < v@.len() && 0 <= b < v@.len() && a != b implies v@[a] != v@[b] by {
                        let va: int = if a == i { n - 1 } else { a };
                        let vb: int = if b == i { n - 1 } else { b };
                        assert(v@[a] == pre[va] && v@[b] == pre[vb]);
                        assert(va != vb);
                    }
                }
            }
            return true;
        }
        i = i + 1;
    }
    proof {
        if has_conn(v@, x) {
            let k = choose|k: int| 0 <= k < v@.len() && v@[k] == x;
            assert(v@[k] != x);
        }
    }
    false
}

/// The cookie stored for `(rdv, ns)`, if any.
#[verifier::loop_isolation(false)]
pub fn cookie_get(v: &Vec<CookieEntry>, rdv: &PeerId, ns: Option<Namespace>) -> (r: Option<Cookie>)
    requires
        distinct_cookie_keys(cookies_view(v@)),
    ensures
        r == stored_cookie(cookies_view(v@), rdv@, ns),
{
    let ghost s = cookies_view(v@);
    let mut i: usize = 0;
    while i < v.len()
        invariant
            i <= v@.len(),
            s == cookies_view(v@),
            forall|j: int| 0 <= j < i ==> cookie_key(s, j) != (rdv@, ns),
        decreases v@.len() - i,
    {
        if v[i].rendezvous.same_as(rdv) && namespace_opt_eq(v[i].namespace, ns) {
            assert(cookie_key(s, i as int) == (rdv@, ns));
            assert(has_cookie(s, rdv@, ns));
            proof {
                let k = choose|k: int| 0 <= k < s.len() && cookie_key(s, k) == (rdv@, ns);
                if k != i {
                    assert(cookie_key(s, k) == cookie_key(s, i as int));
                    assert(false);
                }
            }
            return Some(v[i].cookie);
        }
        i = i + 1;
    }
    proof {
        if has_cookie(s, rdv@, ns) {
            let k = choose|k: int| 0 <= k < s.len() && cookie_key(s, k) == (rdv@, ns);
            assert(false);
        }
    }
    None
}

/// Whether two optional namespaces are the same.
pub fn namespace_opt_eq(a: Option<Namespace>, b: Option<Namespace>) -> (r: bool)
    ensures
        r == (a == b),
{
    match (a, b) {
        (None, None) => true,
        (Some(x), Some(y)) => x == y,
        _ => false,
    }
}

/// Store `c` for `(rdv, ns)`, replacing the pair's previous cookie.
#[verifier::loop_isolation(false)]
pub fn cookie_put(v: &mut Vec<CookieEntry>, rdv: PeerId, ns: Option<Namespace>, c: Cookie)
    requires
        distinct_cookie_keys(cookies_view(old(v)@)),
    ensures
        distinct_cookie_keys(cookies_view(final(v)@)),
        cookie_updated(cookies_view(old(v)@), cookies_view(final(v)@), rdv@, ns, c),
{
    let ghost pre = cookies_view(v@);
    let mut i: usize = 0;
    while i < v.len()
        invariant
            i <= v@.len(),
            pre == cookies_view(v@),
            forall|j: int| 0 <= j < i ==> cookie_key(pre, j) != (rdv@, ns),
        decreases v@.len() - i,
    {
        if v[i].rendezvous.same_as(&rdv) && namespace_opt_eq(v[i].namespace, ns) {
            assert(cookie_key(pre, i as int) == (rdv@, ns));
            v.set(i, CookieEntry { rendezvous: rdv, namespace: ns, cookie: c });
            let ghost post = cookies_view(v@);
            assert(post =~= pre.update(i as int, CookieEntrySpec { rendezvous: rdv@, namespace: ns, cookie: c }));
            assert(forall|j: int| 0 <= j < post.len() ==> cookie_key(post, j) == cookie_key(pre, j));
            assert(distinct_cookie_keys(post));
            proof {
                lemma_cookie_pinpoint(post, rdv@, ns, i as int);
                assert forall|r2: Seq<u8>, n2: Option<Namespace>|
                    (r2, n2) != (rdv@, ns) implies #[trigger] stored_cookie(post, r2, n2)
                    == stored_cookie(pre, r2, n2) by {
                    if has_cookie(post, r2, n2) {
                        let k = choose|k: int| 0 <= k < post.len() && cookie_key(post, k) == (r2, n2);
                        assert(cookie_key(pre, k) == (r2, n2));
                        lemma_cookie_pinpoint(post, r2, n2, k);
                        lemma_cookie_pinpoint(pre, r2, n2, k);
                        assert(post[k].cookie == pre[k].cookie);
                    } else {
                        if has_cookie(pre, r2, n2) {
                            let k = choose|k: int| 0 <= k < pre.len() && cookie_key(pre, k) == (r2, n2);
                            assert(cookie_key(post, k) == (r2, n2));
                        }
                    }
                }
            }
            return ;
        }
        i = i + 1;
    }
    let ghost rv = rdv@;
    v.push(CookieEntry { rendezvous: rdv, namespace: ns, cookie: c });
    let ghost post = cookies_view(v@);
    assert(post =~= pre.push(CookieEntrySpec { rendezvous: rv, namespace: ns, cookie: c }));
    assert(cookie_key(post, post.len() - 1) == (rv, ns));
    proof {
        assert forall|a: int, b: int|
            0 <= a < b < post.len() implies cookie_key(post, a) != cookie_key(post, b) by {
            assert(cookie_key(post, a) == cookie_key(pre, a));
            if b == post.len() - 1 {
                assert(cookie_key(pre, a) != (rv, ns));
            } else {
                assert(cookie_key(post, b) == cookie_key(pre, b));
            }
        }
        assert(distinct_cookie_keys(post));
    }
    proof {
        lemma_cookie_pinpoint(post, rv, ns, post.len() - 1);
        assert forall|r2: Seq<u8>, n2: Option<Namespace>|
            (r2, n2) != (rv, ns) implies #[trigger] stored_cookie(post, r2, n2) == stored_cookie(
            pre,
            r2,
            n2,
        ) by {
            if has_cookie(post, r2, n2) {
                let k = choose|k: int| 0 <= k < post.len() && cookie_key(post, k) == (r2, n2);
                assert(k < pre.len());
                assert(cookie_key(pre, k) == (r2, n2));
                lemma_cookie_pinpoint(post, r2, n2, k);
                lemma_cookie_pinpoint(pre, r2, n2, k);
            } else {
                if has_cookie(pre, r2, n2) {
                    let k = choose|k: int| 0 <= k < pre.len() && cookie_key(pre, k) == (r2, n2);
                    assert(cookie_key(post, k) == (r2, n2));
                }
            }
        }
    }
}

/// With distinct keys, the stored cookie of a pair is the cookie of any
/// entry carrying that pair.
proof fn lemma_cookie_pinpoint(s: Seq<CookieEntrySpec>, rdv: Seq<u8>, ns: Option<Namespace>, i: int)
    requires
        distinct_cookie_keys(s),
        0 <= i < s.len(),
        cookie_key(s, i) == (rdv, ns),
    ensures
        stored_cookie(s, rdv, ns) == Some(s[i].cookie),
{
    assert(has_cookie(s, rdv, ns));
    let k = choose|k: int| 0 <= k < s.len() && cookie_key(s, k) == (rdv, ns);
    if k != i {
        assert(cookie_key(s, k) == cookie_key(s, i));
        assert(false);
    }
}

/// A pushed set holds exactly the old elements and the pushed one.
pub broadcast proof fn lemma_has_id_push(s: Seq<Seq<u8>>, x: Seq<u8>, q: Seq<u8>)
    ensures
        #[trigger] has_id(s.push(x), q) == (has_id(s, q) || q == x),
{
    if has_id(s.push(x), q) {
        let i = choose|i: int| 0 <= i < s.push(x).len() && s.push(x)[i] == q;
        if i < s.len() {
            assert(s[i] == q);
        }
    }
    if has_id(s, q) {
        let i = choose|i: int| 0 <= i < s.len() && s[i] == q;
        assert(s.push(x)[i] == q);
    }
    if q == x {
        assert(s.push(x)[s.len() as int] == q);
    }
}

/// Viewing a list of actions distributes over concatenation.
pub broadcast proof fn lemma_acts_view_concat(a: Seq<Action>, b: Seq<Action>)
    ensures
        #[trigger] acts_view(a + b) == acts_view(a) + acts_view(b),
{
    assert(acts_view(a + b) =~= acts_view(a) + acts_view(b));
}

/// Viewing a list of actions distributes over push.
pub broadcast proof fn lemma_acts_view_push(a: Seq<Action>, x: Action)
    ensures
        #[trigger] acts_view(a.push(x)) == acts_view(a).push(x@),
{
    assert(acts_view(a.push(x)) =~= acts_view(a).push(x@));
}

/// Views of a list of multiaddresses.
pub open spec fn addrs_view(s: Seq<Multiaddr>) -> Seq<Seq<ProtocolSpec>> {
    s.map_values(|a: Multiaddr| a@)
}

/// How many fresh connection identifiers handling `e` may allocate.
pub open spec fn event_dial_bound(e: Event) -> int {
    match e {
        Event::Discovered { peers, .. } => peers@.len() as int,
        _ => 0,
    }
}

/// Mathematical value of the controller's state.
#[verifier::ext_equal]
pub struct ControllerView {
    pub is_relay: bool,
    pub is_rendezvous: bool,
    pub rendezvous_list: Seq<Seq<ProtocolSpec>>,
    pub rendezvous_points: Seq<Seq<u8>>,
    pub relays: Seq<Seq<u8>>,
    pub pending_rendezvous: Seq<u64>,
    pub pending_relay: Seq<u64>,
    pub cookies: Seq<CookieEntrySpec>,
    pub peers: Seq<Seq<u8>>,
    pub next_connection_id: u64,
}

/// The network controller's state: the node's roles, the registration
/// state, the pending-connection sets and the known-peer set.
pub struct Controller {
    /// Whether this node serves as a circuit relay.
    pub is_relay: bool,
    /// Whether this node serves as a rendezvous point.
    pub is_rendezvous: bool,
    /// The rendezvous addresses the node knows of.
    pub rendezvous_list: Vec<Multiaddr>,
    /// Peers confirmed as rendezvous points.
    pub rendezvous_points: Vec<PeerId>,
    /// Peers known to offer circuit-relay service.
    pub relays: Vec<PeerId>,
    /// Connection identifiers of in-flight dials to rendezvous
    /// addresses, whose peer is not yet known.
    pub pending_rendezvous: Vec<u64>,
    /// Connection identifiers of in-flight dials to relay peers.
    pub pending_relay: Vec<u64>,
    /// The latest discovery cookie per `(rendezvous, namespace)` pair.
    pub cookies: Vec<CookieEntry>,
    /// Every peer ever seen via connection or discovery.
    pub peers: Vec<PeerId>,
    /// The next connection identifier to allocate.
    pub next_connection_id: u64,
}

impl View for Controller {
    type V = ControllerView;

    open spec fn view(&self) -> ControllerView {
        ControllerView {
            is_relay: self.is_relay,
            is_rendezvous: self.is_rendezvous,
            rendezvous_list: addrs_view(self.rendezvous_list@),
            rendezvous_points: ids_view(self.rendezvous_points@),
            relays: ids_view(self.relays@),
            pending_rendezvous: self.pending_rendezvous@,
            pending_relay: self.pending_relay@,
            cookies: cookies_view(self.cookies@),
            peers: ids_view(self.peers@),
            next_connection_id: self.next_connection_id,
        }
    }
}

/// The registrations one round issues against one rendezvous point:
/// exactly one under the participating-nodes namespace, and exactly one
/// under the relay namespace when this node is a relay.
pub open spec fn register_actions(rdv: Seq<u8>, is_relay: bool) -> Seq<ActionSpec> {
    let base = seq![
        ActionSpec::Register {
            rendezvous: rdv,
            namespace: Namespace::Preers,
            ttl_seconds: REGISTRATION_TTL_SECONDS,
        },
    ];
    if is_relay {
        base.push(
            ActionSpec::Register {
                rendezvous: rdv,
                namespace: Namespace::Relay,
                ttl_seconds: REGISTRATION_TTL_SECONDS,
            },
        )
    } else {
        base
    }
}

/// One round of registrations against every given rendezvous point.
pub open spec fn register_all(points: Seq<Seq<u8>>, is_relay: bool) -> Seq<ActionSpec>
    decreases points.len(),
{
    if points.len() == 0 {
        Seq::empty()
    } else {
        register_all(points.drop_last(), is_relay) + register_actions(points.last(), is_relay)
    }
}

/// The discoveries one `TalkToRendezvous` issues after its registrations:
/// one under the relay namespace when this node is neither relay nor
/// rendezvous, then one under the participating-nodes namespace, each
/// replaying the stored cookie of its pair.
pub open spec fn talk_actions(c: ControllerView, rdv: Seq<u8>) -> Seq<ActionSpec> {
    register_actions(rdv, c.is_relay) + (if !c.is_relay && !c.is_rendezvous {
        seq![
            ActionSpec::Discover {
                rendezvous: rdv,
                namespace: Namespace::Relay,
                cookie: stored_cookie(c.cookies, rdv, Some(Namespace::Relay)),
            },
        ]
    } else {
        Seq::empty()
    }) + seq![
        ActionSpec::Discover {
            rendezvous: rdv,
            namespace: Namespace::Preers,
            cookie: stored_cookie(c.cookies, rdv, Some(Namespace::Preers)),
        },
    ]
}

/// What handling a discovery answer does: the pair's cookie is replaced
/// by the fresh one and no other pair's cookie changes; every peer found
/// joins the known-peer set; and, for an answer under the relay
/// namespace, every peer found joins the relays set and — unless this
/// node is itself a relay — is dialed exactly once, each dial under a
/// fresh pending connection identifier.
pub open spec fn discovered_post(
    pre: ControllerView,
    post: ControllerView,
    rdv: Seq<u8>,
    ns: Option<Namespace>,
    c: Cookie,
    found: Seq<Seq<u8>>,
    acts: Seq<ActionSpec>,
) -> bool {
    &&& cookie_updated(pre.cookies, post.cookies, rdv, ns, c)
    &&& (forall|q: Seq<u8>|
        #[trigger] has_id(post.peers, q) == (has_id(pre.peers, q) || found.contains(q)))
    &&& (if ns == Some(Namespace::Relay) {
        forall|q: Seq<u8>|
            #[trigger] has_id(post.relays, q) == (has_id(pre.relays, q) || found.contains(q))
    } else {
        post.relays == pre.relays
    })
    &&& (if ns == Some(Namespace::Relay) && !pre.is_relay {
        &&& acts == Seq::new(
            found.len(),
            |i: int|
                ActionSpec::DialPeer {
                    connection_id: (pre.next_connection_id + i) as u64,
                    peer: found[i],
                },
        )
        &&& post.next_connection_id == pre.next_connection_id + found.len()
        &&& post.pending_relay == pre.pending_relay + Seq::new(
            found.len(),
            |i: int| (pre.next_connection_id + i) as u64,
        )
    } else {
        &&& acts == Seq::<ActionSpec>::empty()
        &&& post.next_connection_id == pre.next_connection_id
        &&& post.pending_relay == pre.pending_relay
    })
    &&& post.pending_rendezvous == pre.pending_rendezvous
    &&& post.rendezvous_points == pre.rendezvous_points
    &&& post.rendezvous_list == pre.rendezvous_list
    &&& post.is_relay == pre.is_relay
    &&& post.is_rendezvous == pre.is_rendezvous
}

/// A discovery under the participating-nodes namespace against every
/// rendezvous point, each replaying the stored cookie of its pair.
pub open spec fn discover_all(c: ControllerView) -> Seq<ActionSpec> {
    Seq::new(
        c.rendezvous_points.len(),
        |i: int|
            ActionSpec::Discover {
                rendezvous: c.rendezvous_points[i],
                namespace: Namespace::Preers,
                cookie: stored_cookie(c.cookies, c.rendezvous_points[i], Some(Namespace::Preers)),
            },
    )
}

impl Controller {
    /// The controller's invariant: no set holds an element twice, every
    /// pending connection identifier was allocated, and every
    /// `(rendezvous, namespace)` pair has at most one stored cookie.
    pub open spec fn wf(&self) -> bool {
        &&& distinct_ids(self@.rendezvous_points)
        &&& distinct_ids(self@.relays)
        &&& distinct_ids(self@.peers)
        &&& self.pending_rendezvous@.no_duplicates()
        &&& self.pending_relay@.no_duplicates()
        &&& (forall|i: int|
            0 <= i < self.pending_rendezvous@.len() ==> self.pending_rendezvous@[i]
                < self.next_connection_id)
        &&& (forall|i: int|
            0 <= i < self.pending_relay@.len() ==> self.pending_relay@[i]
                < self.next_connection_id)
        &&& distinct_cookie_keys(self@.cookies)
    }

    /// A controller for a node with the given roles and stored
    /// rendezvous addresses, before anything has happened.
    pub fn new(is_relay: bool, is_rendezvous: bool, rendezvous_list: Vec<Multiaddr>) -> (r:
        Controller)
        ensures
            r.wf(),
            r@ == (ControllerView {
                is_relay,
                is_rendezvous,
                rendezvous_list: addrs_view(rendezvous_list@),
                rendezvous_points: Seq::empty(),
                relays: Seq::empty(),
                pending_rendezvous: Seq::empty(),
                pending_relay: Seq::empty(),
                cookies: Seq::empty(),
                peers: Seq::empty(),
                next_connection_id: 0,
            }),
    {
        let r = Controller {
            is_relay,
            is_rendezvous,
            rendezvous_list,
            rendezvous_points: Vec::new(),
            relays: Vec::new(),
            pending_rendezvous: Vec::new(),
            pending_relay: Vec::new(),
            cookies: Vec::new(),
            peers: Vec::new(),
            next_connection_id: 0,
        };
        assert(r@ =~~= (ControllerView {
            is_relay,
            is_rendezvous,
            rendezvous_list: addrs_view(r.rendezvous_list@),
            rendezvous_points: Seq::empty(),
            relays: Seq::empty(),
            pending_rendezvous: Seq::empty(),
            pending_relay: Seq::empty(),
            cookies: Seq::empty(),
            peers: Seq::empty(),
            next_connection_id: 0,
        }));
        r
    }

    /// Issue one round of registrations against `rendezvous_point`: as a
    /// participating node always, and additionally as a relay when this
    /// node is one.
    pub fn register_at(&self, rendezvous_point: &PeerId) -> (r: Vec<Action>)
        ensures
            acts_view(r@) == register_actions(rendezvous_point@, self.is_relay),
    {
        broadcast use lemma_acts_view_push;

        let mut acts: Vec<Action> = Vec::new();
        acts.push(
            Action::Register {
                rendezvous: rendezvous_point.clone(),
                namespace: Namespace::Preers,
                ttl_seconds: REGISTRATION_TTL_SECONDS,
            },
        );
        if self.is_relay {
            acts.push(
                Action::Register {
                    rendezvous: rendezvous_point.clone(),
                    namespace: Namespace::Relay,
                    ttl_seconds: REGISTRATION_TTL_SECONDS,
                },
            );
        }
        assert(acts_view(acts@) =~~= register_actions(rendezvous_point@, self.is_relay));
        acts
    }

    /// Record a rendezvous address as pending and dial it; the fresh
    /// connection identifier reconciles the dial's outcome later.
    pub fn add_rendezvous(&mut self, rendezvous_point: &Multiaddr) -> (r: Vec<Action>)
        requires
            old(self).wf(),
            old(self).next_connection_id < u64::MAX,
        ensures
            final(self).wf(),
            final(self)@ == (ControllerView {
                pending_rendezvous: old(self)@.pending_rendezvous.push(
                    old(self).next_connection_id,
                ),
                next_connection_id: (old(self).next_connection_id + 1) as u64,
                ..old(self)@
            }),
            acts_view(r@) == seq![
                ActionSpec::DialAddress {
                    connection_id: old(self).next_connection_id,
                    address: rendezvous_point@,
                },
            ],
    {
        broadcast use lemma_acts_view_push;

        let connection_id = self.next_connection_id;
        self.next_connection_id = self.next_connection_id + 1;
        self.pending_rendezvous.push(connection_id);
        let mut acts: Vec<Action> = Vec::new();
        acts.push(Action::DialAddress { connection_id, address: rendezvous_point.clone() });
        proof {
            assert(self.pending_rendezvous@.no_duplicates()) by {
                assert(forall|i: int|
                    0 <= i < old(self).pending_rendezvous@.len()
                        ==> old(self).pending_rendezvous@[i] != connection_id);
            }
            assert(self@ =~~= (ControllerView {
                pending_rendezvous: old(self)@.pending_rendezvous.push(
                    old(self).next_connection_id,
                ),
                next_connection_id: (old(self).next_connection_id + 1) as u64,
                ..old(self)@
            }));
            assert(acts_view(acts@) =~~= seq![
                ActionSpec::DialAddress {
                    connection_id: old(self).next_connection_id,
                    address: rendezvous_point@,
                },
            ]);
        }
        acts
    }

    /// Note `relay` as a relay peer; unless this node is itself a relay,
    /// dial it, recording the dial as pending.
    pub fn add_relay(&mut self, relay: &PeerId) -> (r: Vec<Action>)
        requires
            old(self).wf(),
            old(self).next_connection_id < u64::MAX,
        ensures
            final(self).wf(),
            final(self)@ == (ControllerView {
                relays: (if has_id(old(self)@.relays, relay@) {
                    old(self)@.relays
                } else {
                    old(self)@.relays.push(relay@)
                }),
                pending_relay: (if old(self).is_relay {
                    old(self)@.pending_relay
                } else {
                    old(self)@.pending_relay.push(old(self).next_connection_id)
                }),
                next_connection_id: (if old(self).is_relay {
                    old(self).next_connection_id
                } else {
                    (old(self).next_connection_id + 1) as u64
                }),
                ..old(self)@
            }),
            acts_view(r@) == (if old(self).is_relay {
                Seq::<ActionSpec>::empty()
            } else {
                seq![
                    ActionSpec::DialPeer {
                        connection_id: old(self).next_connection_id,
                        peer: relay@,
                    },
                ]
            }),
    {
        broadcast use lemma_acts_view_push;

        insert_id(&mut self.relays, relay.clone());
        let mut acts: Vec<Action> = Vec::new();
        if self.is_relay {
            assert(self@ =~~= (ControllerView {
                relays: (if has_id(old(self)@.relays, relay@) {
                    old(self)@.relays
                } else {
                    old(self)@.relays.push(relay@)
                }),
                ..old(self)@
            }));
            assert(acts_view(acts@) =~~= Seq::<ActionSpec>::empty());
            return acts;
        }
        let connection_id = self.next_connection_id;
        self.next_connection_id = self.next_connection_id + 1;
        self.pending_relay.push(connection_id);
        acts.push(Action::DialPeer { connection_id, peer: relay.clone() });
        proof {
            assert(self.pending_relay@.no_duplicates()) by {
                assert(forall|i: int|
                    0 <= i < old(self).pending_relay@.len() ==> old(self).pending_relay@[i]
                        != connection_id);
            }
            assert(self@ =~~= (ControllerView {
                relays: (if has_id(old(self)@.relays, relay@) {
                    old(self)@.relays
                } else {
                    old(self)@.relays.push(relay@)
                }),
                pending_relay: old(self)@.pending_relay.push(old(self).next_connection_id),
                next_connection_id: (old(self).next_connection_id + 1) as u64,
                ..old(self)@
            }));
            assert(acts_view(acts@) =~~= seq![
                ActionSpec::DialPeer {
                    connection_id: old(self).next_connection_id,
                    peer: relay@,
                },
            ]);
        }
        acts
    }

    /// Issue a discovery under the participating-nodes namespace against
    /// every rendezvous point, each replaying its stored cookie.
    pub fn discover_preers(&self) -> (r: Vec<Action>)
        requires
            self.wf(),
        ensures
            acts_view(r@) == discover_all(self@),
    {
        broadcast use lemma_acts_view_push;

        let mut acts: Vec<Action> = Vec::new();
        let mut i: usize = 0;
        while i < self.rendezvous_points.len()
            invariant
                self.wf(),
                i <= self.rendezvous_points@.len(),
                acts_view(acts@) == discover_all(self@).take(i as int),
            decreases self.rendezvous_points@.len() - i,
        {
            let ghost pre_acts = acts@;
            let cookie = cookie_get(
                &self.cookies,
                &self.rendezvous_points[i],
                Some(Namespace::Preers),
            );
            let act = Action::Discover {
                rendezvous: self.rendezvous_points[i].clone(),
                namespace: Namespace::Preers,
                cookie,
            };
            proof {
                let dv = discover_all(self@);
                assert(self@.rendezvous_points[i as int] == self.rendezvous_points@[i as int]@);
                assert(act@ == dv[i as int]);
                assert(dv.take(i + 1) =~~= dv.take(i as int).push(dv[i as int]));
            }
            acts.push(act);
            i = i + 1;
            assert(acts_view(acts@) =~~= discover_all(self@).take(i as int));
        }
        assert(discover_all(self@).take(self.rendezvous_points@.len() as int) =~~= discover_all(
            self@,
        ));
        acts
    }

    /// Integrate one command from the mailbox: the next state is this
    /// controller after the call, and the returned actions are what the
    /// runtime must carry out, in order.
    ///
    /// A peer enters the relays set through `AddRelay` and through
    /// nothing else here; each round of `TalkToRendezvous` issues
    /// exactly one registration per namespace; and `UseService` issues
    /// its discoveries before the forwarder is spawned.
    pub fn handle_command(&mut self, command: Command) -> (r: Vec<Action>)
        requires
            old(self).wf(),
            old(self).next_connection_id < u64::MAX,
        ensures
            final(self).wf(),
            command matches Command::AddRendezvous(address) ==> {
                &&& final(self)@ == (ControllerView {
                    rendezvous_list: old(self)@.rendezvous_list.push(address@),
                    pending_rendezvous: old(self)@.pending_rendezvous.push(
                        old(self).next_connection_id,
                    ),
                    next_connection_id: (old(self).next_connection_id + 1) as u64,
                    ..old(self)@
                })
                &&& acts_view(r@) == seq![
                    ActionSpec::DialAddress {
                        connection_id: old(self).next_connection_id,
                        address: address@,
                    },
                ]
            },
            command matches Command::AddRelay(relay) ==> {
                &&& final(self)@ == (ControllerView {
                    relays: (if has_id(old(self)@.relays, relay@) {
                        old(self)@.relays
                    } else {
                        old(self)@.relays.push(relay@)
                    }),
                    pending_relay: (if old(self).is_relay {
                        old(self)@.pending_relay
                    } else {
                        old(self)@.pending_relay.push(old(self).next_connection_id)
                    }),
                    next_connection_id: (if old(self).is_relay {
                        old(self).next_connection_id
                    } else {
                        (old(self).next_connection_id + 1) as u64
                    }),
                    ..old(self)@
                })
                &&& acts_view(r@) == (if old(self).is_relay {
                    Seq::<ActionSpec>::empty()
                } else {
                    seq![
                        ActionSpec::DialPeer {
                            connection_id: old(self).next_connection_id,
                            peer: relay@,
                        },
                    ]
                })
            },
            command matches Command::TalkToRendezvous(rendezvous_point) ==> {
                &&& final(self)@ == old(self)@
                &&& acts_view(r@) == talk_actions(old(self)@, rendezvous_point@)
            },
            command matches Command::GetNetworkInfo ==> {
                &&& final(self)@ == old(self)@
                &&& acts_view(r@) == seq![
                    ActionSpec::ReplyNetworkInfo { peers: old(self)@.peers },
                ]
            },
            command matches Command::UseService(service) ==> {
                &&& final(self)@ == old(self)@
                &&& acts_view(r@) == discover_all(old(self)@).push(
                    ActionSpec::SpawnForwarder { service: service@ },
                )
            },
            command matches Command::ProvideService(service) ==> {
                &&& final(self)@ == old(self)@
                &&& acts_view(r@) == seq![
                    ActionSpec::AddAllowedService { service: service@ },
                ]
            },
            forall|q: Seq<u8>|
                #[trigger] has_id(final(self)@.relays, q) == (has_id(old(self)@.relays, q) || (
                command matches Command::AddRelay(relay) && q == relay@)),
    {
        broadcast use lemma_acts_view_push, lemma_acts_view_concat, lemma_has_id_push;

        match command {
            Command::AddRendezvous(rendezvous_point) => {
                let acts = self.add_rendezvous(&rendezvous_point);
                self.rendezvous_list.push(rendezvous_point);
                proof {
                    assert(final(self)@ =~~= (ControllerView {
                        rendezvous_list: old(self)@.rendezvous_list.push(
                            addrs_view(self.rendezvous_list@).last(),
                        ),
                        pending_rendezvous: old(self)@.pending_rendezvous.push(
                            old(self).next_connection_id,
                        ),
                        next_connection_id: (old(self).next_connection_id + 1) as u64,
                        ..old(self)@
                    }));
                }
                acts
            },
            Command::AddRelay(relay) => self.add_relay(&relay),
            Command::TalkToRendezvous(rendezvous_point) => {
                let mut acts = self.register_at(&rendezvous_point);
                if !self.is_relay && !self.is_rendezvous {
                    let cookie = cookie_get(
                        &self.cookies,
                        &rendezvous_point,
                        Some(Namespace::Relay),
                    );
                    acts.push(
                        Action::Discover {
                            rendezvous: rendezvous_point.clone(),
                            namespace: Namespace::Relay,
                            cookie,
                        },
                    );
                }
                let cookie = cookie_get(&self.cookies, &rendezvous_point, Some(Namespace::Preers));
                acts.push(
                    Action::Discover {
                        rendezvous: rendezvous_point.clone(),
                        namespace: Namespace::Preers,
                        cookie,
                    },
                );
                assert(acts_view(acts@) =~~= talk_actions(old(self)@, rendezvous_point@));
                acts
            },
            Command::GetNetworkInfo => {
                let mut acts: Vec<Action> = Vec::new();
                acts.push(Action::ReplyNetworkInfo { peers: clone_ids(&self.peers) });
                assert(acts_view(acts@) =~~= seq![
                    ActionSpec::ReplyNetworkInfo { peers: old(self)@.peers },
                ]);
                acts
            },
            Command::UseService(service) => {
                let mut acts = self.discover_preers();
                acts.push(Action::SpawnForwarder { service });
                acts
            },
            Command::ProvideService(service) => {
                let ghost sv = service@;
                let mut acts: Vec<Action> = Vec::new();
                acts.push(Action::AddAllowedService { service });
                assert(acts_view(acts@) =~~= seq![ActionSpec::AddAllowedService { service: sv }]);
                acts
            },
        }
    }

    /// One round of registrations against every rendezvous point, for a
    /// replay after a reservation or a confirmed external address.
    fn register_everywhere(&self) -> (r: Vec<Action>)
        ensures
            acts_view(r@) == register_all(self@.rendezvous_points, self.is_relay),
    {
        broadcast use lemma_acts_view_concat;

        let mut acts: Vec<Action> = Vec::new();
        let ghost points = self@.rendezvous_points;
        let mut i: usize = 0;
        assert(acts_view(acts@) =~~= register_all(points.take(0), self.is_relay));
        while i < self.rendezvous_points.len()
            invariant
                i <= self.rendezvous_points@.len(),
                points == self@.rendezvous_points,
                acts_view(acts@) == register_all(points.take(i as int), self.is_relay),
            decreases self.rendezvous_points@.len() - i,
        {
            let mut sub = self.register_at(&self.rendezvous_points[i]);
            acts.append(&mut sub);
            i = i + 1;
            proof {
                assert(points.take(i as int).drop_last() =~= points.take(i - 1));
                assert(points.take(i as int).last() == points[i - 1]);
                assert(register_all(points.take(i as int), self.is_relay) == register_all(
                    points.take(i - 1),
                    self.is_relay,
                ) + register_actions(points[i - 1], self.is_relay));
            }
        }
        assert(points.take(points.len() as int) =~= points);
        acts
    }

    /// Integrate one event from the overlay: the next state is this
    /// controller after the call, and the returned actions are what the
    /// runtime must carry out, in order.
    ///
    /// A peer enters the relays set only through a discovery answer
    /// under the relay namespace; a confirmed reservation or external
    /// address replays exactly one round of registrations per rendezvous
    /// point; and a discovery answer replaces exactly the cookie of its
    /// own `(rendezvous, namespace)` pair.
    pub fn handle_event(&mut self, event: Event) -> (r: Vec<Action>)
        requires
            old(self).wf(),
            old(self).next_connection_id as int + event_dial_bound(event) <= u64::MAX,
        ensures
            final(self).wf(),
            event matches Event::NewListenAddr { address } ==> {
                &&& final(self)@ == old(self)@
                &&& acts_view(r@) == seq![
                    ActionSpec::ConfirmExternalAddress { address: address@ },
                ]
            },
            event matches Event::ConnectionEstablished { peer, connection_id, dial_address }
                ==> {
                let was_pending = has_conn(old(self)@.pending_rendezvous, connection_id);
                &&& final(self)@ == (ControllerView {
                    peers: (if has_id(old(self)@.peers, peer@) {
                        old(self)@.peers
                    } else {
                        old(self)@.peers.push(peer@)
                    }),
                    rendezvous_points: (if was_pending && !has_id(
                        old(self)@.rendezvous_points,
                        peer@,
                    ) {
                        old(self)@.rendezvous_points.push(peer@)
                    } else {
                        old(self)@.rendezvous_points
                    }),
                    pending_rendezvous: final(self)@.pending_rendezvous,
                    ..old(self)@
                })
                &&& conn_removed(
                    old(self)@.pending_rendezvous,
                    final(self)@.pending_rendezvous,
                    connection_id,
                )
                &&& acts_view(r@) == (if was_pending {
                    seq![ActionSpec::SpawnRendezvousTicker { rendezvous: peer@ }]
                } else {
                    Seq::<ActionSpec>::empty()
                }) + (match dial_address {
                    Some(address) => if has_id(old(self)@.relays, peer@) {
                        seq![
                            ActionSpec::ListenOn {
                                address: crate::multiaddr::spec_relay_listen_address(
                                    address@,
                                    peer@,
                                ),
                            },
                        ]
                    } else {
                        Seq::<ActionSpec>::empty()
                    },
                    None => Seq::<ActionSpec>::empty(),
                })
            },
            event matches Event::OutgoingConnectionError { connection_id } ==> {
                &&& final(self)@ == (ControllerView {
                    pending_rendezvous: final(self)@.pending_rendezvous,
                    pending_relay: final(self)@.pending_relay,
                    ..old(self)@
                })
                &&& conn_removed(
                    old(self)@.pending_rendezvous,
                    final(self)@.pending_rendezvous,
                    connection_id,
                )
                &&& conn_removed(
                    old(self)@.pending_relay,
                    final(self)@.pending_relay,
                    connection_id,
                )
                &&& acts_view(r@) == Seq::<ActionSpec>::empty()
            },
            event matches Event::Registered { .. } ==> final(self)@ == old(self)@ && acts_view(r@)
                == Seq::<ActionSpec>::empty(),
            event matches Event::RegisterFailed { .. } ==> final(self)@ == old(self)@ && acts_view(
                r@,
            ) == Seq::<ActionSpec>::empty(),
            event matches Event::PingSuccess { .. } ==> final(self)@ == old(self)@ && acts_view(r@)
                == Seq::<ActionSpec>::empty(),
            event matches Event::ConnectionClosed { .. } ==> final(self)@ == old(self)@
                && acts_view(r@) == Seq::<ActionSpec>::empty(),
            event matches Event::Discovered { rendezvous, namespace, cookie, peers }
                ==> discovered_post(
                old(self)@,
                final(self)@,
                rendezvous@,
                namespace,
                cookie,
                ids_view(peers@),
                acts_view(r@),
            ),
            event matches Event::ReservationAccepted { .. } ==> final(self)@ == old(self)@
                && acts_view(r@) == register_all(old(self)@.rendezvous_points, old(self).is_relay),
            event matches Event::ExternalAddrConfirmed { .. } ==> final(self)@ == old(self)@
                && acts_view(r@) == register_all(old(self)@.rendezvous_points, old(self).is_relay),
            forall|q: Seq<u8>|
                #[trigger] has_id(final(self)@.relays, q) == (has_id(old(self)@.relays, q) || (
                event matches Event::Discovered { namespace, peers, .. } && namespace == Some(
                    Namespace::Relay,
                ) && has_id(ids_view(peers@), q))),
    {
        broadcast use lemma_acts_view_push, lemma_acts_view_concat, lemma_has_id_push;

        match event {
            Event::NewListenAddr { address } => {
                let ghost av = address@;
                let mut acts: Vec<Action> = Vec::new();
                acts.push(Action::ConfirmExternalAddress { address });
                assert(acts_view(acts@) =~~= seq![
                    ActionSpec::ConfirmExternalAddress { address: av },
                ]);
                acts
            },
            Event::ConnectionEstablished { peer, connection_id, dial_address } => {
                let mut acts: Vec<Action> = Vec::new();
                insert_id(&mut self.peers, peer.clone());
                let was_pending = remove_conn(&mut self.pending_rendezvous, connection_id);
                if was_pending {
                    insert_id(&mut self.rendezvous_points, peer.clone());
                    acts.push(Action::SpawnRendezvousTicker { rendezvous: peer.clone() });
                }
                if contains_id(&self.relays, &peer) {
                    match dial_address {
                        Some(address) => {
                            acts.push(
                                Action::ListenOn {
                                    address: crate::multiaddr::relay_listen_address(
                                        &address,
                                        &peer,
                                    ),
                                },
                            );
                        },
                        None => {},
                    }
                }
                proof {
                    assert forall|k: int|
                        0 <= k < self.pending_rendezvous@.len() implies self.pending_rendezvous@[k]
                        < self.next_connection_id by {
                        let y = self.pending_rendezvous@[k];
                        assert(has_conn(self.pending_rendezvous@, y));
                        assert(has_conn(old(self).pending_rendezvous@, y));
                        let m = choose|m: int|
                            0 <= m < old(self).pending_rendezvous@.len() && old(
                                self,
                            ).pending_rendezvous@[m] == y;
                        assert(old(self).pending_rendezvous@[m] < old(self).next_connection_id);
                    };
                    assert forall|k: int|
                        0 <= k < self.pending_relay@.len() implies self.pending_relay@[k]
                        < self.next_connection_id by {
                        let y = self.pending_relay@[k];
                        assert(has_conn(self.pending_relay@, y));
                        assert(has_conn(old(self).pending_relay@, y));
                        let m = choose|m: int|
                            0 <= m < old(self).pending_relay@.len() && old(self).pending_relay@[m]
                                == y;
                        assert(old(self).pending_relay@[m] < old(self).next_connection_id);
                    };
                }
                proof {
                    assert(final(self)@ =~~= (ControllerView {
                        peers: (if has_id(old(self)@.peers, peer@) {
                            old(self)@.peers
                        } else {
                            old(self)@.peers.push(peer@)
                        }),
                        rendezvous_points: (if was_pending && !has_id(
                            old(self)@.rendezvous_points,
                            peer@,
                        ) {
                            old(self)@.rendezvous_points.push(peer@)
                        } else {
                            old(self)@.rendezvous_points
                        }),
                        pending_rendezvous: final(self)@.pending_rendezvous,
                        ..old(self)@
                    }));
                }
                acts
            },
            Event::OutgoingConnectionError { connection_id } => {
                let acts: Vec<Action> = Vec::new();
                remove_conn(&mut self.pending_relay, connection_id);
                remove_conn(&mut self.pending_rendezvous, connection_id);
                proof {
                    assert forall|k: int|
                        0 <= k < self.pending_rendezvous@.len() implies self.pending_rendezvous@[k]
                        < self.next_connection_id by {
                        let y = self.pending_rendezvous@[k];
                        assert(has_conn(self.pending_rendezvous@, y));
                        assert(has_conn(old(self).pending_rendezvous@, y));
                        let m = choose|m: int|
                            0 <= m < old(self).pending_rendezvous@.len() && old(
                                self,
                            ).pending_rendezvous@[m] == y;
                        assert(old(self).pending_rendezvous@[m] < old(self).next_connection_id);
                    };
                    assert forall|k: int|
                        0 <= k < self.pending_relay@.len() implies self.pending_relay@[k]
                        < self.next_connection_id by {
                        let y = self.pending_relay@[k];
                        assert(has_conn(self.pending_relay@, y));
                        assert(has_conn(old(self).pending_relay@, y));
                        let m = choose|m: int|
                            0 <= m < old(self).pending_relay@.len() && old(self).pending_relay@[m]
                                == y;
                        assert(old(self).pending_relay@[m] < old(self).next_connection_id);
                    };
                }
                proof {
                    assert(final(self)@ =~~= (ControllerView {
                        pending_rendezvous: final(self)@.pending_rendezvous,
                        pending_relay: final(self)@.pending_relay,
                        ..old(self)@
                    }));
                    assert(acts_view(acts@) =~~= Seq::<ActionSpec>::empty());
                }
                acts
            },
            Event::Registered { .. } => {
                let acts: Vec<Action> = Vec::new();
                assert(acts_view(acts@) =~~= Seq::<ActionSpec>::empty());
                acts
            },
            Event::RegisterFailed { .. } => {
                let acts: Vec<Action> = Vec::new();
                assert(acts_view(acts@) =~~= Seq::<ActionSpec>::empty());
                acts
            },
            Event::PingSuccess { .. } => {
                let acts: Vec<Action> = Vec::new();
                assert(acts_view(acts@) =~~= Seq::<ActionSpec>::empty());
                acts
            },
            Event::ConnectionClosed { .. } => {
                let acts: Vec<Action> = Vec::new();
                assert(acts_view(acts@) =~~= Seq::<ActionSpec>::empty());
                acts
            },
            Event::Discovered { rendezvous, namespace, cookie, peers } => {
                let ghost pre = old(self)@;
                let ghost found = ids_view(peers@);
                cookie_put(&mut self.cookies, rendezvous, namespace, cookie);
                let ghost mid0 = self@;
                let mut i: usize = 0;
                while i < peers.len()
                    invariant
                        i <= peers@.len(),
                        found == ids_view(peers@),
                        self.wf(),
                        self@ == (ControllerView { peers: self@.peers, ..mid0 }),
                        mid0.peers == pre.peers,
                        forall|q: Seq<u8>|
                            #[trigger] has_id(self@.peers, q) == (has_id(pre.peers, q)
                                || found.take(i as int).contains(q)),
                    decreases peers@.len() - i,
                {
                    let ghost prev = self@.peers;
                    insert_id(&mut self.peers, peers[i].clone());
                    i = i + 1;
                    proof {
                        assert(found.take(i as int) =~= found.take(i - 1).push(found[i - 1]));
                        assert(self@.peers == if has_id(prev, found[i - 1]) {
                            prev
                        } else {
                            prev.push(found[i - 1])
                        });
                        assert forall|q: Seq<u8>|
                            #[trigger] has_id(self@.peers, q) == (has_id(pre.peers, q)
                                || found.take(i as int).contains(q)) by {
                            lemma_has_id_push(found.take(i - 1), found[i - 1], q);
                            if !has_id(prev, found[i - 1]) {
                                lemma_has_id_push(prev, found[i - 1], q);
                            }
                        }
                        assert(self@ =~~= (ControllerView { peers: self@.peers, ..mid0 }));
                    }
                }
                assert(found.take(found.len() as int) =~= found);
                let is_relay_namespace = namespace_opt_eq(namespace, Some(Namespace::Relay));
                let mut acts: Vec<Action> = Vec::new();
                if is_relay_namespace {
                    let ghost mid = self@;
                    let mut j: usize = 0;
                    while j < peers.len()
                        invariant
                            j <= peers@.len(),
                            found == ids_view(peers@),
                            self.next_connection_id as int + (found.len() - j) <= u64::MAX,
                            self.wf(),
                            self@ == (ControllerView {
                                relays: self@.relays,
                                pending_relay: self@.pending_relay,
                                next_connection_id: self@.next_connection_id,
                                ..mid
                            }),
                            forall|q: Seq<u8>|
                                #[trigger] has_id(self@.relays, q) == (has_id(mid.relays, q)
                                    || found.take(j as int).contains(q)),
                            self.is_relay ==> self@.pending_relay == mid.pending_relay
                                && self@.next_connection_id == mid.next_connection_id
                                && acts@.len() == 0,
                            !self.is_relay ==> {
                                &&& self@.next_connection_id == mid.next_connection_id + j
                                &&& self@.pending_relay == mid.pending_relay + Seq::new(
                                    j as nat,
                                    |k: int| (mid.next_connection_id + k) as u64,
                                )
                                &&& acts_view(acts@) == Seq::new(
                                    j as nat,
                                    |k: int|
                                        ActionSpec::DialPeer {
                                            connection_id: (mid.next_connection_id + k) as u64,
                                            peer: found[k],
                                        },
                                )
                            },
                        decreases peers@.len() - j,
                    {
                        let ghost prev = self@;
                        let ghost prev_acts = acts@;
                        let mut sub = self.add_relay(&peers[j]);
                        let ghost subv = sub@;
                        acts.append(&mut sub);
                        j = j + 1;
                        proof {
                            assert(acts@ == prev_acts + subv);
                            assert(found[j - 1] == peers@[j - 1]@);
                            assert(found.take(j as int) =~= found.take(j - 1).push(found[j - 1]));
                            assert(self@.relays == if has_id(prev.relays, found[j - 1]) {
                                prev.relays
                            } else {
                                prev.relays.push(found[j - 1])
                            });
                            assert forall|q: Seq<u8>|
                                #[trigger] has_id(self@.relays, q) == (has_id(mid.relays, q)
                                    || found.take(j as int).contains(q)) by {
                                lemma_has_id_push(found.take(j - 1), found[j - 1], q);
                                if !has_id(prev.relays, found[j - 1]) {
                                    lemma_has_id_push(prev.relays, found[j - 1], q);
                                }
                            }
                            if self.is_relay {
                                assert(acts_view(subv) == Seq::<ActionSpec>::empty());
                                assert(subv.len() == acts_view(subv).len());
                                assert(acts@ =~= prev_acts);
                            } else {
                                assert(prev.next_connection_id as int == mid.next_connection_id
                                    + (j - 1));
                                assert(mid.next_connection_id + (j - 1) <= u64::MAX);
                                assert(prev.next_connection_id == (mid.next_connection_id + (j
                                    - 1)) as u64);
                                assert(acts_view(subv) == seq![
                                    ActionSpec::DialPeer {
                                        connection_id: prev.next_connection_id,
                                        peer: found[j - 1],
                                    },
                                ]);
                                assert(acts_view(acts@) == acts_view(prev_acts) + acts_view(subv));
                                assert(self@.pending_relay =~= mid.pending_relay + Seq::new(
                                    j as nat,
                                    |k: int| (mid.next_connection_id + k) as u64,
                                ));
                                assert(acts_view(acts@) =~~= Seq::new(
                                    j as nat,
                                    |k: int|
                                        ActionSpec::DialPeer {
                                            connection_id: (mid.next_connection_id + k) as u64,
                                            peer: found[k],
                                        },
                                ));
                            }
                            assert(self@ =~~= (ControllerView {
                                relays: self@.relays,
                                pending_relay: self@.pending_relay,
                                next_connection_id: self@.next_connection_id,
                                ..mid
                            }));
                        }
                    }
                    assert(found.take(found.len() as int) =~= found);
                    proof {
                        assert(mid.next_connection_id == pre.next_connection_id);
                        assert(mid.pending_relay == pre.pending_relay);
                        if !self.is_relay {
                            assert(acts_view(acts@) =~~= Seq::new(
                                found.len(),
                                |k: int|
                                    ActionSpec::DialPeer {
                                        connection_id: (pre.next_connection_id + k) as u64,
                                        peer: found[k],
                                    },
                            ));
                            assert(self@.pending_relay =~= pre.pending_relay + Seq::new(
                                found.len(),
                                |k: int| (pre.next_connection_id + k) as u64,
                            ));
                        } else {
                            assert(acts_view(acts@) =~= Seq::<ActionSpec>::empty());
                        }
                    }
                } else {
                    assert(acts_view(acts@) =~~= Seq::<ActionSpec>::empty());
                }
                acts
            },
            Event::ReservationAccepted { .. } => self.register_everywhere(),
            Event::ExternalAddrConfirmed { .. } => self.register_everywhere(),
        }
    }

    /// Start the node: open the listen addresses, dial every stored
    /// rendezvous address, start a forwarder per used service, confirm a
    /// configured external address, and hand every provided service to
    /// the acceptor's allow-set, in that order.
    #[verifier::loop_isolation(false)]
    pub fn init(
        &mut self,
        port: u16,
        used_services: Vec<UseService>,
        provided_services: Vec<ProvideService>,
        external_address: Option<Multiaddr>,
    ) -> (r: Vec<Action>)
        requires
            old(self).wf(),
            old(self).next_connection_id as int + old(self).rendezvous_list@.len() <= u64::MAX,
        ensures
            final(self).wf(),
            final(self)@ == (ControllerView {
                pending_rendezvous: old(self)@.pending_rendezvous + Seq::new(
                    old(self)@.rendezvous_list.len(),
                    |k: int| (old(self).next_connection_id + k) as u64,
                ),
                next_connection_id: (old(self).next_connection_id
                    + old(self)@.rendezvous_list.len()) as u64,
                ..old(self)@
            }),
            acts_view(r@) == init_actions(
                old(self)@,
                port,
                used_services@.map_values(|s: UseService| s@),
                provided_services@.map_values(|s: ProvideService| s@),
                match external_address {
                    Some(a) => Some(a@),
                    None => None,
                },
            ),
    {
        broadcast use lemma_acts_view_push, lemma_acts_view_concat;

        let ghost pre = self@;
        let mut acts: Vec<Action> = Vec::new();
        let mut listens = crate::multiaddr::listen_addresses(port);
        let a0 = listens.remove(0);
        let a1 = listens.remove(0);
        let a2 = listens.remove(0);
        let a3 = listens.remove(0);
        acts.push(Action::ListenOn { address: a0 });
        acts.push(Action::ListenOn { address: a1 });
        acts.push(Action::ListenOn { address: a2 });
        acts.push(Action::ListenOn { address: a3 });
        assert(acts_view(acts@) =~~= listen_actions(port));

        let mut i: usize = 0;
        while i < self.rendezvous_list.len()
            invariant
                i <= self.rendezvous_list@.len(),
                self.wf(),
                self@ == (ControllerView {
                    pending_rendezvous: pre.pending_rendezvous + Seq::new(
                        i as nat,
                        |k: int| (pre.next_connection_id + k) as u64,
                    ),
                    next_connection_id: (pre.next_connection_id + i) as u64,
                    ..pre
                }),
                pre.next_connection_id + pre.rendezvous_list.len() <= u64::MAX,
                acts_view(acts@) == listen_actions(port) + Seq::new(
                    i as nat,
                    |k: int|
                        ActionSpec::DialAddress {
                            connection_id: (pre.next_connection_id + k) as u64,
                            address: pre.rendezvous_list[k],
                        },
                ),
            decreases self.rendezvous_list@.len() - i,
        {
            let ghost prev = self@;
            let ghost prev_acts = acts@;
            let address = self.rendezvous_list[i].clone();
            let mut sub = self.add_rendezvous(&address);
            let ghost subv = sub@;
            acts.append(&mut sub);
            i = i + 1;
            proof {
                assert(acts@ == prev_acts + subv);
                assert(address@ == pre.rendezvous_list[i - 1]);
                assert(prev.next_connection_id as int == pre.next_connection_id + (i - 1));
                assert(prev.next_connection_id == (pre.next_connection_id + (i - 1)) as u64);
                assert(self@.pending_rendezvous =~= pre.pending_rendezvous + Seq::new(
                    i as nat,
                    |k: int| (pre.next_connection_id + k) as u64,
                ));
                assert(acts_view(acts@) =~~= listen_actions(port) + Seq::new(
                    i as nat,
                    |k: int|
                        ActionSpec::DialAddress {
                            connection_id: (pre.next_connection_id + k) as u64,
                            address: pre.rendezvous_list[k],
                        },
                ));
                assert(self@ =~~= (ControllerView {
                    pending_rendezvous: self@.pending_rendezvous,
                    next_connection_id: self@.next_connection_id,
                    ..pre
                }));
            }
        }

        let ghost used_v = used_services@.map_values(|s: UseService| s@);
        let mut i: usize = 0;
        while i < used_services.len()
            invariant
                i <= used_services@.len(),
                used_v == used_services@.map_values(|s: UseService| s@),
                acts_view(acts@) == listen_actions(port) + dial_actions(pre) + Seq::new(
                    i as nat,
                    |k: int| ActionSpec::SpawnForwarder { service: used_v[k] },
                ),
            decreases used_services@.len() - i,
        {
            acts.push(Action::SpawnForwarder { service: used_services[i].clone() });
            i = i + 1;
            assert(acts_view(acts@) =~~= listen_actions(port) + dial_actions(pre) + Seq::new(
                i as nat,
                |k: int| ActionSpec::SpawnForwarder { service: used_v[k] },
            ));
        }

        match &external_address {
            Some(address) => {
                acts.push(Action::ConfirmExternalAddress { address: address.clone() });
            },
            None => {},
        }

        let ghost prov_v = provided_services@.map_values(|s: ProvideService| s@);
        let ghost base = acts_view(acts@);
        let mut i: usize = 0;
        while i < provided_services.len()
            invariant
                i <= provided_services@.len(),
                prov_v == provided_services@.map_values(|s: ProvideService| s@),
                acts_view(acts@) == base + Seq::new(
                    i as nat,
                    |k: int| ActionSpec::AddAllowedService { service: prov_v[k] },
                ),
            decreases provided_services@.len() - i,
        {
            acts.push(Action::AddAllowedService { service: provided_services[i].clone() });
            i = i + 1;
            assert(acts_view(acts@) =~~= base + Seq::new(
                i as nat,
                |k: int| ActionSpec::AddAllowedService { service: prov_v[k] },
            ));
        }
        proof {
            assert(acts_view(acts@) =~~= init_actions(
                pre,
                port,
                used_v,
                prov_v,
                match external_address {
                    Some(a) => Some(a@),
                    None => None,
                },
            ));
            assert(self@ =~~= (ControllerView {
                pending_rendezvous: pre.pending_rendezvous + Seq::new(
                    pre.rendezvous_list.len(),
                    |k: int| (pre.next_connection_id + k) as u64,
                ),
                next_connection_id: (pre.next_connection_id + pre.rendezvous_list.len()) as u64,
                ..pre
            }));
        }
        acts
    }
}

/// The listen actions a node issues at start for `port`.
pub open spec fn listen_actions(port: u16) -> Seq<ActionSpec> {
    seq![
        ActionSpec::ListenOn {
            address: seq![ProtocolSpec::Ip4(0, 0, 0, 0), ProtocolSpec::Tcp(port)],
        },
        ActionSpec::ListenOn {
            address: seq![
                ProtocolSpec::Ip6(
                    crate::multiaddr::Ipv6Segments {
                        s0: 0,
                        s1: 0,
                        s2: 0,
                        s3: 0,
                        s4: 0,
                        s5: 0,
                        s6: 0,
                        s7: 0,
                    },
                ),
                ProtocolSpec::Tcp(port),
            ],
        },
        ActionSpec::ListenOn {
            address: seq![
                ProtocolSpec::Ip4(0, 0, 0, 0),
                ProtocolSpec::Udp(port),
                ProtocolSpec::QuicV1,
            ],
        },
        ActionSpec::ListenOn {
            address: seq![
                ProtocolSpec::Ip6(
                    crate::multiaddr::Ipv6Segments {
                        s0: 0,
                        s1: 0,
                        s2: 0,
                        s3: 0,
                        s4: 0,
                        s5: 0,
                        s6: 0,
                        s7: 0,
                    },
                ),
                ProtocolSpec::Udp(port),
                ProtocolSpec::QuicV1,
            ],
        },
    ]
}

/// The dials a node issues at start: one per stored rendezvous address,
/// each under a fresh pending connection identifier.
pub open spec fn dial_actions(pre: ControllerView) -> Seq<ActionSpec> {
    Seq::new(
        pre.rendezvous_list.len(),
        |k: int|
            ActionSpec::DialAddress {
                connection_id: (pre.next_connection_id + k) as u64,
                address: pre.rendezvous_list[k],
            },
    )
}

/// How many registrations in `s` target `(rdv, ns)`.
pub open spec fn count_registers(s: Seq<ActionSpec>, rdv: Seq<u8>, ns: Namespace) -> int
    decreases s.len(),
{
    if s.len() == 0 {
        0
    } else {
        count_registers(s.drop_last(), rdv, ns) + (match s.last() {
            ActionSpec::Register { rendezvous, namespace, .. } => if rendezvous == rdv && namespace
                == ns {
                1int
            } else {
                0
            },
            _ => 0,
        })
    }
}

/// Counting registrations distributes over concatenation.
proof fn lemma_count_registers_concat(a: Seq<ActionSpec>, b: Seq<ActionSpec>, rdv: Seq<u8>, ns: Namespace)
    ensures
        count_registers(a + b, rdv, ns) == count_registers(a, rdv, ns) + count_registers(
            b,
            rdv,
            ns,
        ),
    decreases b.len(),
{
    if b.len() == 0 {
        assert(a + b =~= a);
    } else {
        assert((a + b).drop_last() =~= a + b.drop_last());
        assert((a + b).last() == b.last());
        lemma_count_registers_concat(a, b.drop_last(), rdv, ns);
    }
}

/// One round of registrations against one rendezvous point counts one
/// registration under the participating-nodes namespace, one under the
/// relay namespace exactly when this node is a relay, and none against
/// any other rendezvous point.
proof fn lemma_count_register_actions(p: Seq<u8>, is_relay: bool, rdv: Seq<u8>, ns: Namespace)
    ensures
        count_registers(register_actions(p, is_relay), rdv, ns) == (if p == rdv && (ns
            == Namespace::Preers || is_relay) {
            1int
        } else {
            0
        }),
{
    reveal_with_fuel(count_registers, 3);
    let base = seq![
        ActionSpec::Register {
            rendezvous: p,
            namespace: Namespace::Preers,
            ttl_seconds: REGISTRATION_TTL_SECONDS,
        },
    ];
    assert(base.drop_last() =~= Seq::<ActionSpec>::empty());
    assert(count_registers(Seq::<ActionSpec>::empty(), rdv, ns) == 0);
    if is_relay {
        assert(register_actions(p, is_relay).drop_last() =~= base);
    }
}

/// Registration uniqueness: one round of talking to a rendezvous point
/// issues exactly one registration under the participating-nodes
/// namespace and exactly one under the relay namespace when this node is
/// a relay — never two. (That the controller holds at most one cookie
/// per `(rendezvous, namespace)` pair is its invariant: `wf` demands
/// distinct cookie keys, and every transition keeps it.)
pub proof fn law_registration_uniqueness(c: ControllerView, rdv: Seq<u8>)
    ensures
        count_registers(talk_actions(c, rdv), rdv, Namespace::Preers) == 1,
        count_registers(talk_actions(c, rdv), rdv, Namespace::Relay) == (if c.is_relay {
            1int
        } else {
            0
        }),
{
    reveal_with_fuel(count_registers, 3);
    let regs = register_actions(rdv, c.is_relay);
    let mid = if !c.is_relay && !c.is_rendezvous {
        seq![
            ActionSpec::Discover {
                rendezvous: rdv,
                namespace: Namespace::Relay,
                cookie: stored_cookie(c.cookies, rdv, Some(Namespace::Relay)),
            },
        ]
    } else {
        Seq::<ActionSpec>::empty()
    };
    let tail = seq![
        ActionSpec::Discover {
            rendezvous: rdv,
            namespace: Namespace::Preers,
            cookie: stored_cookie(c.cookies, rdv, Some(Namespace::Preers)),
        },
    ];
    lemma_count_registers_concat(regs + mid, tail, rdv, Namespace::Preers);
    lemma_count_registers_concat(regs, mid, rdv, Namespace::Preers);
    lemma_count_registers_concat(regs + mid, tail, rdv, Namespace::Relay);
    lemma_count_registers_concat(regs, mid, rdv, Namespace::Relay);
    lemma_count_register_actions(rdv, c.is_relay, rdv, Namespace::Preers);
    lemma_count_register_actions(rdv, c.is_relay, rdv, Namespace::Relay);
    assert(tail.drop_last() =~= Seq::<ActionSpec>::empty());
    if mid.len() > 0 {
        assert(mid.drop_last() =~= Seq::<ActionSpec>::empty());
    }
}

/// A set of rendezvous points without `rdv` is issued no registration
/// targeting `rdv`.
proof fn lemma_register_all_absent(points: Seq<Seq<u8>>, is_relay: bool, rdv: Seq<u8>, ns: Namespace)
    requires
        !has_id(points, rdv),
    ensures
        count_registers(register_all(points, is_relay), rdv, ns) == 0,
    decreases points.len(),
{
    if points.len() > 0 {
        assert(points[points.len() - 1] != rdv);
        assert(!has_id(points.drop_last(), rdv)) by {
            if has_id(points.drop_last(), rdv) {
                let k = choose|k: int|
                    0 <= k < points.drop_last().len() && points.drop_last()[k] == rdv;
                assert(points[k] == rdv);
            }
        }
        lemma_register_all_absent(points.drop_last(), is_relay, rdv, ns);
        lemma_count_registers_concat(
            register_all(points.drop_last(), is_relay),
            register_actions(points.last(), is_relay),
            rdv,
            ns,
        );
        lemma_count_register_actions(points.last(), is_relay, rdv, ns);
    }
}

/// Registration replay: when a reservation is accepted or an external
/// address is confirmed, the round issued against the rendezvous points
/// carries exactly one registration under the participating-nodes
/// namespace per rendezvous point.
pub proof fn law_registration_replay(points: Seq<Seq<u8>>, is_relay: bool, rdv: Seq<u8>)
    requires
        distinct_ids(points),
        has_id(points, rdv),
    ensures
        count_registers(register_all(points, is_relay), rdv, Namespace::Preers) == 1,
    decreases points.len(),
{
    let last = points[points.len() - 1];
    lemma_count_registers_concat(
        register_all(points.drop_last(), is_relay),
        register_actions(last, is_relay),
        rdv,
        Namespace::Preers,
    );
    lemma_count_register_actions(last, is_relay, rdv, Namespace::Preers);
    if last == rdv {
        assert(!has_id(points.drop_last(), rdv)) by {
            if has_id(points.drop_last(), rdv) {
                let k = choose|k: int|
                    0 <= k < points.drop_last().len() && points.drop_last()[k] == rdv;
                assert(points[k] == rdv);
                assert(points[k] == points[points.len() - 1]);
            }
        }
        lemma_register_all_absent(points.drop_last(), is_relay, rdv, Namespace::Preers);
    } else {
        assert(has_id(points.drop_last(), rdv)) by {
            let k = choose|k: int| 0 <= k < points.len() && points[k] == rdv;
            assert(points.drop_last()[k] == rdv);
        }
        assert(distinct_ids(points.drop_last())) by {
            assert(forall|i: int, j: int|
                0 <= i < j < points.drop_last().len() ==> points.drop_last()[i] != points.drop_last()[j]);
        }
        law_registration_replay(points.drop_last(), is_relay, rdv);
    }
}

/// Cookie monotonicity: once a discovery answer for a pair has replaced
/// its stored cookie with `c`, the next discovery this node issues for
/// the pair replays exactly `c`, and the stored cookie of every other
/// pair is what it was before.
pub proof fn law_cookie_monotonicity(
    pre: ControllerView,
    post: ControllerView,
    rdv: Seq<u8>,
    ns: Namespace,
    c: Cookie,
)
    requires
        cookie_updated(pre.cookies, post.cookies, rdv, Some(ns), c),
    ensures
        stored_cookie(post.cookies, rdv, Some(ns)) == Some(c),
        ns == Namespace::Preers ==> talk_actions(post, rdv).last() == (ActionSpec::Discover {
            rendezvous: rdv,
            namespace: Namespace::Preers,
            cookie: Some(c),
        }),
        ns == Namespace::Relay && !post.is_relay && !post.is_rendezvous ==> talk_actions(
            post,
            rdv,
        )[register_actions(rdv, post.is_relay).len() as int] == (ActionSpec::Discover {
            rendezvous: rdv,
            namespace: Namespace::Relay,
            cookie: Some(c),
        }),
        forall|r2: Seq<u8>, n2: Option<Namespace>|
            (r2, n2) != (rdv, Some(ns)) ==> #[trigger] stored_cookie(post.cookies, r2, n2)
                == stored_cookie(pre.cookies, r2, n2),
{
    let acts = talk_actions(post, rdv);
    let regs = register_actions(rdv, post.is_relay);
    if ns == Namespace::Preers {
        assert(acts.last() == ActionSpec::Discover {
            rendezvous: rdv,
            namespace: Namespace::Preers,
            cookie: stored_cookie(post.cookies, rdv, Some(Namespace::Preers)),
        });
    }
    if ns == Namespace::Relay && !post.is_relay && !post.is_rendezvous {
        assert(acts[regs.len() as int] == ActionSpec::Discover {
            rendezvous: rdv,
            namespace: Namespace::Relay,
            cookie: stored_cookie(post.cookies, rdv, Some(Namespace::Relay)),
        });
    }
}

/// Everything a node does at start, in order: listen, dial the stored
/// rendezvous addresses, start the forwarders of the used services,
/// confirm a configured external address, and allow the provided
/// services.
pub open spec fn init_actions(
    pre: ControllerView,
    port: u16,
    used: Seq<UseServiceSpec>,
    provided: Seq<ProvideServiceSpec>,
    external_address: Option<Seq<ProtocolSpec>>,
) -> Seq<ActionSpec> {
    listen_actions(port) + dial_actions(pre) + Seq::new(
        used.len(),
        |k: int| ActionSpec::SpawnForwarder { service: used[k] },
    ) + (match external_address {
        Some(a) => seq![ActionSpec::ConfirmExternalAddress { address: a }],
        None => Seq::empty(),
    }) + Seq::new(
        provided.len(),
        |k: int| ActionSpec::AddAllowedService { service: provided[k] },
    )
}

} // verus!
