//! Portal request tracking for XDG Desktop Portal signals.
//!
//! A portal method call returns a request handle path, and the portal later
//! emits a Response signal on that path. Through the multiplexer the portal
//! sees the multiplexer's connection, not the client's, so the tracker
//! remembers which client made each request in order to deliver the
//! Response to it.

use vstd::prelude::*;

use std::time::{Duration, Instant};

use zbus::message::Message;

use crate::clock;
use crate::clock::{is_expired, nanos};
use crate::match_rules::{opt_view, strings_view_seq, MessageType};
use crate::message::{interface_of, member_of, message_type_of, opt_str_is, MessageExt};
use crate::names::NameMap;
use crate::serial_map::ClientId;
use crate::text::{is_prefix, starts_with, str_eq};

verus! {

broadcast use vstd::seq_lib::group_seq_properties;

/// A pending portal request.
#[derive(Debug, Clone, Copy)]
pub struct PendingPortalRequest {
    /// The client that made the request.
    pub client_id: ClientId,
    /// When the request was registered.
    pub timestamp: Instant,
}

/// Tracks portal request handles to client ID mappings.
pub struct PortalRequestTracker {
    requests: NameMap<PendingPortalRequest>,
    timeout: Duration,
}

impl View for PortalRequestTracker {
    type V = Map<Seq<char>, PendingPortalRequest>;

    closed spec fn view(&self) -> Map<Seq<char>, PendingPortalRequest> {
        self.requests@
    }
}

/// The requests of `m` that have not expired at `now` under `timeout`.
pub open spec fn unexpired_requests(m: Map<Seq<char>, PendingPortalRequest>, now: Instant, timeout: Duration) -> Map<Seq<char>, PendingPortalRequest> {
    Map::new(|k: Seq<char>| m.contains_key(k) && !is_expired(now, m[k].timestamp, timeout), |k: Seq<char>| m[k])
}

/// The requests of `m` that do not belong to `client_id`.
pub open spec fn requests_not_of(m: Map<Seq<char>, PendingPortalRequest>, client_id: ClientId) -> Map<Seq<char>, PendingPortalRequest> {
    Map::new(|k: Seq<char>| m.contains_key(k) && m[k].client_id != client_id, |k: Seq<char>| m[k])
}

impl PortalRequestTracker {
    pub closed spec fn wf(&self) -> bool {
        self.requests.wf()
    }

    /// The timeout after which pending requests expire.
    pub closed spec fn timeout(&self) -> Duration {
        self.timeout
    }

    /// Create a new portal request tracker (requests expire after 5 minutes).
    pub fn new() -> (t: Self)
        ensures
            t.wf(),
            t@ == Map::<Seq<char>, PendingPortalRequest>::empty(),
            nanos(t.timeout()) == 300_000_000_000,
    {
        PortalRequestTracker { requests: NameMap::new(), timeout: clock::from_secs(300) }
    }

    /// Register a portal request handle for a client at `timestamp`.
    pub fn register_at(&mut self, request_path: String, client_id: ClientId, timestamp: Instant)
        requires
            old(self).wf(),
        ensures
            final(self).wf(),
            final(self).timeout() == old(self).timeout(),
            final(self)@ == old(self)@.insert(request_path@, PendingPortalRequest { client_id, timestamp }),
    {
        self.requests.insert(request_path, PendingPortalRequest { client_id, timestamp });
    }

    /// Register a portal request handle for a client, stamped with the
    /// current time.
    pub fn register(&mut self, request_path: String, client_id: ClientId)
        requires
            old(self).wf(),
        ensures
            final(self).wf(),
            final(self).timeout() == old(self).timeout(),
            final(self)@.dom() == old(self)@.dom().insert(request_path@),
            final(self)@[request_path@].client_id == client_id,
            forall|k: Seq<char>| k != request_path@ && #[trigger] old(self)@.contains_key(k) ==> final(self)@[k] == old(self)@[k],
    {
        let timestamp = clock::now();
        self.register_at(request_path, client_id, timestamp);
    }

    /// The client that should receive the Response signal for a path.
    ///
    /// Response signals come once, so the entry is removed.
    pub fn lookup_and_remove(&mut self, request_path: &str) -> (r: Option<ClientId>)
        requires
            old(self).wf(),
        ensures
            final(self).wf(),
            final(self).timeout() == old(self).timeout(),
            final(self)@ == old(self)@.remove(request_path@),
            r == (if old(self)@.contains_key(request_path@) {
                Some(old(self)@[request_path@].client_id)
            } else {
                None::<ClientId>
            }),
    {
        match self.requests.remove(request_path) {
            Some(pending) => Some(pending.client_id),
            None => None,
        }
    }

    /// Forget the requests under `paths`; returns how many were held.
    pub fn remove_paths(&mut self, paths: &Vec<String>) -> (removed: usize)
        requires
            old(self).wf(),
        ensures
            final(self).wf(),
            final(self).timeout() == old(self).timeout(),
            final(self)@ == old(self)@.remove_keys(paths@.map_values(|p: String| p@).to_set()),
            removed == old(self)@.len() - final(self)@.len(),
    {
        let ghost pv = paths@.map_values(|p: String| p@);
        let n_old = self.requests.len();
        proof { self.requests.lemma_len(); }
        for i in 0..paths.len()
            invariant
                self.wf(),
                self.timeout() == old(self).timeout(),
                pv == paths@.map_values(|p: String| p@),
                self@ == old(self)@.remove_keys(pv.take(i as int).to_set()),
                self.requests.count() <= n_old,
        {
            let _ = self.requests.remove(paths[i].as_str());
            assert(pv[i as int] == paths@[i as int]@);
            assert(pv.take(i + 1) =~= pv.take(i as int).push(pv[i as int]));
            assert(pv.take(i + 1).to_set() =~= pv.take(i as int).to_set().insert(pv[i as int]));
            assert(self@ =~= old(self)@.remove_keys(pv.take(i + 1).to_set()));
        }
        assert(pv.take(paths@.len() as int) =~= pv);
        proof { self.requests.lemma_len(); }
        n_old - self.requests.len()
    }

    /// Remove the requests that have expired at `now`: those whose age (the
    /// time from their stamp to `now`) is at least the timeout.
    /// Returns how many were removed.
    pub fn cleanup_expired_at(&mut self, now: Instant) -> (removed: usize)
        requires
            old(self).wf(),
        ensures
            final(self).wf(),
            final(self).timeout() == old(self).timeout(),
            final(self)@ == unexpired_requests(old(self)@, now, old(self).timeout()),
            removed == old(self)@.len() - final(self)@.len(),
    {
        let ghost m = self@;
        let paths = self.requests.keys_vec();
        let ghost pv = strings_view_seq(paths@);
        let limit: u128 = clock::as_nanos(&self.timeout);
        let mut expired: Vec<String> = Vec::new();
        for i in 0..paths.len()
            invariant
                limit == nanos(self.timeout),
                self.wf(),
                self@ == m,
                m == old(self)@,
                self.timeout == old(self).timeout,
                pv == strings_view_seq(paths@),
                forall|k: Seq<char>| #![trigger strings_view_seq(expired@).contains(k)]
                    strings_view_seq(expired@).contains(k) <==> exists|j: int|
                    0 <= j < i && pv[j] == k && m.contains_key(k) && is_expired(now, m[k].timestamp, self.timeout),
        {
            let ghost before = strings_view_seq(expired@);
            let ghost k0 = paths@[i as int]@;
            assert(pv[i as int] == k0);
            match self.requests.get(paths[i].as_str()) {
                Some(pending) => {
                    let age = clock::duration_since(&now, &pending.timestamp);
                    if clock::as_nanos(&age) >= limit {
                        expired.push(paths[i].clone());
                        assert(strings_view_seq(expired@) =~= before.push(k0));
                        assert forall|k: Seq<char>| #![trigger strings_view_seq(expired@).contains(k)]
                            strings_view_seq(expired@).contains(k) <==> exists|j: int|
                            0 <= j < i + 1 && pv[j] == k && m.contains_key(k) && is_expired(now, m[k].timestamp, self.timeout) by {
                            if strings_view_seq(expired@).contains(k) && k != k0 {
                                let p = choose|p: int| 0 <= p < strings_view_seq(expired@).len() && strings_view_seq(expired@)[p] == k;
                                assert(before[p] == k);
                                assert(before.contains(k));
                            }
                            if k == k0 {
                                assert(strings_view_seq(expired@)[before.len() as int] == k);
                            }
                            if exists|j: int| 0 <= j < i && pv[j] == k && m.contains_key(k) && is_expired(now, m[k].timestamp, self.timeout) {
                                assert(before.contains(k));
                                let p = choose|p: int| 0 <= p < before.len() && before[p] == k;
                                assert(strings_view_seq(expired@)[p] == k);
                            }
                        }
                    } else {
                        assert forall|k: Seq<char>| #![trigger strings_view_seq(expired@).contains(k)]
                            strings_view_seq(expired@).contains(k) <==> exists|j: int|
                            0 <= j < i + 1 && pv[j] == k && m.contains_key(k) && is_expired(now, m[k].timestamp, self.timeout) by {
                            if exists|j: int| 0 <= j < i + 1 && pv[j] == k && m.contains_key(k) && is_expired(now, m[k].timestamp, self.timeout) {
                                let j = choose|j: int| 0 <= j < i + 1 && pv[j] == k && m.contains_key(k) && is_expired(now, m[k].timestamp, self.timeout);
                                if j == i { assert(k == k0); }
                            }
                        }
                    }
                },
                None => {
                    assert forall|k: Seq<char>| #![trigger strings_view_seq(expired@).contains(k)]
                        strings_view_seq(expired@).contains(k) <==> exists|j: int|
                        0 <= j < i + 1 && pv[j] == k && m.contains_key(k) && is_expired(now, m[k].timestamp, self.timeout) by {
                        if exists|j: int| 0 <= j < i + 1 && pv[j] == k && m.contains_key(k) && is_expired(now, m[k].timestamp, self.timeout) {
                            let j = choose|j: int| 0 <= j < i + 1 && pv[j] == k && m.contains_key(k) && is_expired(now, m[k].timestamp, self.timeout);
                            if j == i { assert(k == k0); }
                        }
                    }
                },
            }
        }
        proof {
            let t = old(self).timeout;
            let ev = strings_view_seq(expired@);
            assert forall|k: Seq<char>| #[trigger] m.contains_key(k) implies (ev.to_set().contains(k) <==> is_expired(now, m[k].timestamp, t)) by {
                let j = choose|j: int| 0 <= j < paths@.len() && paths@[j]@ == k;
                assert(pv[j] == k);
                if is_expired(now, m[k].timestamp, t) {
                    assert(ev.contains(k));
                }
                if ev.contains(k) {
                    assert(ev.to_set().contains(k));
                }
            }
            assert(m.remove_keys(ev.to_set()) =~= unexpired_requests(m, now, t));
            assert(ev == expired@.map_values(|p: String| p@));
        }
        self.remove_paths(&expired)
    }

    /// Clean up expired pending requests; returns how many were removed.
    ///
    /// The clock is read once; the requests that have expired at that
    /// instant are removed (`cleanup_expired_at`).
    pub fn cleanup_expired(&mut self) -> (removed: usize)
        requires
            old(self).wf(),
        ensures
            final(self).wf(),
            final(self).timeout() == old(self).timeout(),
            exists|now: Instant| final(self)@ == #[trigger] unexpired_requests(old(self)@, now, old(self).timeout()),
            removed == old(self)@.len() - final(self)@.len(),
    {
        let now = clock::now();
        let r = self.cleanup_expired_at(now);
        assert(self@ == unexpired_requests(old(self)@, now, old(self).timeout()));
        r
    }

    /// Remove all requests of a client (e.g. on disconnect); returns how
    /// many were removed.
    pub fn remove_client(&mut self, client_id: ClientId) -> (removed: usize)
        requires
            old(self).wf(),
        ensures
            final(self).wf(),
            final(self).timeout() == old(self).timeout(),
            final(self)@ == requests_not_of(old(self)@, client_id),
            removed == old(self)@.len() - final(self)@.len(),
    {
        let ghost m = old(self)@;
        let paths = self.requests.keys_vec();
        let n_old = self.requests.len();
        proof { self.requests.lemma_len(); }
        let ghost pv = paths@.map_values(|p: String| p@);
        assert forall|k: Seq<char>| m.contains_key(k) implies pv.contains(k) by {
            let j = choose|j: int| 0 <= j < paths@.len() && paths@[j]@ == k;
            assert(pv[j] == k);
        }
        for i in 0..paths.len()
            invariant
                self.wf(),
                self.timeout() == old(self).timeout(),
                pv == paths@.map_values(|p: String| p@),
                pv.no_duplicates(),
                forall|k: Seq<char>| m.contains_key(k) ==> pv.contains(k),
                self@ == Map::new(
                    |k: Seq<char>| m.contains_key(k) && !(pv.take(i as int).contains(k) && m[k].client_id == client_id),
                    |k: Seq<char>| m[k],
                ),
                self.requests.count() <= n_old,
        {
            let ghost k = pv[i as int];
            assert(paths@[i as int]@ == k);
            let ghost before = self@;
            let hit = match self.requests.get(paths[i].as_str()) {
                Some(pending) => pending.client_id == client_id,
                None => false,
            };
            if hit {
                let _ = self.requests.remove(paths[i].as_str());
            }
            proof {
                assert forall|k2: Seq<char>| pv.take(i + 1).contains(k2) <==> (pv.take(i as int).contains(k2) || k2 == k) by {
                    let t = pv.take(i + 1);
                    if t.contains(k2) {
                        let j = choose|j: int| 0 <= j < t.len() && t[j] == k2;
                        if j < i { assert(pv.take(i as int)[j] == k2); }
                    }
                    if pv.take(i as int).contains(k2) {
                        let j = choose|j: int| 0 <= j < i && pv.take(i as int)[j] == k2;
                        assert(t[j] == k2);
                    }
                    if k2 == k { assert(t[i as int] == k2); }
                }
                assert(!pv.take(i as int).contains(k)) by {
                    if pv.take(i as int).contains(k) {
                        let j = choose|j: int| 0 <= j < i && pv.take(i as int)[j] == k;
                        assert(pv[j] == pv[i as int]);
                    }
                }
                assert(self@ =~= Map::new(
                    |k2: Seq<char>| m.contains_key(k2) && !(pv.take(i + 1).contains(k2) && m[k2].client_id == client_id),
                    |k2: Seq<char>| m[k2],
                ));
            }
        }
        proof {
            assert(pv.take(paths@.len() as int) =~= pv);
            assert(self@ =~= requests_not_of(m, client_id));
            self.requests.lemma_len();
        }
        n_old - self.requests.len()
    }
}

/// The interface prefix of the desktop portals.
pub const PORTAL_INTERFACE_PREFIX: &'static str = "org.freedesktop.portal.";

/// The path prefix of portal request handles.
pub const REQUEST_PATH_PREFIX: &'static str = "/org/freedesktop/portal/desktop/request/";

/// The interface of portal request objects.
pub const REQUEST_INTERFACE: &'static str = "org.freedesktop.portal.Request";

/// Portal interfaces whose methods do not answer through request objects.
pub open spec fn is_excluded_portal_interface(i: Seq<char>) -> bool {
    ||| i == REQUEST_INTERFACE@
    ||| i == "org.freedesktop.portal.Session"@
    ||| i == "org.freedesktop.portal.Settings"@
    ||| i == "org.freedesktop.portal.ProxyResolver"@
    ||| i == "org.freedesktop.portal.NetworkMonitor"@
    ||| i == "org.freedesktop.portal.MemoryMonitor"@
    ||| i == "org.freedesktop.portal.PowerProfileMonitor"@
}

/// Whether a message of kind `t` on `interface` is a portal method call that
/// answers through a request handle.
pub open spec fn spec_is_portal_request(t: MessageType, interface: Option<Seq<char>>) -> bool {
    &&& t == MessageType::MethodCall
    &&& interface matches Some(i)
    &&& is_prefix(PORTAL_INTERFACE_PREFIX@, i)
    &&& !is_excluded_portal_interface(i)
}

/// A message is a portal request exactly when it is a method call on an
/// interface under `org.freedesktop.portal.` other than Request, Session,
/// Settings, ProxyResolver, NetworkMonitor, MemoryMonitor and
/// PowerProfileMonitor, which do not answer through request handles; a
/// message without an interface never is.
pub proof fn law_portal_request_interfaces(t: MessageType, i: Seq<char>)
    ensures
        spec_is_portal_request(t, Some(i)) <==> (t == MessageType::MethodCall
            && is_prefix("org.freedesktop.portal."@, i)
            && i != "org.freedesktop.portal.Request"@
            && i != "org.freedesktop.portal.Session"@
            && i != "org.freedesktop.portal.Settings"@
            && i != "org.freedesktop.portal.ProxyResolver"@
            && i != "org.freedesktop.portal.NetworkMonitor"@
            && i != "org.freedesktop.portal.MemoryMonitor"@
            && i != "org.freedesktop.portal.PowerProfileMonitor"@),
        !spec_is_portal_request(t, None),
{
}

/// Whether a message of kind `t` on `interface` with `member` is a portal
/// Request.Response signal.
pub open spec fn spec_is_portal_response(t: MessageType, interface: Option<Seq<char>>, member: Option<Seq<char>>) -> bool {
    &&& t == MessageType::Signal
    &&& interface == Some(REQUEST_INTERFACE@)
    &&& member == Some("Response"@)
}

/// Whether a message of kind `t` on `interface` is a portal method call that
/// will return a request handle.
pub fn is_portal_request(t: MessageType, interface: &Option<String>) -> (r: bool)
    ensures
        r == spec_is_portal_request(t, opt_view(*interface)),
{
    if t != MessageType::MethodCall {
        return false;
    }
    let i: &str = match interface {
        Some(i) => i.as_str(),
        None => return false,
    };
    if !starts_with(i, PORTAL_INTERFACE_PREFIX) {
        return false;
    }
    !(str_eq(i, REQUEST_INTERFACE) || str_eq(i, "org.freedesktop.portal.Session")
        || str_eq(i, "org.freedesktop.portal.Settings") || str_eq(i, "org.freedesktop.portal.ProxyResolver")
        || str_eq(i, "org.freedesktop.portal.NetworkMonitor") || str_eq(i, "org.freedesktop.portal.MemoryMonitor")
        || str_eq(i, "org.freedesktop.portal.PowerProfileMonitor"))
}

/// Whether a message of kind `t` on `interface` with `member` is a portal
/// Request.Response signal.
pub fn is_portal_response(t: MessageType, interface: &Option<String>, member: &Option<String>) -> (r: bool)
    ensures
        r == spec_is_portal_response(t, opt_view(*interface), opt_view(*member)),
{
    t == MessageType::Signal && opt_str_is(interface, REQUEST_INTERFACE) && opt_str_is(member, "Response")
}

/// Check if a message is a portal method call that will return a request
/// handle: a method call on an interface under `org.freedesktop.portal.`,
/// other than those that do not use the request pattern. The message's kind
/// and interface are read and judged by `is_portal_request`.
pub fn is_portal_request_method(msg: &Message) -> (r: bool)
    ensures
        r == spec_is_portal_request(message_type_of(*msg), interface_of(*msg)),
{
    let t = if msg.is_method_call() { MessageType::MethodCall } else { MessageType::Signal };
    let interface = msg.interface_str();
    is_portal_request(t, &interface)
}

/// Check if a message is a portal Request.Response signal. The message's
/// kind, interface and member are read and judged by `is_portal_response`.
pub fn is_portal_response_signal(msg: &Message) -> (r: bool)
    ensures
        r == spec_is_portal_response(message_type_of(*msg), interface_of(*msg), member_of(*msg)),
{
    let t = if msg.is_signal() { MessageType::Signal } else { MessageType::MethodCall };
    let interface = msg.interface_str();
    let member = msg.member_str();
    is_portal_response(t, &interface, &member)
}

/// The response code of a message whose body is a portal Response body
/// `(u, a{sv})`; `None` when the body has another shape.
pub uninterp spec fn response_code_of(msg: Message) -> Option<u32>;

/// The response code of a portal Response body `(u, a{sv})`
/// (`Body::deserialize`); `None` when the body has another shape. A
/// function of the message alone, named `response_code_of`.
#[verifier::external_body]
fn body_response_code(msg: &Message) -> (r: Option<u32>)
    ensures
        r == response_code_of(*msg),
{
    let body = msg.body();
    match body.deserialize::<(u32, std::collections::HashMap<String, zbus::zvariant::OwnedValue>)>() {
        Ok((code, _)) => Some(code),
        Err(_) => None,
    }
}

/// Decode the portal Response body. Returns the response code (0 = success,
/// 1 = user cancelled, 2 = other error), or `None` when the body is not a
/// Response body.
pub fn decode_portal_response(msg: &Message) -> (r: Option<u32>)
    ensures
        r == response_code_of(*msg),
{
    body_response_code(msg)
}

/// The body of a message read as a single object path; `None` when it has
/// another shape.
pub uninterp spec fn object_path_body_of(msg: Message) -> Option<Seq<char>>;

/// The body of `msg` read as a single object path (`Body::deserialize`);
/// `None` when it has another shape. A function of the message alone,
/// named `object_path_body_of`.
#[verifier::external_body]
fn body_object_path(msg: &Message) -> (r: Option<String>)
    ensures
        opt_view(r) == object_path_body_of(*msg),
{
    let body = msg.body();
    match body.deserialize::<zbus::zvariant::ObjectPath>() {
        Ok(p) => Some(p.as_str().to_string()),
        Err(_) => None,
    }
}

/// The body of a message read as a 1-tuple of an object path; `None` when
/// it has another shape.
pub uninterp spec fn object_path_tuple_body_of(msg: Message) -> Option<Seq<char>>;

/// The body of `msg` read as a 1-tuple of an object path
/// (`Body::deserialize`); `None` when it has another shape. A function of
/// the message alone, named `object_path_tuple_body_of`.
#[verifier::external_body]
fn body_object_path_tuple(msg: &Message) -> (r: Option<String>)
    ensures
        opt_view(r) == object_path_tuple_body_of(*msg),
{
    let body = msg.body();
    match body.deserialize::<(zbus::zvariant::ObjectPath,)>() {
        Ok((p,)) => Some(p.as_str().to_string()),
        Err(_) => None,
    }
}

/// The first of two candidate paths that is a portal request handle.
pub open spec fn spec_first_request_handle(single: Option<Seq<char>>, tuple: Option<Seq<char>>) -> Option<Seq<char>> {
    if single matches Some(p) && is_prefix(REQUEST_PATH_PREFIX@, p) {
        single
    } else if tuple matches Some(p) && is_prefix(REQUEST_PATH_PREFIX@, p) {
        tuple
    } else {
        None
    }
}

/// The first candidate path that is a portal request handle.
pub fn first_request_handle(single: Option<String>, tuple: Option<String>) -> (r: Option<String>)
    ensures
        r == (if single matches Some(p) && is_prefix(REQUEST_PATH_PREFIX@, p@) {
            single
        } else if tuple matches Some(p) && is_prefix(REQUEST_PATH_PREFIX@, p@) {
            tuple
        } else {
            None
        }),
{
    if let Some(p) = &single {
        if starts_with(p.as_str(), REQUEST_PATH_PREFIX) {
            return single;
        }
    }
    if let Some(p) = &tuple {
        if starts_with(p.as_str(), REQUEST_PATH_PREFIX) {
            return tuple;
        }
    }
    None
}

/// Extract the request handle path from a portal method reply: the object
/// path the reply carries, alone or as a 1-tuple, when it lies under
/// `/org/freedesktop/portal/desktop/request/`. Anything else is `None`.
pub fn extract_request_handle(msg: &Message) -> (r: Option<String>)
    ensures
        opt_view(r) == (if message_type_of(*msg) == MessageType::MethodReturn {
            spec_first_request_handle(object_path_body_of(*msg), object_path_tuple_body_of(*msg))
        } else {
            None
        }),
{
    if !msg.is_method_return() {
        return None;
    }
    first_request_handle(body_object_path(msg), body_object_path_tuple(msg))
}


/// A Response for a registered request goes to the client that made it,
/// once: looking the path up again finds nothing.
pub proof fn lemma_register_then_lookup(m: Map<Seq<char>, PendingPortalRequest>, path: Seq<char>, p: PendingPortalRequest)
    ensures
        m.insert(path, p).contains_key(path),
        m.insert(path, p)[path].client_id == p.client_id,
        !m.insert(path, p).remove(path).contains_key(path),
        forall|k: Seq<char>| k != path && #[trigger] m.contains_key(k) ==> m.insert(path, p).remove(path)[k] == m[k],
{
}

/// After a client's requests are removed, none of the remaining requests
/// belongs to it, and the requests of other clients are all kept.
pub proof fn lemma_remove_client_requests(m: Map<Seq<char>, PendingPortalRequest>, client_id: ClientId)
    ensures
        forall|k: Seq<char>| #[trigger] requests_not_of(m, client_id).contains_key(k) ==> requests_not_of(m, client_id)[k].client_id != client_id,
        forall|k: Seq<char>| #[trigger] m.contains_key(k) && m[k].client_id != client_id ==> requests_not_of(m, client_id).contains_key(k)
            && requests_not_of(m, client_id)[k] == m[k],
{
}

} // verus!
