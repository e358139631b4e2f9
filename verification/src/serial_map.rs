//! Serial number mapping for correlating D-Bus replies.
//!
//! When forwarding messages between buses, the original serial numbers are
//! tracked so that replies can be correlated back to the client requests.

use vstd::prelude::*;

use std::sync::atomic::{AtomicU32, Ordering};
use std::time::{Duration, Instant};

use crate::clock;
use crate::clock::{is_expired, nanos};
use crate::routing::Route;

verus! {

broadcast use vstd::seq_lib::group_seq_properties;

/// Unique identifier for a client connection.
pub type ClientId = u64;

/// Information about a pending method call.
#[derive(Debug, Clone, Copy)]
pub struct PendingCall {
    /// The client that made the original call.
    pub client_id: ClientId,
    /// The serial number the client used.
    pub client_serial: u32,
    /// When the call was made (for timeout handling).
    pub timestamp: Instant,
}

/// Key for looking up pending calls.
#[derive(Debug, Clone, Copy, PartialEq, Eq, Hash, Structural)]
pub struct SerialKey {
    /// Which bus the message was forwarded to.
    pub route: Route,
    /// The serial number used on that bus.
    pub serial: u32,
}

impl SerialKey {
    /// Create a new serial key.
    pub fn new(route: Route, serial: u32) -> (k: Self)
        ensures
            k == (SerialKey { route, serial }),
    {
        SerialKey { route, serial }
    }
}

/// The pending calls of `m` that have not expired at `now` under `timeout`.
pub open spec fn unexpired_calls(m: Map<SerialKey, PendingCall>, now: Instant, timeout: Duration) -> Map<SerialKey, PendingCall> {
    Map::new(|k: SerialKey| m.contains_key(k) && !is_expired(now, m[k].timestamp, timeout), |k: SerialKey| m[k])
}

/// Maps forwarded serial numbers back to original client requests.
pub struct SerialMap {
    pending: Vec<(SerialKey, PendingCall)>,
    timeout: Duration,
}

impl View for SerialMap {
    type V = Map<SerialKey, PendingCall>;

    closed spec fn view(&self) -> Map<SerialKey, PendingCall> {
        Map::new(
            |k: SerialKey| self.keys().contains(k),
            |k: SerialKey| self.pending@[self.keys().index_of(k)].1,
        )
    }
}

impl SerialMap {
    closed spec fn keys(&self) -> Seq<SerialKey> {
        self.pending@.map_values(|e: (SerialKey, PendingCall)| e.0)
    }

    /// Each key is held once.
    pub closed spec fn wf(&self) -> bool {
        self.keys().no_duplicates()
    }

    /// The timeout after which pending calls expire.
    pub closed spec fn timeout(&self) -> Duration {
        self.timeout
    }

    proof fn lemma_view_at(&self, i: int)
        requires
            self.wf(),
            0 <= i < self.pending@.len(),
        ensures
            self@.contains_key(self.pending@[i].0),
            self@[self.pending@[i].0] == self.pending@[i].1,
    {
        let k = self.pending@[i].0;
        assert(self.keys()[i] == k);
        let j = self.keys().index_of(k);
        assert(self.keys()[j] == k);
    }

    proof fn lemma_len(&self)
        requires
            self.wf(),
        ensures
            self@.len() == self.pending@.len(),
    {
        assert(self@.dom() =~= self.keys().to_set());
        self.keys().unique_seq_to_set();
    }

    /// A well-formed map is finite, and its length is its number of keys.
    pub proof fn lemma_wf(&self)
        requires
            self.wf(),
        ensures
            self@.dom().finite(),
            self@.len() == self@.dom().len(),
    {
        assert(self@.dom() =~= self.keys().to_set());
        vstd::seq_lib::seq_to_set_is_finite(self.keys());
    }

    /// Create a new serial map with the default timeout (30 seconds).
    pub fn new() -> (m: Self)
        ensures
            m.wf(),
            m@ == Map::<SerialKey, PendingCall>::empty(),
            nanos(m.timeout()) == 30_000_000_000,
    {
        Self::with_timeout(clock::from_secs(30))
    }

    /// Create a new serial map with a specific timeout.
    pub fn with_timeout(timeout: Duration) -> (m: Self)
        ensures
            m.wf(),
            m@ == Map::<SerialKey, PendingCall>::empty(),
            m.timeout() == timeout,
    {
        let m = SerialMap { pending: Vec::new(), timeout };
        assert(m@ =~= Map::<SerialKey, PendingCall>::empty());
        m
    }

    fn position(&self, key: SerialKey) -> (r: Option<usize>)
        requires
            self.wf(),
        ensures
            match r {
                Some(i) => i < self.pending@.len() && self.pending@[i as int].0 == key
                    && self@.contains_key(key) && self@[key] == self.pending@[i as int].1,
                None => !self@.contains_key(key),
            },
    {
        for i in 0..self.pending.len()
            invariant
                self.wf(),
                forall|j: int| 0 <= j < i ==> self.pending@[j].0 != key,
        {
            if self.pending[i].0 == key {
                proof { self.lemma_view_at(i as int); }
                return Some(i);
            }
        }
        proof {
            if self.keys().contains(key) {
                let k = choose|k: int| 0 <= k < self.keys().len() && self.keys()[k] == key;
                assert(self.pending@[k].0 == key);
            }
        }
        None
    }

    fn remove_at(&mut self, i: usize) -> (removed: (SerialKey, PendingCall))
        requires
            old(self).wf(),
            i < old(self).pending@.len(),
        ensures
            final(self).wf(),
            final(self).timeout == old(self).timeout,
            removed == old(self).pending@[i as int],
            final(self)@ == old(self)@.remove(removed.0),
            final(self).pending@.len() + 1 == old(self).pending@.len(),
    {
        let ghost old_keys = self.keys();
        let removed = self.pending.remove(i);
        assert(self.keys() =~= old_keys.remove(i as int));
        let ghost k = removed.0;
        assert(old_keys[i as int] == k);
        assert forall|key: SerialKey| #[trigger] self@.contains_key(key) <==> old(self)@.remove(k).contains_key(key) by {
            if self.keys().contains(key) {
                let j = choose|j: int| 0 <= j < self.keys().len() && self.keys()[j] == key;
                if j < i { assert(old_keys[j] == key); } else { assert(old_keys[j + 1] == key); }
            }
            if key != k && old_keys.contains(key) {
                let j = choose|j: int| 0 <= j < old_keys.len() && old_keys[j] == key;
                if j < i { assert(self.keys()[j] == key); } else { assert(self.keys()[j - 1] == key); }
            }
        }
        assert forall|key: SerialKey| #[trigger] self@.contains_key(key) implies self@[key] == old(self)@[key] by {
            let j = self.keys().index_of(key);
            assert(self.keys()[j] == key);
            self.lemma_view_at(j);
            if j < i {
                old(self).lemma_view_at(j);
            } else {
                old(self).lemma_view_at(j + 1);
            }
        }
        assert(self@ =~= old(self)@.remove(k));
        removed
    }

    /// Record a pending call made at `timestamp`.
    pub fn insert_at(&mut self, route: Route, forwarded_serial: u32, client_id: ClientId, client_serial: u32, timestamp: Instant)
        requires
            old(self).wf(),
        ensures
            final(self).wf(),
            final(self).timeout() == old(self).timeout(),
            final(self)@ == old(self)@.insert(
                SerialKey { route, serial: forwarded_serial },
                PendingCall { client_id, client_serial, timestamp },
            ),
    {
        let key = SerialKey::new(route, forwarded_serial);
        let call = PendingCall { client_id, client_serial, timestamp };
        if let Some(i) = self.position(key) {
            self.remove_at(i);
        }
        let ghost mid = *self;
        assert(!mid@.contains_key(key));
        self.pending.push((key, call));
        assert(self.keys() =~= mid.keys().push(key));
        proof { self.lemma_view_at(self.pending@.len() - 1); }
        assert forall|k: SerialKey| #[trigger] self@.contains_key(k) <==> mid@.insert(key, call).contains_key(k) by {
            if mid.keys().contains(k) {
                let j = choose|j: int| 0 <= j < mid.keys().len() && mid.keys()[j] == k;
                assert(self.keys()[j] == k);
            }
        }
        assert forall|k: SerialKey| #[trigger] self@.contains_key(k) && k != key implies self@[k] == mid@[k] by {
            let j = self.keys().index_of(k);
            assert(self.keys()[j] == k);
            self.lemma_view_at(j);
            mid.lemma_view_at(j);
        }
        assert(self@ =~= mid@.insert(key, call));
    }

    /// Record a pending call, stamped with the current time.
    ///
    /// `route` is the bus the message was forwarded to, `forwarded_serial`
    /// the serial used there; `client_id` and `client_serial` identify the
    /// original call.
    pub fn insert(&mut self, route: Route, forwarded_serial: u32, client_id: ClientId, client_serial: u32)
        requires
            old(self).wf(),
        ensures
            final(self).wf(),
            final(self).timeout() == old(self).timeout(),
            ({
                let key = SerialKey { route, serial: forwarded_serial };
                &&& final(self)@.dom() == old(self)@.dom().insert(key)
                &&& final(self)@[key].client_id == client_id
                &&& final(self)@[key].client_serial == client_serial
                &&& forall|k: SerialKey| k != key && #[trigger] old(self)@.contains_key(k) ==> final(self)@[k] == old(self)@[k]
            }),
    {
        let timestamp = clock::now();
        self.insert_at(route, forwarded_serial, client_id, client_serial, timestamp);
    }

    /// Look up and remove the pending call that a reply answers.
    ///
    /// `route` is the bus the reply came from, `reply_serial` the serial
    /// that the reply refers to.
    pub fn remove(&mut self, route: Route, reply_serial: u32) -> (r: Option<PendingCall>)
        requires
            old(self).wf(),
        ensures
            final(self).wf(),
            final(self).timeout() == old(self).timeout(),
            final(self)@ == old(self)@.remove(SerialKey { route, serial: reply_serial }),
            r == old(self)@.get(SerialKey { route, serial: reply_serial }),
    {
        let key = SerialKey::new(route, reply_serial);
        match self.position(key) {
            Some(i) => {
                let (_, call) = self.remove_at(i);
                Some(call)
            },
            None => {
                assert(self@ =~= old(self)@.remove(key));
                None
            },
        }
    }

    /// Forget the pending calls under `keys`; returns how many were held.
    pub fn remove_keys(&mut self, keys: &Vec<SerialKey>) -> (removed: usize)
        requires
            old(self).wf(),
        ensures
            final(self).wf(),
            final(self).timeout() == old(self).timeout(),
            final(self)@ == old(self)@.remove_keys(keys@.to_set()),
            removed == old(self)@.len() - final(self)@.len(),
    {
        proof { self.lemma_len(); }
        let n_old = self.pending.len();
        for i in 0..keys.len()
            invariant
                self.wf(),
                self.timeout() == old(self).timeout(),
                self@ == old(self)@.remove_keys(keys@.take(i as int).to_set()),
                self.pending@.len() <= n_old,
        {
            let ghost before = self@;
            if let Some(j) = self.position(keys[i]) {
                self.remove_at(j);
            } else {
                assert(self@ =~= before.remove(keys@[i as int]));
            }
            assert(keys@.take(i + 1).to_set() =~= keys@.take(i as int).to_set().insert(keys@[i as int]));
            assert(self@ =~= old(self)@.remove_keys(keys@.take(i + 1).to_set()));
        }
        assert(keys@.take(keys@.len() as int) =~= keys@);
        proof { self.lemma_len(); }
        n_old - self.pending.len()
    }

    /// Remove the calls that have expired at `now`: those whose age (the
    /// time from their stamp to `now`) is at least the timeout.
    /// Returns how many were removed.
    pub fn cleanup_expired_at(&mut self, now: Instant) -> (removed: usize)
        requires
            old(self).wf(),
        ensures
            final(self).wf(),
            final(self).timeout() == old(self).timeout(),
            final(self)@ == unexpired_calls(old(self)@, now, old(self).timeout()),
            removed == old(self)@.len() - final(self)@.len(),
    {
        let limit: u128 = clock::as_nanos(&self.timeout);
        let mut expired: Vec<SerialKey> = Vec::new();
        for i in 0..self.pending.len()
            invariant
                limit == nanos(self.timeout),
                self.wf(),
                self.pending@ == old(self).pending@,
                self.timeout == old(self).timeout,
                forall|k: SerialKey| #[trigger] expired@.contains(k) <==> exists|j: int|
                    0 <= j < i && self.pending@[j].0 == k && is_expired(now, self.pending@[j].1.timestamp, self.timeout),
        {
            let ghost before = expired@;
            let age = clock::duration_since(&now, &self.pending[i].1.timestamp);
            if clock::as_nanos(&age) >= limit {
                expired.push(self.pending[i].0);
                assert forall|k: SerialKey| #[trigger] expired@.contains(k) <==> exists|j: int|
                    0 <= j < i + 1 && self.pending@[j].0 == k && is_expired(now, self.pending@[j].1.timestamp, self.timeout) by {
                    if expired@.contains(k) && k != self.pending@[i as int].0 {
                        let p = choose|p: int| 0 <= p < expired@.len() && expired@[p] == k;
                        assert(before[p] == k);
                        assert(before.contains(k));
                    }
                    if k == self.pending@[i as int].0 {
                        assert(expired@[expired@.len() - 1] == k);
                    }
                    if exists|j: int| 0 <= j < i && self.pending@[j].0 == k && is_expired(now, self.pending@[j].1.timestamp, self.timeout) {
                        assert(before.contains(k));
                        let p = choose|p: int| 0 <= p < before.len() && before[p] == k;
                        assert(expired@[p] == k);
                    }
                }
            } else {
                assert forall|k: SerialKey| #[trigger] expired@.contains(k) <==> exists|j: int|
                    0 <= j < i + 1 && self.pending@[j].0 == k && is_expired(now, self.pending@[j].1.timestamp, self.timeout) by {
                    if exists|j: int| 0 <= j < i + 1 && self.pending@[j].0 == k && is_expired(now, self.pending@[j].1.timestamp, self.timeout) {
                        let j = choose|j: int| 0 <= j < i + 1 && self.pending@[j].0 == k && is_expired(now, self.pending@[j].1.timestamp, self.timeout);
                        assert(j != i);
                    }
                }
            }
        }
        proof {
            let m = old(self)@;
            let t = old(self).timeout;
            assert forall|k: SerialKey| #[trigger] m.contains_key(k) implies (expired@.to_set().contains(k) <==> is_expired(now, m[k].timestamp, t)) by {
                let j = self.keys().index_of(k);
                assert(self.keys()[j] == k);
                self.lemma_view_at(j);
                if expired@.contains(k) {
                    let j2 = choose|j2: int| 0 <= j2 < self.pending@.len() && self.pending@[j2].0 == k && is_expired(now, self.pending@[j2].1.timestamp, t);
                    assert(self.keys()[j2] == k);
                }
                if is_expired(now, m[k].timestamp, t) {
                    assert(self.pending@[j].0 == k);
                    assert(expired@.contains(k));
                }
            }
            assert(m.remove_keys(expired@.to_set()) =~= unexpired_calls(m, now, t));
        }
        self.remove_keys(&expired)
    }

    /// Clean up expired pending calls; returns how many were removed.
    ///
    /// The clock is read once; the calls that have expired at that instant
    /// are removed (`cleanup_expired_at`).
    pub fn cleanup_expired(&mut self) -> (removed: usize)
        requires
            old(self).wf(),
        ensures
            final(self).wf(),
            final(self).timeout() == old(self).timeout(),
            exists|now: Instant| final(self)@ == #[trigger] unexpired_calls(old(self)@, now, old(self).timeout()),
            removed == old(self)@.len() - final(self)@.len(),
    {
        let now = clock::now();
        let r = self.cleanup_expired_at(now);
        assert(self@ == unexpired_calls(old(self)@, now, old(self).timeout()));
        r
    }

    /// Number of pending calls.
    pub fn len(&self) -> (n: usize)
        requires
            self.wf(),
        ensures
            n == self@.len(),
    {
        proof { self.lemma_len(); }
        self.pending.len()
    }

    /// Whether there are no pending calls.
    pub fn is_empty(&self) -> (r: bool)
        requires
            self.wf(),
        ensures
            r == (self@.len() == 0),
    {
        proof { self.lemma_len(); }
        self.pending.len() == 0
    }

    /// Number of pending calls of `client_id`.
    pub fn pending_for_client(&self, client_id: ClientId) -> (n: usize)
        requires
            self.wf(),
        ensures
            n == self@.dom().filter(|k: SerialKey| self@[k].client_id == client_id).len(),
    {
        let ghost pred = |k: SerialKey| self@[k].client_id == client_id;
        let mut n: usize = 0;
        assert(self.keys().take(0).to_set().filter(pred) =~= Set::<SerialKey>::empty());
        for i in 0..self.pending.len()
            invariant
                self.wf(),
                n <= i,
                pred == (|k: SerialKey| self@[k].client_id == client_id),
                n == self.keys().take(i as int).to_set().filter(pred).len(),
                self.keys().take(i as int).to_set().filter(pred).finite(),
        {
            let ghost s = self.keys().take(i as int).to_set();
            let ghost x = self.keys()[i as int];
            proof {
                self.lemma_view_at(i as int);
                assert(x == self.pending@[i as int].0);
                assert(self.keys().take(i + 1).to_set() =~= s.insert(x));
                assert(!s.contains(x)) by {
                    if s.contains(x) {
                        let j = choose|j: int| 0 <= j < self.keys().take(i as int).len() && self.keys().take(i as int)[j] == x;
                        assert(self.keys()[j] == x);
                    }
                }
            }
            if self.pending[i].1.client_id == client_id {
                proof {
                    assert(pred(x));
                    assert(s.insert(x).filter(pred) =~= s.filter(pred).insert(x));
                    assert(!s.filter(pred).contains(x));
                }
                n = n + 1;
            } else {
                proof {
                    assert(!pred(x));
                    assert(s.insert(x).filter(pred) =~= s.filter(pred));
                }
            }
        }
        assert(self.keys().take(self.pending@.len() as int) =~= self.keys());
        assert(self@.dom() =~= self.keys().to_set());
        n
    }
}

/// Generator for serial numbers.
///
/// The counter starts at 1 and wraps around at `u32::MAX`; 0, which is not
/// a valid D-Bus serial, is skipped.
pub struct SerialGenerator {
    counter: AtomicU32,
}

impl SerialGenerator {
    /// Create a new serial generator.
    pub fn new() -> Self {
        SerialGenerator { counter: AtomicU32::new(1) }
    }

    /// Get the next serial number; never 0, which is not a valid D-Bus
    /// serial.
    ///
    /// The counter may be shared between threads, so which number comes
    /// back depends on the other callers. When the counter has wrapped to 0
    /// it is advanced once more; should that also give 0 (other callers
    /// having gone once round the whole range in between), 1 is returned.
    pub fn next(&self) -> (r: u32)
        ensures
            r != 0,
    {
        let serial = self.counter.fetch_add(1, Ordering::Relaxed);
        if serial != 0 {
            return serial;
        }
        let again = self.counter.fetch_add(1, Ordering::Relaxed);
        if again != 0 {
            again
        } else {
            1
        }
    }
}


/// Recording a call adds one to the number of pending calls, unless a call
/// was already pending under the same key, which it replaces.
pub proof fn lemma_insert_len(m: Map<SerialKey, PendingCall>, k: SerialKey, v: PendingCall)
    requires
        m.dom().finite(),
    ensures
        m.insert(k, v).len() == m.len() + if m.contains_key(k) { 0int } else { 1int },
        m.insert(k, v)[k] == v,
        forall|k2: SerialKey| k2 != k && #[trigger] m.contains_key(k2) ==> m.insert(k, v)[k2] == m[k2],
{
    assert(m.insert(k, v).dom() =~= m.dom().insert(k));
}

} // verus!
