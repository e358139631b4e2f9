//! Name queue management for D-Bus name ownership.
//!
//! Several clients may request the same well-known name. The first becomes
//! its primary owner; the others wait in a queue, in order of request. When
//! the primary owner releases the name, ownership passes to the next client
//! in the queue.

use vstd::prelude::*;

use std::collections::VecDeque;

use crate::names::NameMap;
use crate::serial_map::ClientId;

pub mod release_name_reply;
pub mod request_name_flags;
pub mod request_name_reply;

verus! {

broadcast use {vstd::seq_lib::group_seq_properties, vstd::std_specs::vecdeque::group_vec_dequeue_axioms};

/// The abstract content of a queue entry.
pub struct EntryModel {
    pub client_id: ClientId,
    pub unique_name: Seq<char>,
    pub allow_replacement: bool,
}

/// A queue of owners, the primary owner first; the empty queue stands for
/// a name that nobody owns.
pub type QueueModel = Seq<EntryModel>;

/// Whether `client` is in `q`.
pub open spec fn holds_client(q: QueueModel, client: ClientId) -> bool {
    exists|i: int| 0 <= i < q.len() && q[i].client_id == client
}

/// Each client is in `q` at most once.
pub open spec fn distinct_clients(q: QueueModel) -> bool {
    forall|i: int, j: int| 0 <= i < j < q.len() ==> q[i].client_id != q[j].client_id
}

/// The position of `client` in `q`.
pub open spec fn client_index(q: QueueModel, client: ClientId) -> int {
    choose|i: int| 0 <= i < q.len() && q[i].client_id == client
}

/// `q` without `client`.
pub open spec fn without_client(q: QueueModel, client: ClientId) -> QueueModel {
    if holds_client(q, client) { q.remove(client_index(q, client)) } else { q }
}

/// Whether `bit` is set in `flags`.
pub open spec fn has_flag(flags: u32, bit: u32) -> bool {
    flags & bit != 0
}

/// The queue of `name` in `m` (empty when nobody owns it).
pub open spec fn queue_of(m: Map<Seq<char>, QueueModel>, name: Seq<char>) -> QueueModel {
    if m.contains_key(name) { m[name] } else { Seq::empty() }
}

/// The manager's queues after `name`'s queue becomes `q`.
pub open spec fn with_queue(m: Map<Seq<char>, QueueModel>, name: Seq<char>, q: QueueModel) -> Map<Seq<char>, QueueModel> {
    if q.len() == 0 { m.remove(name) } else { m.insert(name, q) }
}

/// The reply code of a RequestName by entry `e` on queue `q`.
pub open spec fn spec_request_reply(q: QueueModel, e: EntryModel, flags: u32) -> u32 {
    if q.len() == 0 {
        request_name_reply::PRIMARY_OWNER
    } else if q[0].client_id == e.client_id {
        request_name_reply::ALREADY_OWNER
    } else if holds_client(q, e.client_id) {
        request_name_reply::IN_QUEUE
    } else if has_flag(flags, request_name_flags::REPLACE_EXISTING) && q[0].allow_replacement {
        request_name_reply::PRIMARY_OWNER
    } else if has_flag(flags, request_name_flags::DO_NOT_QUEUE) {
        request_name_reply::EXISTS
    } else {
        request_name_reply::IN_QUEUE
    }
}

/// The queue after a RequestName by entry `e` on queue `q`: a new owner of
/// a free name; a replaced owner waits first in line; a queued requester
/// waits last; otherwise nothing changes.
pub open spec fn spec_request_queue(q: QueueModel, e: EntryModel, flags: u32) -> QueueModel {
    if q.len() == 0 {
        seq![e]
    } else if holds_client(q, e.client_id) {
        q
    } else if has_flag(flags, request_name_flags::REPLACE_EXISTING) && q[0].allow_replacement {
        seq![e] + q
    } else if has_flag(flags, request_name_flags::DO_NOT_QUEUE) {
        q
    } else {
        q.push(e)
    }
}

/// The owner that a RequestName replaced, if any.
pub open spec fn spec_replaced_owner(q: QueueModel, e: EntryModel, flags: u32) -> Option<Seq<char>> {
    if q.len() > 0 && !holds_client(q, e.client_id) && has_flag(flags, request_name_flags::REPLACE_EXISTING)
        && q[0].allow_replacement {
        Some(q[0].unique_name)
    } else {
        None
    }
}

/// The reply code of a ReleaseName by `client` on queue `q`.
pub open spec fn spec_release_reply(q: QueueModel, client: ClientId) -> u32 {
    if q.len() == 0 {
        release_name_reply::NON_EXISTENT
    } else if holds_client(q, client) {
        release_name_reply::RELEASED
    } else {
        release_name_reply::NOT_OWNER
    }
}

/// The client promoted to primary owner when `client` leaves `q`, if any.
pub open spec fn spec_promoted(q: QueueModel, client: ClientId) -> Option<(ClientId, Seq<char>)> {
    if q.len() > 1 && q[0].client_id == client {
        Some((q[1].client_id, q[1].unique_name))
    } else {
        None
    }
}

/// The entry of `e` as it is stored.
struct QueueEntry {
    client_id: ClientId,
    unique_name: String,
    allow_replacement: bool,
}

impl QueueEntry {
    closed spec fn model(&self) -> EntryModel {
        EntryModel {
            client_id: self.client_id,
            unique_name: self.unique_name@,
            allow_replacement: self.allow_replacement,
        }
    }
}

spec fn models(v: Seq<QueueEntry>) -> Seq<EntryModel> {
    v.map_values(|e: QueueEntry| e.model())
}

/// The owners of one name: the primary owner and the clients waiting.
struct NameQueue {
    primary_owner: QueueEntry,
    waiters: VecDeque<QueueEntry>,
}

impl NameQueue {
    closed spec fn model(&self) -> QueueModel {
        seq![self.primary_owner.model()] + models(self.waiters@)
    }

    /// Unique names of all owners and waiters, the primary owner first.
    fn all_owners(&self) -> (out: Vec<String>)
        ensures
            out@.len() == self.model().len(),
            forall|j: int| 0 <= j < out@.len() ==> #[trigger] out@[j]@ == self.model()[j].unique_name,
    {
        let mut result: Vec<String> = Vec::new();
        result.push(self.primary_owner.unique_name.clone());
        for i in 0..self.waiters.len()
            invariant
                result@.len() == i + 1,
                forall|j: int| 0 <= j < i + 1 ==> #[trigger] result@[j]@ == self.model()[j].unique_name,
        {
            assert(self.model()[i + 1] == self.waiters@[i as int].model());
            result.push(self.waiters[i].unique_name.clone());
        }
        result
    }

    /// The position of `client_id` among the waiters.
    fn waiter_position(&self, client_id: ClientId) -> (r: Option<usize>)
        ensures
            match r {
                Some(i) => i < self.waiters@.len() && self.waiters@[i as int].client_id == client_id,
                None => forall|j: int| 0 <= j < self.waiters@.len() ==> self.waiters@[j].client_id != client_id,
            },
    {
        for i in 0..self.waiters.len()
            invariant
                forall|j: int| 0 <= j < i ==> self.waiters@[j].client_id != client_id,
        {
            if self.waiters[i].client_id == client_id {
                return Some(i);
            }
        }
        None
    }

    /// Whether a client is in the queue (either as owner or waiter).
    fn contains_client(&self, client_id: ClientId) -> (r: bool)
        ensures
            r == holds_client(self.model(), client_id),
    {
        if self.primary_owner.client_id == client_id {
            assert(self.model()[0].client_id == client_id);
            return true;
        }
        match self.waiter_position(client_id) {
            Some(i) => {
                assert(self.model()[i + 1].client_id == client_id);
                true
            },
            None => {
                assert forall|j: int| 0 <= j < self.model().len() implies self.model()[j].client_id != client_id by {
                    if j > 0 { assert(self.model()[j] == self.waiters@[j - 1].model()); }
                }
                false
            },
        }
    }

    /// Whether a client is the primary owner.
    fn is_primary_owner(&self, client_id: ClientId) -> (r: bool)
        ensures
            r == (self.model()[0].client_id == client_id),
    {
        self.primary_owner.client_id == client_id
    }
}

/// Manages name ownership queues for all names.
pub struct NameQueueManager {
    queues: NameMap<NameQueue>,
}

impl View for NameQueueManager {
    type V = Map<Seq<char>, QueueModel>;

    closed spec fn view(&self) -> Map<Seq<char>, QueueModel> {
        self.queues@.map_values(|q: NameQueue| q.model())
    }
}

/// Result of a RequestName operation.
pub struct RequestNameResult {
    /// The reply code to return to the client.
    pub reply_code: u32,
    /// Whether to forward the request to the upstream bus.
    /// Only true when the client becomes the primary owner.
    pub forward_to_bus: bool,
    /// The previous owner's unique name (if a replacement occurred).
    pub replaced_owner: Option<String>,
}

/// Result of a ReleaseName operation.
pub struct ReleaseNameResult {
    /// The reply code to return to the client.
    pub reply_code: u32,
    /// Whether to forward the release to the upstream bus.
    /// Only true when the last owner of the name released it.
    pub forward_to_bus: bool,
    /// The new primary owner (if any waiter was promoted).
    pub new_owner: Option<(ClientId, String)>,
}

pub open spec fn opt_string_view(o: Option<String>) -> Option<Seq<char>> {
    match o {
        Some(s) => Some(s@),
        None => None,
    }
}

pub open spec fn opt_owner_view(o: Option<(ClientId, String)>) -> Option<(ClientId, Seq<char>)> {
    match o {
        Some((c, s)) => Some((c, s@)),
        None => None,
    }
}

impl NameQueueManager {
    /// Every queue holds each client at most once.
    pub closed spec fn wf(&self) -> bool {
        &&& self.queues.wf()
        &&& forall|k: Seq<char>| #[trigger] self@.contains_key(k) ==> distinct_clients(self@[k])
    }

    /// The queues of a well-formed manager: finitely many, each non-empty
    /// (a name has an owner exactly when it has a queue), each holding a
    /// client at most once.
    pub proof fn lemma_wf(&self)
        requires
            self.wf(),
        ensures
            self@.dom().finite(),
            forall|k: Seq<char>| #[trigger] self@.contains_key(k) ==> distinct_clients(self@[k]) && self@[k].len() > 0,
    {
        self.queues.lemma_finite();
        assert(self@.dom() =~= self.queues@.dom());
    }

    /// A name has an owner exactly when its queue is non-empty; the owner
    /// heads it.
    pub proof fn lemma_owner_iff_queue(&self, name: Seq<char>)
        requires
            self.wf(),
        ensures
            self@.contains_key(name) <==> queue_of(self@, name).len() > 0,
    {
        self.lemma_wf();
    }

    /// Create a new name queue manager.
    pub fn new() -> (m: Self)
        ensures
            m.wf(),
            m@ == Map::<Seq<char>, QueueModel>::empty(),
    {
        let m = NameQueueManager { queues: NameMap::new() };
        assert(m@ =~= Map::<Seq<char>, QueueModel>::empty());
        m
    }
}

impl NameQueueManager {
    proof fn lemma_view_insert(&self, old_queues: Map<Seq<char>, NameQueue>, name: Seq<char>, q: NameQueue)
        requires
            self.queues@ == old_queues.insert(name, q),
        ensures
            self@ == old_queues.map_values(|q: NameQueue| q.model()).insert(name, q.model()),
    {
        assert(self@ =~= old_queues.map_values(|q: NameQueue| q.model()).insert(name, q.model()));
    }

    proof fn lemma_view_remove(&self, old_queues: Map<Seq<char>, NameQueue>, name: Seq<char>)
        requires
            self.queues@ == old_queues.remove(name),
        ensures
            self@ == old_queues.map_values(|q: NameQueue| q.model()).remove(name),
    {
        assert(self@ =~= old_queues.map_values(|q: NameQueue| q.model()).remove(name));
    }

    /// Request a name for a client.
    ///
    /// `unique_name` is the client's unique name (":mux.N"); `flags` are the
    /// RequestName flags. The result says what to reply and whether to
    /// forward the request to the upstream bus.
    pub fn request_name(&mut self, name: &str, client_id: ClientId, unique_name: &str, flags: u32) -> (r: RequestNameResult)
        requires
            old(self).wf(),
        ensures
            final(self).wf(),
            ({
                let e = EntryModel {
                    client_id,
                    unique_name: unique_name@,
                    allow_replacement: has_flag(flags, request_name_flags::ALLOW_REPLACEMENT),
                };
                let q = queue_of(old(self)@, name@);
                &&& final(self)@ == old(self)@.insert(name@, spec_request_queue(q, e, flags))
                &&& r.reply_code == spec_request_reply(q, e, flags)
                &&& opt_string_view(r.replaced_owner) == spec_replaced_owner(q, e, flags)
            }),
            r.forward_to_bus == (r.reply_code == request_name_reply::PRIMARY_OWNER),
    {
        let allow_replacement = (flags & request_name_flags::ALLOW_REPLACEMENT) != 0;
        let replace_existing = (flags & request_name_flags::REPLACE_EXISTING) != 0;
        let do_not_queue = (flags & request_name_flags::DO_NOT_QUEUE) != 0;
        let entry = QueueEntry { client_id, unique_name: unique_name.to_owned(), allow_replacement };
        let ghost e = entry.model();
        let ghost old_queues = self.queues@;
        let ghost q_old = queue_of(old(self)@, name@);
        match self.queues.remove(name) {
            None => {
                let q = NameQueue { primary_owner: entry, waiters: VecDeque::new() };
                let ghost qm = q.model();
                assert(qm =~= seq![e]);
                self.queues.insert(name.to_owned(), q);
                proof {
                    assert(self.queues@ =~= old_queues.insert(name@, q));
                    self.lemma_view_insert(old_queues, name@, q);
                    assert forall|k: Seq<char>| #[trigger] self@.contains_key(k) implies distinct_clients(self@[k]) by {
                        if k != name@ { assert(old(self)@.contains_key(k)); }
                    }
                }
                RequestNameResult {
                    reply_code: request_name_reply::PRIMARY_OWNER,
                    forward_to_bus: true,
                    replaced_owner: None,
                }
            },
            Some(q) => {
                let ghost qm = q.model();
                assert(qm == q_old);
                if q.is_primary_owner(client_id) || q.contains_client(client_id) {
                    let reply = if q.is_primary_owner(client_id) {
                        request_name_reply::ALREADY_OWNER
                    } else {
                        request_name_reply::IN_QUEUE
                    };
                    assert(holds_client(qm, client_id)) by {
                        if qm[0].client_id == client_id { assert(0 < qm.len()); }
                    }
                    self.queues.insert(name.to_owned(), q);
                    proof {
                        assert(self.queues@ =~= old_queues.insert(name@, q));
                        self.lemma_view_insert(old_queues, name@, q);
                    }
                    return RequestNameResult { reply_code: reply, forward_to_bus: false, replaced_owner: None };
                }
                if replace_existing && q.primary_owner.allow_replacement {
                    let NameQueue { primary_owner, mut waiters } = q;
                    let old_owner_name = primary_owner.unique_name.clone();
                    let ghost w_old = waiters@;
                    waiters.push_front(primary_owner);
                    let nq = NameQueue { primary_owner: entry, waiters };
                    assert(models(nq.waiters@) =~= seq![primary_owner.model()] + models(w_old));
                    assert(nq.model() =~= seq![e] + qm);
                    assert(distinct_clients(nq.model())) by {
                        assert forall|i: int, j: int| 0 <= i < j < nq.model().len()
                            implies nq.model()[i].client_id != nq.model()[j].client_id by {
                            if i == 0 { assert(nq.model()[j] == qm[j - 1]); }
                        }
                    }
                    self.queues.insert(name.to_owned(), nq);
                    proof {
                        assert(self.queues@ =~= old_queues.insert(name@, nq));
                        self.lemma_view_insert(old_queues, name@, nq);
                        assert forall|k: Seq<char>| #[trigger] self@.contains_key(k) implies distinct_clients(self@[k]) by {
                            if k != name@ { assert(old(self)@.contains_key(k)); }
                        }
                    }
                    return RequestNameResult {
                        reply_code: request_name_reply::PRIMARY_OWNER,
                        forward_to_bus: true,
                        replaced_owner: Some(old_owner_name),
                    };
                }
                if do_not_queue {
                    self.queues.insert(name.to_owned(), q);
                    proof {
                        assert(self.queues@ =~= old_queues.insert(name@, q));
                        self.lemma_view_insert(old_queues, name@, q);
                    }
                    return RequestNameResult {
                        reply_code: request_name_reply::EXISTS,
                        forward_to_bus: false,
                        replaced_owner: None,
                    };
                }
                let mut q = q;
                let ghost w_old = q.waiters@;
                q.waiters.push_back(entry);
                assert(models(q.waiters@) =~= models(w_old).push(e));
                assert(q.model() =~= qm.push(e));
                assert(distinct_clients(q.model())) by {
                    assert forall|i: int, j: int| 0 <= i < j < q.model().len()
                        implies q.model()[i].client_id != q.model()[j].client_id by {
                        if j == qm.len() { assert(q.model()[i] == qm[i]); }
                    }
                }
                self.queues.insert(name.to_owned(), q);
                proof {
                    assert(self.queues@ =~= old_queues.insert(name@, q));
                    self.lemma_view_insert(old_queues, name@, q);
                    assert forall|k: Seq<char>| #[trigger] self@.contains_key(k) implies distinct_clients(self@[k]) by {
                        if k != name@ { assert(old(self)@.contains_key(k)); }
                    }
                }
                RequestNameResult { reply_code: request_name_reply::IN_QUEUE, forward_to_bus: false, replaced_owner: None }
            },
        }
    }
}

impl NameQueueManager {
    /// Release a name for a client.
    ///
    /// The client leaves the name's queue. When it was the primary owner,
    /// the first waiter (if any) becomes the primary owner; the release is
    /// forwarded to the upstream bus only when nobody is left.
    pub fn release_name(&mut self, name: &str, client_id: ClientId) -> (r: ReleaseNameResult)
        requires
            old(self).wf(),
        ensures
            final(self).wf(),
            ({
                let q = queue_of(old(self)@, name@);
                &&& final(self)@ == with_queue(old(self)@, name@, without_client(q, client_id))
                &&& r.reply_code == spec_release_reply(q, client_id)
                &&& opt_owner_view(r.new_owner) == spec_promoted(q, client_id)
                &&& r.forward_to_bus == (q.len() == 1 && q[0].client_id == client_id)
            }),
    {
        let ghost old_queues = self.queues@;
        let ghost q_old = queue_of(old(self)@, name@);
        match self.queues.remove(name) {
            None => {
                proof {
                    assert(self.queues@ =~= old_queues);
                    assert(self@ =~= old(self)@);
                    assert(without_client(q_old, client_id) =~= Seq::<EntryModel>::empty());
                    assert(with_queue(old(self)@, name@, without_client(q_old, client_id)) =~= old(self)@);
                }
                ReleaseNameResult { reply_code: release_name_reply::NON_EXISTENT, forward_to_bus: false, new_owner: None }
            },
            Some(q) => {
                let ghost qm = q.model();
                assert(qm == q_old);
                assert(old(self)@.contains_key(name@));
                assert(distinct_clients(qm));
                if q.is_primary_owner(client_id) {
                    proof {
                        assert(holds_client(qm, client_id)) by { assert(qm[0].client_id == client_id); }
                        let ci = client_index(qm, client_id);
                        assert(ci == 0);
                    }
                    let NameQueue { primary_owner: _, mut waiters } = q;
                    if waiters.len() > 0 {
                        let ghost w_old = waiters@;
                        let next = waiters.pop_front().unwrap();
                        let info = (next.client_id, next.unique_name.clone());
                        let nq = NameQueue { primary_owner: next, waiters };
                        assert(models(nq.waiters@) =~= models(w_old).drop_first());
                        assert(nq.model() =~= qm.remove(0));
                        assert(distinct_clients(nq.model())) by {
                            assert forall|i: int, j: int| 0 <= i < j < nq.model().len()
                                implies nq.model()[i].client_id != nq.model()[j].client_id by {
                                assert(nq.model()[i] == qm[i + 1]);
                                assert(nq.model()[j] == qm[j + 1]);
                            }
                        }
                        self.queues.insert(name.to_owned(), nq);
                        proof {
                            assert(self.queues@ =~= old_queues.insert(name@, nq));
                            self.lemma_view_insert(old_queues, name@, nq);
                            assert forall|k: Seq<char>| #[trigger] self@.contains_key(k) implies distinct_clients(self@[k]) by {
                                if k != name@ { assert(old(self)@.contains_key(k)); }
                            }
                        }
                        ReleaseNameResult { reply_code: release_name_reply::RELEASED, forward_to_bus: false, new_owner: Some(info) }
                    } else {
                        proof {
                            assert(qm.len() == 1);
                            assert(qm.remove(0) =~= Seq::<EntryModel>::empty());
                            self.lemma_view_remove(old_queues, name@);
                            assert forall|k: Seq<char>| #[trigger] self@.contains_key(k) implies distinct_clients(self@[k]) by {
                                assert(old(self)@.contains_key(k));
                            }
                        }
                        ReleaseNameResult { reply_code: release_name_reply::RELEASED, forward_to_bus: true, new_owner: None }
                    }
                } else {
                    match q.waiter_position(client_id) {
                        Some(i) => {
                            let mut q = q;
                            let ghost w_old = q.waiters@;
                            let _ = q.waiters.remove(i);
                            proof {
                                assert(qm[i + 1].client_id == client_id);
                                assert(holds_client(qm, client_id));
                                let ci = client_index(qm, client_id);
                                assert(ci == i + 1);
                                assert(models(q.waiters@) =~= models(w_old).remove(i as int));
                                assert(q.model() =~= qm.remove(i + 1));
                                assert(distinct_clients(q.model())) by {
                                    assert forall|a: int, b: int| 0 <= a < b < q.model().len()
                                        implies q.model()[a].client_id != q.model()[b].client_id by {
                                        let a2 = if a <= i { a } else { a + 1 };
                                        let b2 = if b <= i { b } else { b + 1 };
                                        assert(q.model()[a] == qm[a2]);
                                        assert(q.model()[b] == qm[b2]);
                                    }
                                }
                            }
                            self.queues.insert(name.to_owned(), q);
                            proof {
                                assert(self.queues@ =~= old_queues.insert(name@, q));
                                self.lemma_view_insert(old_queues, name@, q);
                                assert forall|k: Seq<char>| #[trigger] self@.contains_key(k) implies distinct_clients(self@[k]) by {
                                    if k != name@ { assert(old(self)@.contains_key(k)); }
                                }
                            }
                            ReleaseNameResult { reply_code: release_name_reply::RELEASED, forward_to_bus: false, new_owner: None }
                        },
                        None => {
                            proof {
                                assert forall|j: int| 0 <= j < qm.len() implies qm[j].client_id != client_id by {
                                    if j > 0 { assert(qm[j] == q.waiters@[j - 1].model()); }
                                }
                            }
                            self.queues.insert(name.to_owned(), q);
                            proof {
                                assert(self.queues@ =~= old_queues.insert(name@, q));
                                self.lemma_view_insert(old_queues, name@, q);
                                assert(self@ =~= old(self)@);
                            }
                            ReleaseNameResult { reply_code: release_name_reply::NOT_OWNER, forward_to_bus: false, new_owner: None }
                        },
                    }
                }
            },
        }
    }

    /// The queued owners of a name, the primary owner first (empty when
    /// nobody owns it).
    pub fn list_queued_owners(&self, name: &str) -> (out: Vec<String>)
        requires
            self.wf(),
        ensures
            out@.len() == queue_of(self@, name@).len(),
            forall|j: int| 0 <= j < out@.len() ==> #[trigger] out@[j]@ == queue_of(self@, name@)[j].unique_name,
    {
        match self.queues.get(name) {
            Some(q) => q.all_owners(),
            None => Vec::new(),
        }
    }

    /// Whether a name has a primary owner.
    pub fn name_has_owner(&self, name: &str) -> (r: bool)
        requires
            self.wf(),
        ensures
            r == self@.contains_key(name@),
    {
        self.queues.contains_key(name)
    }

    /// The primary owner of a name.
    pub fn get_primary_owner(&self, name: &str) -> (r: Option<(ClientId, &str)>)
        requires
            self.wf(),
        ensures
            match r {
                Some((c, u)) => self@.contains_key(name@) && self@[name@][0].client_id == c
                    && self@[name@][0].unique_name == u@,
                None => !self@.contains_key(name@),
            },
    {
        match self.queues.get(name) {
            Some(q) => Some((q.primary_owner.client_id, q.primary_owner.unique_name.as_str())),
            None => None,
        }
    }
}

/// The queues of `m` once `client` has left all of them; queues left
/// empty are dropped.
pub open spec fn spec_without_client_everywhere(m: Map<Seq<char>, QueueModel>, client: ClientId) -> Map<Seq<char>, QueueModel> {
    Map::new(
        |k: Seq<char>| m.contains_key(k) && without_client(m[k], client).len() > 0,
        |k: Seq<char>| without_client(m[k], client),
    )
}

impl NameQueueManager {
    /// Remove a client from all queues (when it disconnects).
    ///
    /// Returns one entry for each name of which the client was the primary
    /// owner, with the waiter promoted in its place (if any).
    pub fn remove_client(&mut self, client_id: ClientId) -> (results: Vec<(String, Option<(ClientId, String)>)>)
        requires
            old(self).wf(),
        ensures
            final(self).wf(),
            final(self)@ == spec_without_client_everywhere(old(self)@, client_id),
            results@.map_values(|r: (String, Option<(ClientId, String)>)| r.0@).no_duplicates(),
            forall|i: int| 0 <= i < results@.len() ==> {
                let n = #[trigger] results@[i].0@;
                &&& old(self)@.contains_key(n)
                &&& old(self)@[n][0].client_id == client_id
                &&& opt_owner_view(results@[i].1) == spec_promoted(old(self)@[n], client_id)
            },
            forall|k: Seq<char>| #[trigger] old(self)@.contains_key(k) && old(self)@[k][0].client_id == client_id
                ==> exists|i: int| 0 <= i < results@.len() && results@[i].0@ == k,
    {
        let ghost m = old(self)@;
        let names = self.queues.keys_vec();
        let ghost nv = names@.map_values(|s: String| s@);
        let mut results: Vec<(String, Option<(ClientId, String)>)> = Vec::new();
        assert forall|k: Seq<char>| m.contains_key(k) <==> exists|j: int| 0 <= j < nv.len() && nv[j] == k by {
            if m.contains_key(k) {
                let j = choose|j: int| 0 <= j < names@.len() && names@[j]@ == k;
                assert(nv[j] == k);
            }
            if exists|j: int| 0 <= j < nv.len() && nv[j] == k {
                let j = choose|j: int| 0 <= j < nv.len() && nv[j] == k;
                assert(names@[j]@ == k);
            }
        }
        for i in 0..names.len()
            invariant
                self.wf(),
                nv == names@.map_values(|s: String| s@),
                nv.no_duplicates(),
                forall|k: Seq<char>| m.contains_key(k) <==> exists|j: int| 0 <= j < nv.len() && nv[j] == k,
                forall|k: Seq<char>| #[trigger] self@.contains_key(k) <==> (if nv.take(i as int).contains(k) {
                    m.contains_key(k) && without_client(m[k], client_id).len() > 0
                } else {
                    m.contains_key(k)
                }),
                forall|k: Seq<char>| #[trigger] self@.contains_key(k) ==> self@[k] == (if nv.take(i as int).contains(k) {
                    without_client(m[k], client_id)
                } else {
                    m[k]
                }),
                results@.map_values(|r: (String, Option<(ClientId, String)>)| r.0@).no_duplicates(),
                forall|j: int| 0 <= j < results@.len() ==> {
                    let n = #[trigger] results@[j].0@;
                    &&& nv.take(i as int).contains(n)
                    &&& m.contains_key(n)
                    &&& m[n][0].client_id == client_id
                    &&& opt_owner_view(results@[j].1) == spec_promoted(m[n], client_id)
                },
                forall|k: Seq<char>| nv.take(i as int).contains(k) && m.contains_key(k) && #[trigger] m[k][0].client_id == client_id
                    ==> exists|j: int| 0 <= j < results@.len() && results@[j].0@ == k,
        {
            let ghost before = self@;
            let ghost results_before = results@;
            let ghost k = nv[i as int];
            assert(names@[i as int]@ == k);
            proof {
                assert(!nv.take(i as int).contains(k)) by {
                    if nv.take(i as int).contains(k) {
                        let j = choose|j: int| 0 <= j < i && nv.take(i as int)[j] == k;
                        assert(nv[j] == nv[i as int]);
                    }
                }
                assert(m.contains_key(k)) by { assert(nv[i as int] == k); }
                assert(before.contains_key(k));
                assert(before[k] == m[k]);
            }
            let was_primary = match self.queues.get(names[i].as_str()) {
                Some(q) => q.is_primary_owner(client_id),
                None => false,
            };
            assert(was_primary == (m[k][0].client_id == client_id));
            let r = self.release_name(names[i].as_str(), client_id);
            proof {
                assert(nv.take(i + 1) =~= nv.take(i as int).push(k));
                assert forall|k2: Seq<char>| k2 != k implies nv.take(i + 1).contains(k2) == nv.take(i as int).contains(k2) by {
                    let t = nv.take(i + 1);
                    if t.contains(k2) {
                        let j = choose|j: int| 0 <= j < t.len() && t[j] == k2;
                        assert(nv.take(i as int)[j] == k2);
                    }
                }
                assert(queue_of(before, k) == m[k]);
            }
            if was_primary {
                let ghost rv = results@.map_values(|r: (String, Option<(ClientId, String)>)| r.0@);
                results.push((names[i].clone(), r.new_owner));
                proof {
                    assert(results@.map_values(|r: (String, Option<(ClientId, String)>)| r.0@) =~= rv.push(k));
                    assert(!rv.contains(k)) by {
                        if rv.contains(k) {
                            let j = choose|j: int| 0 <= j < rv.len() && rv[j] == k;
                            assert(results@[j].0@ == k);
                        }
                    }
                }
            }
            proof {
                assert forall|k2: Seq<char>| nv.take(i + 1).contains(k2) && m.contains_key(k2) && #[trigger] m[k2][0].client_id == client_id
                    implies exists|j: int| 0 <= j < results@.len() && results@[j].0@ == k2 by {
                    if k2 == k {
                        assert(results@[results@.len() - 1].0@ == k);
                    } else {
                        assert(nv.take(i as int).contains(k2));
                        let j = choose|j: int| 0 <= j < results_before.len() && results_before[j].0@ == k2;
                        assert(results@[j].0@ == k2);
                    }
                }
            }
        }
        proof {
            assert(nv.take(names@.len() as int) =~= nv);
            assert forall|k: Seq<char>| nv.contains(k) <==> m.contains_key(k) by {
                if m.contains_key(k) {
                    let j = choose|j: int| 0 <= j < nv.len() && nv[j] == k;
                    assert(nv[j] == k);
                }
            }
            assert(self@ =~= spec_without_client_everywhere(m, client_id));
        }
        results
    }
}


/// The first client to request a free name becomes its primary owner, alone
/// in its queue, whatever the flags.
pub proof fn lemma_first_request_owns(e: EntryModel, flags: u32)
    ensures
        spec_request_reply(Seq::empty(), e, flags) == request_name_reply::PRIMARY_OWNER,
        spec_request_queue(Seq::empty(), e, flags) == seq![e],
        spec_replaced_owner(Seq::empty(), e, flags) is None,
{
}

/// A client told it is the primary owner heads the name's queue, and one
/// told it is queued is in the queue behind the owner.
pub proof fn lemma_reply_matches_queue(q: QueueModel, e: EntryModel, flags: u32)
    requires
        distinct_clients(q),
    ensures
        spec_request_reply(q, e, flags) == request_name_reply::PRIMARY_OWNER
            ==> spec_request_queue(q, e, flags)[0] == e,
        spec_request_reply(q, e, flags) == request_name_reply::ALREADY_OWNER
            ==> spec_request_queue(q, e, flags)[0].client_id == e.client_id,
        spec_request_reply(q, e, flags) == request_name_reply::IN_QUEUE
            ==> (holds_client(spec_request_queue(q, e, flags), e.client_id)
                && spec_request_queue(q, e, flags)[0].client_id != e.client_id),
        spec_request_reply(q, e, flags) == request_name_reply::EXISTS
            ==> spec_request_queue(q, e, flags) == q && !holds_client(q, e.client_id),
{
    let r = spec_request_queue(q, e, flags);
    if spec_request_reply(q, e, flags) == request_name_reply::IN_QUEUE && !holds_client(q, e.client_id) {
        assert(r[r.len() - 1] == e);
    }
}

/// A request keeps each client at most once in the queue.
pub proof fn lemma_request_keeps_distinct(q: QueueModel, e: EntryModel, flags: u32)
    requires
        distinct_clients(q),
    ensures
        distinct_clients(spec_request_queue(q, e, flags)),
        spec_request_queue(q, e, flags).len() > 0,
{
    let r = spec_request_queue(q, e, flags);
    if q.len() > 0 && !holds_client(q, e.client_id) {
        assert forall|i: int, j: int| 0 <= i < j < r.len() implies r[i].client_id != r[j].client_id by {
            if has_flag(flags, request_name_flags::REPLACE_EXISTING) && q[0].allow_replacement {
                if i == 0 { assert(r[j] == q[j - 1]); }
            } else if !has_flag(flags, request_name_flags::DO_NOT_QUEUE) {
                if j == q.len() { assert(r[i] == q[i]); }
            }
        }
    }
}

/// When the primary owner leaves, the first waiter takes its place and the
/// others keep their order behind it.
pub proof fn lemma_release_promotes_next(q: QueueModel, client: ClientId)
    requires
        distinct_clients(q),
        q.len() > 1,
        q[0].client_id == client,
    ensures
        spec_release_reply(q, client) == release_name_reply::RELEASED,
        spec_promoted(q, client) == Some((q[1].client_id, q[1].unique_name)),
        without_client(q, client) == q.skip(1),
{
    assert(holds_client(q, client));
    let i = client_index(q, client);
    assert(i == 0);
    assert(q.remove(0) =~= q.skip(1));
}

/// A waiter that leaves the queue leaves the owner and the order of the
/// other waiters unchanged.
pub proof fn lemma_release_waiter_keeps_order(q: QueueModel, i: int)
    requires
        distinct_clients(q),
        0 < i < q.len(),
    ensures
        without_client(q, q[i].client_id) == q.remove(i),
        without_client(q, q[i].client_id)[0] == q[0],
        spec_promoted(q, q[i].client_id) is None,
{
    let c = q[i].client_id;
    assert(holds_client(q, c));
    let k = client_index(q, c);
    assert(k == i);
}

/// Releasing a name right after an uncontested request gives the name back:
/// a free name becomes free again, and a client that was queued leaves the
/// queue as it was.
pub proof fn lemma_request_then_release(m: Map<Seq<char>, QueueModel>, name: Seq<char>, e: EntryModel, flags: u32)
    requires
        m.contains_key(name) ==> m[name].len() > 0 && distinct_clients(m[name]),
        !holds_client(queue_of(m, name), e.client_id),
        spec_request_reply(queue_of(m, name), e, flags) == request_name_reply::PRIMARY_OWNER
            ==> queue_of(m, name).len() == 0,
        spec_request_reply(queue_of(m, name), e, flags) != request_name_reply::EXISTS,
    ensures
        ({
            let q = queue_of(m, name);
            let after = m.insert(name, spec_request_queue(q, e, flags));
            &&& spec_release_reply(queue_of(after, name), e.client_id) == release_name_reply::RELEASED
            &&& with_queue(after, name, without_client(queue_of(after, name), e.client_id)) == m
        }),
{
    let q = queue_of(m, name);
    let r = spec_request_queue(q, e, flags);
    let after = m.insert(name, r);
    assert(queue_of(after, name) == r);
    if q.len() == 0 {
        assert(r == seq![e]);
        assert(holds_client(r, e.client_id)) by { assert(r[0].client_id == e.client_id); }
        assert(client_index(r, e.client_id) == 0);
        assert(r.remove(0) =~= Seq::<EntryModel>::empty());
        assert(!m.contains_key(name));
        assert(after.remove(name) =~= m);
    } else {
        assert(r == q.push(e));
        assert(r[q.len() as int] == e);
        assert(holds_client(r, e.client_id));
        let k = client_index(r, e.client_id);
        assert(k == q.len()) by {
            if k < q.len() { assert(r[k] == q[k]); }
        }
        assert(r.remove(k) =~= q);
        assert(after.insert(name, q) =~= m);
    }
}

/// After a client is removed, no queue holds it, and every remaining queue
/// is non-empty.
pub proof fn lemma_removed_client_absent(m: Map<Seq<char>, QueueModel>, client: ClientId)
    requires
        forall|k: Seq<char>| #[trigger] m.contains_key(k) ==> distinct_clients(m[k]),
    ensures
        forall|k: Seq<char>| #[trigger] spec_without_client_everywhere(m, client).contains_key(k) ==> {
            &&& !holds_client(spec_without_client_everywhere(m, client)[k], client)
            &&& spec_without_client_everywhere(m, client)[k].len() > 0
        },
{
    assert forall|k: Seq<char>| #[trigger] spec_without_client_everywhere(m, client).contains_key(k) implies {
        &&& !holds_client(spec_without_client_everywhere(m, client)[k], client)
        &&& spec_without_client_everywhere(m, client)[k].len() > 0
    } by {
        let q = m[k];
        let w = without_client(q, client);
        if holds_client(q, client) {
            let i = client_index(q, client);
            if holds_client(w, client) {
                let j = choose|j: int| 0 <= j < w.len() && w[j].client_id == client;
                if j < i { assert(q[j] == w[j]); } else { assert(q[j + 1] == w[j]); }
            }
        }
    }
}


/// A client that leaves a queue is no longer in it, and the queue still
/// holds each client at most once.
pub proof fn lemma_release_removes_client(q: QueueModel, client: ClientId)
    requires
        distinct_clients(q),
    ensures
        !holds_client(without_client(q, client), client),
        distinct_clients(without_client(q, client)),
{
    let w = without_client(q, client);
    if holds_client(q, client) {
        let i = client_index(q, client);
        if holds_client(w, client) {
            let j = choose|j: int| 0 <= j < w.len() && w[j].client_id == client;
            if j < i { assert(q[j] == w[j]); } else { assert(q[j + 1] == w[j]); }
        }
        assert forall|a: int, b: int| 0 <= a < b < w.len() implies w[a].client_id != w[b].client_id by {
            let a2 = if a < i { a } else { a + 1 };
            let b2 = if b < i { b } else { b + 1 };
            assert(w[a] == q[a2]);
            assert(w[b] == q[b2]);
        }
    }
}

} // verus!
