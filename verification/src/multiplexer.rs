//! The multiplexer's own state and the decisions it takes.
//!
//! The multiplexer stands in for the message bus towards its clients: it
//! registers them under unique names, answers the bus's own methods, keeps
//! the routing table in step with the names its clients acquire and
//! release, and hands each signal to the clients whose match rules accept
//! it. Sockets, upstream connections and the event loop are the caller's;
//! this module holds the state and the decisions.

use vstd::prelude::*;
use vstd::std_specs::iter::IteratorSpec;

use std::collections::HashMap;

use crate::match_rules::{any_rule_matches, spec_matches, RuleErrorModel, spec_parse, spec_rule_error_text, strings_view_seq, MessageModel, MessageType, has_rule, without_rule, ClientMatchRules, MatchRule, MessageFields, RuleModel};
use crate::message::error_names::{MATCH_RULE_INVALID, MATCH_RULE_NOT_FOUND, NAME_HAS_NO_OWNER, UNIX_PROCESS_ID_UNKNOWN};
use crate::message::{spec_is_daemon_call, spec_is_name_owner_changed, DBUS_NAME};
use crate::name_queue::release_name_reply::RELEASED;
use crate::name_queue::request_name_reply::{ALREADY_OWNER, PRIMARY_OWNER};
use crate::names::NameSet;
use crate::routing::{is_unique_name, spec_owned_after_change, spec_route_for, spec_unique_after_change, Route, RoutingState, RoutingTable};
use crate::serial_map::ClientId;
use crate::text::{concat, str_eq, trim, trim_str};

verus! {

broadcast use vstd::seq_lib::group_seq_properties;

/// Unix credentials for a connected client.
#[derive(Debug, Clone, Copy)]
pub struct ClientCredentials {
    /// User ID of the client process.
    pub uid: u32,
    /// Process ID of the client process.
    pub pid: Option<u32>,
    /// Group ID of the client process.
    pub gid: u32,
}

/// What the multiplexer knows of a connected client.
struct ClientInfo {
    unique_name: String,
    owned_names: NameSet,
    match_rules: ClientMatchRules,
    credentials: ClientCredentials,
}

/// The abstract content of a client's record.
pub struct ClientModel {
    /// The client's unique name.
    pub unique_name: Seq<char>,
    /// Names the client acquired on the container bus.
    pub owned: Set<Seq<char>>,
    /// The client's match rules.
    pub rules: Seq<RuleModel>,
    /// The client's credentials.
    pub credentials: ClientCredentials,
}

impl ClientInfo {
    spec fn model(&self) -> ClientModel {
        ClientModel {
            unique_name: self.unique_name@,
            owned: self.owned_names@,
            rules: self.match_rules@,
            credentials: self.credentials,
        }
    }

    spec fn wf(&self) -> bool {
        self.owned_names.wf() && self.match_rules.wf()
    }
}

/// The connected clients, by id.
pub struct ClientRegistry {
    clients: HashMap<ClientId, ClientInfo>,
}

impl View for ClientRegistry {
    type V = Map<ClientId, ClientModel>;

    closed spec fn view(&self) -> Map<ClientId, ClientModel> {
        self.clients@.map_values(|c: ClientInfo| c.model())
    }
}

/// Whether some client of `m` has the unique name `name`.
pub open spec fn has_unique_name(m: Map<ClientId, ClientModel>, name: Seq<char>) -> bool {
    exists|id: ClientId| #[trigger] m.contains_key(id) && m[id].unique_name == name
}

/// Whether some client of `m` owns the well-known name `name`.
pub open spec fn has_owner(m: Map<ClientId, ClientModel>, name: Seq<char>) -> bool {
    exists|id: ClientId| #[trigger] m.contains_key(id) && m[id].owned.contains(name)
}

/// Whether `c` are the credentials of a client of `m` that `name` names:
/// its unique name when some client has it, else a well-known name it owns.
pub open spec fn credentials_of(m: Map<ClientId, ClientModel>, name: Seq<char>, c: ClientCredentials) -> bool {
    if has_unique_name(m, name) {
        exists|id: ClientId| #[trigger] m.contains_key(id) && m[id].unique_name == name && m[id].credentials == c
    } else {
        exists|id: ClientId| #[trigger] m.contains_key(id) && m[id].owned.contains(name) && m[id].credentials == c
    }
}

/// The record of a client after it acquired `name`.
pub open spec fn with_owned(c: ClientModel, name: Seq<char>) -> ClientModel {
    ClientModel { owned: c.owned.insert(name), ..c }
}

/// The record of a client after it released `name`.
pub open spec fn without_owned(c: ClientModel, name: Seq<char>) -> ClientModel {
    ClientModel { owned: c.owned.remove(name), ..c }
}

/// The record of a client after it added `rule`.
pub open spec fn with_rule(c: ClientModel, rule: RuleModel) -> ClientModel {
    ClientModel {
        rules: if has_rule(c.rules, rule.rule_string) { c.rules } else { c.rules.push(rule) },
        ..c
    }
}

/// The record of a client after it removed the rule written `s`.
pub open spec fn without_rule_of(c: ClientModel, s: Seq<char>) -> ClientModel {
    ClientModel { rules: without_rule(c.rules, s), ..c }
}

/// `m` with the record of `id`, if there is one, replaced by `c`.
pub open spec fn update_client(m: Map<ClientId, ClientModel>, id: ClientId, c: ClientModel) -> Map<ClientId, ClientModel> {
    if m.contains_key(id) { m.insert(id, c) } else { m }
}

impl ClientRegistry {
    /// Each record is well formed.
    pub closed spec fn wf(&self) -> bool {
        forall|id: ClientId| #[trigger] self.clients@.contains_key(id) ==> self.clients@[id].wf()
    }

    /// The ids of the connected clients, each once, in the order the map
    /// hands them out.
    fn ids(&self) -> (out: Vec<ClientId>)
        ensures
            out@.no_duplicates(),
            out@.to_set() == self@.dom(),
    {
        broadcast use vstd::std_specs::hash::group_hash_axioms;
        let ghost ks = vstd::std_specs::hash::spec_keys_iter(&self.clients).remaining();
        let mut out: Vec<ClientId> = Vec::new();
        for k in it: self.clients.keys()
            invariant
                it.seq() == ks,
                out@ == ks.take(it.index() as int).map_values(|r: &ClientId| *r),
        {
            out.push(*k);
            assert(out@ =~= ks.take(it.index() + 1).map_values(|r: &ClientId| *r));
        }
        assert(out@ =~= ks.map_values(|r: &ClientId| *r));
        assert(ks.map_values(|r: &ClientId| *r) =~= ks.unref());
        assert(self@.dom() =~= self.clients@.dom());
        out
    }

    /// No client is connected.
    pub fn new() -> (r: Self)
        ensures
            r.wf(),
            r@ == Map::<ClientId, ClientModel>::empty(),
    {
        broadcast use vstd::std_specs::hash::group_hash_axioms;
        let r = ClientRegistry { clients: HashMap::new() };
        assert(r@ =~= Map::<ClientId, ClientModel>::empty());
        r
    }

    /// Register client `id` under `unique_name`, with no names and no match
    /// rules; a client already registered under `id` is replaced.
    pub fn register(&mut self, id: ClientId, unique_name: String, credentials: ClientCredentials)
        requires
            old(self).wf(),
        ensures
            final(self).wf(),
            final(self)@ == old(self)@.insert(id, ClientModel {
                unique_name: unique_name@,
                owned: Set::empty(),
                rules: Seq::empty(),
                credentials,
            }),
    {
        broadcast use vstd::std_specs::hash::group_hash_axioms;
        let info = ClientInfo {
            unique_name,
            owned_names: NameSet::new(),
            match_rules: ClientMatchRules::new(),
            credentials,
        };
        let ghost m = info.model();
        self.clients.insert(id, info);
        assert(self@ =~= old(self)@.insert(id, m));
    }

    /// Unregister client `id`; returns the names it owned (none when it was
    /// not registered), each once.
    pub fn unregister(&mut self, id: ClientId) -> (names: Vec<String>)
        requires
            old(self).wf(),
        ensures
            final(self).wf(),
            final(self)@ == old(self)@.remove(id),
            strings_view_seq(names@).no_duplicates(),
            forall|k: Seq<char>| #![trigger strings_view_seq(names@).contains(k)]
                strings_view_seq(names@).contains(k)
                <==> (old(self)@.contains_key(id) && old(self)@[id].owned.contains(k)),
    {
        broadcast use vstd::std_specs::hash::group_hash_axioms;
        match self.clients.remove(&id) {
            Some(info) => {
                assert(self@ =~= old(self)@.remove(id));
                assert(old(self).clients@[id].wf());
                let names = info.owned_names.to_vec();
                proof {
                    let nv = strings_view_seq(names@);
                    assert forall|k: Seq<char>| #![trigger nv.contains(k)] nv.contains(k) <==> info.owned_names@.contains(k) by {
                        if nv.contains(k) {
                            let j = choose|j: int| 0 <= j < nv.len() && nv[j] == k;
                            assert(names@[j]@ == k);
                        }
                        if info.owned_names@.contains(k) {
                            let j = choose|j: int| 0 <= j < names@.len() && names@[j]@ == k;
                            assert(nv[j] == k);
                        }
                    }
                }
                names
            },
            None => {
                assert(self@ =~= old(self)@.remove(id));
                let names: Vec<String> = Vec::new();
                assert(strings_view_seq(names@) =~= Seq::<Seq<char>>::empty());
                names
            },
        }
    }

    /// The unique name of client `id`, if connected.
    pub fn unique_name_of(&self, id: ClientId) -> (r: Option<String>)
        requires
            self.wf(),
        ensures
            match r {
                Some(n) => self@.contains_key(id) && n@ == self@[id].unique_name,
                None => !self@.contains_key(id),
            },
    {
        broadcast use vstd::std_specs::hash::group_hash_axioms;
        match self.clients.get(&id) {
            Some(info) => Some(info.unique_name.clone()),
            None => None,
        }
    }

    /// Record that client `id` acquired `name`.
    pub fn add_owned_name(&mut self, id: ClientId, name: String)
        requires
            old(self).wf(),
        ensures
            final(self).wf(),
            final(self)@ == update_client(old(self)@, id, with_owned(old(self)@[id], name@)),
    {
        broadcast use vstd::std_specs::hash::group_hash_axioms;
        match self.clients.remove(&id) {
            Some(mut info) => {
                assert(old(self).clients@[id].wf());
                let ghost n = name@;
                let _ = info.owned_names.insert(name);
                self.clients.insert(id, info);
                assert(info.model() == with_owned(old(self)@[id], n));
                assert(self@ =~= old(self)@.insert(id, info.model()));
            },
            None => {
                assert(self.clients@ =~= old(self).clients@);
            },
        }
    }

    /// Record that client `id` released `name`; returns whether it owned it.
    pub fn remove_owned_name(&mut self, id: ClientId, name: &str) -> (removed: bool)
        requires
            old(self).wf(),
        ensures
            final(self).wf(),
            final(self)@ == update_client(old(self)@, id, without_owned(old(self)@[id], name@)),
            removed == (old(self)@.contains_key(id) && old(self)@[id].owned.contains(name@)),
    {
        broadcast use vstd::std_specs::hash::group_hash_axioms;
        match self.clients.remove(&id) {
            Some(mut info) => {
                assert(old(self).clients@[id].wf());
                let removed = info.owned_names.remove(name);
                self.clients.insert(id, info);
                assert(info.model() == without_owned(old(self)@[id], name@));
                assert(self@ =~= old(self)@.insert(id, info.model()));
                removed
            },
            None => {
                assert(self.clients@ =~= old(self).clients@);
                false
            },
        }
    }

    /// Add `rule` to the match rules of client `id`.
    pub fn add_match_rule(&mut self, id: ClientId, rule: MatchRule)
        requires
            old(self).wf(),
        ensures
            final(self).wf(),
            final(self)@ == update_client(old(self)@, id, with_rule(old(self)@[id], rule@)),
    {
        broadcast use vstd::std_specs::hash::group_hash_axioms;
        match self.clients.remove(&id) {
            Some(mut info) => {
                assert(old(self).clients@[id].wf());
                let ghost r = rule@;
                info.match_rules.add(rule);
                self.clients.insert(id, info);
                assert(info.model() == with_rule(old(self)@[id], r));
                assert(self@ =~= old(self)@.insert(id, info.model()));
            },
            None => {
                assert(self.clients@ =~= old(self).clients@);
            },
        }
    }

    /// Remove the match rule written `rule_string` from client `id`; returns
    /// whether the client had it.
    pub fn remove_match_rule(&mut self, id: ClientId, rule_string: &str) -> (removed: bool)
        requires
            old(self).wf(),
        ensures
            final(self).wf(),
            final(self)@ == update_client(old(self)@, id, without_rule_of(old(self)@[id], rule_string@)),
            removed == (old(self)@.contains_key(id) && has_rule(old(self)@[id].rules, rule_string@)),
    {
        broadcast use vstd::std_specs::hash::group_hash_axioms;
        match self.clients.remove(&id) {
            Some(mut info) => {
                assert(old(self).clients@[id].wf());
                let removed = info.match_rules.remove(rule_string);
                self.clients.insert(id, info);
                assert(info.model() == without_rule_of(old(self)@[id], rule_string@));
                assert(self@ =~= old(self)@.insert(id, info.model()));
                removed
            },
            None => {
                assert(self.clients@ =~= old(self).clients@);
                false
            },
        }
    }

    /// Find a client's credentials by a bus name: its unique name, or else a
    /// well-known name it owns. `None` when no client answers to the name.
    pub fn find_client_credentials(&self, name: &str) -> (r: Option<ClientCredentials>)
        requires
            self.wf(),
        ensures
            match r {
                Some(c) => credentials_of(self@, name@, c),
                None => !has_unique_name(self@, name@) && !has_owner(self@, name@),
            },
    {
        broadcast use vstd::std_specs::hash::group_hash_axioms;
        let ids = self.ids();
        for i in 0..ids.len()
            invariant
                self.wf(),
                ids@.to_set() == self@.dom(),
                forall|j: int| 0 <= j < i ==> #[trigger] self@.contains_key(ids@[j])
                    ==> self@[ids@[j]].unique_name != name@,
        {
            let id = ids[i];
            if let Some(info) = self.clients.get(&id) {
                if str_eq(info.unique_name.as_str(), name) {
                    assert(self@.contains_key(id) && self@[id] == info.model());
                    return Some(info.credentials);
                }
            }
        }
        proof {
            assert forall|id: ClientId| #[trigger] self@.contains_key(id) implies self@[id].unique_name != name@ by {
                assert(ids@.to_set().contains(id));
                let j = choose|j: int| 0 <= j < ids@.len() && ids@[j] == id;
                assert(self@.contains_key(ids@[j]));
            }
        }
        for i in 0..ids.len()
            invariant
                self.wf(),
                ids@.to_set() == self@.dom(),
                !has_unique_name(self@, name@),
                forall|j: int| 0 <= j < i ==> #[trigger] self@.contains_key(ids@[j])
                    ==> !self@[ids@[j]].owned.contains(name@),
        {
            let id = ids[i];
            if let Some(info) = self.clients.get(&id) {
                assert(self.clients@[id].wf());
                if info.owned_names.contains(name) {
                    assert(self@.contains_key(id) && self@[id] == info.model());
                    return Some(info.credentials);
                }
            }
        }
        proof {
            assert forall|id: ClientId| #[trigger] self@.contains_key(id) implies !self@[id].owned.contains(name@) by {
                assert(ids@.to_set().contains(id));
                let j = choose|j: int| 0 <= j < ids@.len() && ids@[j] == id;
                assert(self@.contains_key(ids@[j]));
            }
        }
        None
    }

    /// The clients that a signal described by `fields` goes to: those with a
    /// match rule that accepts it, each once.
    pub fn signal_recipients(&self, fields: &MessageFields) -> (out: Vec<ClientId>)
        requires
            self.wf(),
        ensures
            out@.no_duplicates(),
            forall|id: ClientId| #[trigger] out@.contains(id)
                <==> (self@.contains_key(id) && any_rule_matches(self@[id].rules, fields@)),
    {
        broadcast use vstd::std_specs::hash::group_hash_axioms;
        let ids = self.ids();
        let mut out: Vec<ClientId> = Vec::new();
        for i in 0..ids.len()
            invariant
                self.wf(),
                ids@.no_duplicates(),
                ids@.to_set() == self@.dom(),
                out@.no_duplicates(),
                forall|id: ClientId| #[trigger] out@.contains(id)
                    <==> exists|j: int| 0 <= j < i && ids@[j] == id && self@.contains_key(id)
                        && any_rule_matches(self@[id].rules, fields@),
        {
            let ghost before = out@;
            let id = ids[i];
            let hit = match self.clients.get(&id) {
                Some(info) => {
                    assert(self.clients@[id].wf());
                    info.match_rules.matches_fields(fields)
                },
                None => false,
            };
            if hit {
                proof {
                    assert(!before.contains(id)) by {
                        if before.contains(id) {
                            let j = choose|j: int| 0 <= j < i && ids@[j] == id && self@.contains_key(id)
                                && any_rule_matches(self@[id].rules, fields@);
                            assert(ids@[j] == ids@[i as int]);
                        }
                    }
                }
                out.push(id);
                proof {
                    assert forall|k: ClientId| #[trigger] out@.contains(k)
                        <==> exists|j: int| 0 <= j < i + 1 && ids@[j] == k && self@.contains_key(k)
                            && any_rule_matches(self@[k].rules, fields@) by {
                        if out@.contains(k) && k != id {
                            let p = choose|p: int| 0 <= p < out@.len() && out@[p] == k;
                            assert(before[p] == k);
                        }
                        if k == id {
                            assert(out@[out@.len() - 1] == k);
                        }
                        if exists|j: int| 0 <= j < i && ids@[j] == k && self@.contains_key(k)
                            && any_rule_matches(self@[k].rules, fields@) {
                            assert(before.contains(k));
                            let p = choose|p: int| 0 <= p < before.len() && before[p] == k;
                            assert(out@[p] == k);
                        }
                    }
                }
            } else {
                proof {
                    assert forall|k: ClientId| #[trigger] out@.contains(k)
                        <==> exists|j: int| 0 <= j < i + 1 && ids@[j] == k && self@.contains_key(k)
                            && any_rule_matches(self@[k].rules, fields@) by {
                        if exists|j: int| 0 <= j < i + 1 && ids@[j] == k && self@.contains_key(k)
                            && any_rule_matches(self@[k].rules, fields@) {
                            let j = choose|j: int| 0 <= j < i + 1 && ids@[j] == k && self@.contains_key(k)
                                && any_rule_matches(self@[k].rules, fields@);
                            assert(j != i);
                        }
                    }
                }
            }
        }
        proof {
            assert forall|id: ClientId| #[trigger] out@.contains(id)
                <==> (self@.contains_key(id) && any_rule_matches(self@[id].rules, fields@)) by {
                if self@.contains_key(id) && any_rule_matches(self@[id].rules, fields@) {
                    assert(ids@.to_set().contains(id));
                    let j = choose|j: int| 0 <= j < ids@.len() && ids@[j] == id;
                    assert(ids@[j] == id);
                }
            }
        }
        out
    }
}


/// The bus's own name, answered by the multiplexer.
pub open spec fn bus_name() -> Seq<char> {
    DBUS_NAME@
}

/// A method of the message bus that the multiplexer answers itself.
#[derive(Debug, Clone, Copy, PartialEq, Eq, Structural)]
pub enum DaemonMethod {
    Hello,
    RequestName,
    ReleaseName,
    ListNames,
    ListActivatableNames,
    GetNameOwner,
    NameHasOwner,
    GetId,
    Ping,
    GetMachineId,
    GetConnectionUnixUser,
    GetConnectionUnixProcessID,
    GetConnectionCredentials,
    ListQueuedOwners,
    AddMatch,
    RemoveMatch,
    Introspect,
    GetAll,
    /// Any other member: passed on to the container's bus.
    Unknown,
}

/// The bus method named `member`.
pub open spec fn spec_daemon_method(member: Seq<char>) -> DaemonMethod {
    if member == "Hello"@ { DaemonMethod::Hello }
    else if member == "RequestName"@ { DaemonMethod::RequestName }
    else if member == "ReleaseName"@ { DaemonMethod::ReleaseName }
    else if member == "ListNames"@ { DaemonMethod::ListNames }
    else if member == "ListActivatableNames"@ { DaemonMethod::ListActivatableNames }
    else if member == "GetNameOwner"@ { DaemonMethod::GetNameOwner }
    else if member == "NameHasOwner"@ { DaemonMethod::NameHasOwner }
    else if member == "GetId"@ { DaemonMethod::GetId }
    else if member == "Ping"@ { DaemonMethod::Ping }
    else if member == "GetMachineId"@ { DaemonMethod::GetMachineId }
    else if member == "GetConnectionUnixUser"@ { DaemonMethod::GetConnectionUnixUser }
    else if member == "GetConnectionUnixProcessID"@ { DaemonMethod::GetConnectionUnixProcessID }
    else if member == "GetConnectionCredentials"@ { DaemonMethod::GetConnectionCredentials }
    else if member == "ListQueuedOwners"@ { DaemonMethod::ListQueuedOwners }
    else if member == "AddMatch"@ { DaemonMethod::AddMatch }
    else if member == "RemoveMatch"@ { DaemonMethod::RemoveMatch }
    else if member == "Introspect"@ { DaemonMethod::Introspect }
    else if member == "GetAll"@ { DaemonMethod::GetAll }
    else { DaemonMethod::Unknown }
}

/// The member name of a bus method the multiplexer answers itself.
pub open spec fn method_member(d: DaemonMethod) -> Seq<char> {
    match d {
        DaemonMethod::Hello => "Hello"@,
        DaemonMethod::RequestName => "RequestName"@,
        DaemonMethod::ReleaseName => "ReleaseName"@,
        DaemonMethod::ListNames => "ListNames"@,
        DaemonMethod::ListActivatableNames => "ListActivatableNames"@,
        DaemonMethod::GetNameOwner => "GetNameOwner"@,
        DaemonMethod::NameHasOwner => "NameHasOwner"@,
        DaemonMethod::GetId => "GetId"@,
        DaemonMethod::Ping => "Ping"@,
        DaemonMethod::GetMachineId => "GetMachineId"@,
        DaemonMethod::GetConnectionUnixUser => "GetConnectionUnixUser"@,
        DaemonMethod::GetConnectionUnixProcessID => "GetConnectionUnixProcessID"@,
        DaemonMethod::GetConnectionCredentials => "GetConnectionCredentials"@,
        DaemonMethod::ListQueuedOwners => "ListQueuedOwners"@,
        DaemonMethod::AddMatch => "AddMatch"@,
        DaemonMethod::RemoveMatch => "RemoveMatch"@,
        DaemonMethod::Introspect => "Introspect"@,
        DaemonMethod::GetAll => "GetAll"@,
        DaemonMethod::Unknown => Seq::empty(),
    }
}

/// The member names of the bus methods are pairwise different.
proof fn lemma_members_distinct()
    ensures
        "RequestName"@ != "Hello"@,
        "ReleaseName"@ != "Hello"@,
        "ReleaseName"@ != "RequestName"@,
        "ListNames"@ != "Hello"@,
        "ListNames"@ != "RequestName"@,
        "ListNames"@ != "ReleaseName"@,
        "ListActivatableNames"@ != "Hello"@,
        "ListActivatableNames"@ != "RequestName"@,
        "ListActivatableNames"@ != "ReleaseName"@,
        "ListActivatableNames"@ != "ListNames"@,
        "GetNameOwner"@ != "Hello"@,
        "GetNameOwner"@ != "RequestName"@,
        "GetNameOwner"@ != "ReleaseName"@,
        "GetNameOwner"@ != "ListNames"@,
        "GetNameOwner"@ != "ListActivatableNames"@,
        "NameHasOwner"@ != "Hello"@,
        "NameHasOwner"@ != "RequestName"@,
        "NameHasOwner"@ != "ReleaseName"@,
        "NameHasOwner"@ != "ListNames"@,
        "NameHasOwner"@ != "ListActivatableNames"@,
        "NameHasOwner"@ != "GetNameOwner"@,
        "GetId"@ != "Hello"@,
        "GetId"@ != "RequestName"@,
        "GetId"@ != "ReleaseName"@,
        "GetId"@ != "ListNames"@,
        "GetId"@ != "ListActivatableNames"@,
        "GetId"@ != "GetNameOwner"@,
        "GetId"@ != "NameHasOwner"@,
        "Ping"@ != "Hello"@,
        "Ping"@ != "RequestName"@,
        "Ping"@ != "ReleaseName"@,
        "Ping"@ != "ListNames"@,
        "Ping"@ != "ListActivatableNames"@,
        "Ping"@ != "GetNameOwner"@,
        "Ping"@ != "NameHasOwner"@,
        "Ping"@ != "GetId"@,
        "GetMachineId"@ != "Hello"@,
        "GetMachineId"@ != "RequestName"@,
        "GetMachineId"@ != "ReleaseName"@,
        "GetMachineId"@ != "ListNames"@,
        "GetMachineId"@ != "ListActivatableNames"@,
        "GetMachineId"@ != "GetNameOwner"@,
        "GetMachineId"@ != "NameHasOwner"@,
        "GetMachineId"@ != "GetId"@,
        "GetMachineId"@ != "Ping"@,
        "GetConnectionUnixUser"@ != "Hello"@,
        "GetConnectionUnixUser"@ != "RequestName"@,
        "GetConnectionUnixUser"@ != "ReleaseName"@,
        "GetConnectionUnixUser"@ != "ListNames"@,
        "GetConnectionUnixUser"@ != "ListActivatableNames"@,
        "GetConnectionUnixUser"@ != "GetNameOwner"@,
        "GetConnectionUnixUser"@ != "NameHasOwner"@,
        "GetConnectionUnixUser"@ != "GetId"@,
        "GetConnectionUnixUser"@ != "Ping"@,
        "GetConnectionUnixUser"@ != "GetMachineId"@,
        "GetConnectionUnixProcessID"@ != "Hello"@,
        "GetConnectionUnixProcessID"@ != "RequestName"@,
        "GetConnectionUnixProcessID"@ != "ReleaseName"@,
        "GetConnectionUnixProcessID"@ != "ListNames"@,
        "GetConnectionUnixProcessID"@ != "ListActivatableNames"@,
        "GetConnectionUnixProcessID"@ != "GetNameOwner"@,
        "GetConnectionUnixProcessID"@ != "NameHasOwner"@,
        "GetConnectionUnixProcessID"@ != "GetId"@,
        "GetConnectionUnixProcessID"@ != "Ping"@,
        "GetConnectionUnixProcessID"@ != "GetMachineId"@,
        "GetConnectionUnixProcessID"@ != "GetConnectionUnixUser"@,
        "GetConnectionCredentials"@ != "Hello"@,
        "GetConnectionCredentials"@ != "RequestName"@,
        "GetConnectionCredentials"@ != "ReleaseName"@,
        "GetConnectionCredentials"@ != "ListNames"@,
        "GetConnectionCredentials"@ != "ListActivatableNames"@,
        "GetConnectionCredentials"@ != "GetNameOwner"@,
        "GetConnectionCredentials"@ != "NameHasOwner"@,
        "GetConnectionCredentials"@ != "GetId"@,
        "GetConnectionCredentials"@ != "Ping"@,
        "GetConnectionCredentials"@ != "GetMachineId"@,
        "GetConnectionCredentials"@ != "GetConnectionUnixUser"@,
        "GetConnectionCredentials"@ != "GetConnectionUnixProcessID"@,
        "ListQueuedOwners"@ != "Hello"@,
        "ListQueuedOwners"@ != "RequestName"@,
        "ListQueuedOwners"@ != "ReleaseName"@,
        "ListQueuedOwners"@ != "ListNames"@,
        "ListQueuedOwners"@ != "ListActivatableNames"@,
        "ListQueuedOwners"@ != "GetNameOwner"@,
        "ListQueuedOwners"@ != "NameHasOwner"@,
        "ListQueuedOwners"@ != "GetId"@,
        "ListQueuedOwners"@ != "Ping"@,
        "ListQueuedOwners"@ != "GetMachineId"@,
        "ListQueuedOwners"@ != "GetConnectionUnixUser"@,
        "ListQueuedOwners"@ != "GetConnectionUnixProcessID"@,
        "ListQueuedOwners"@ != "GetConnectionCredentials"@,
        "AddMatch"@ != "Hello"@,
        "AddMatch"@ != "RequestName"@,
        "AddMatch"@ != "ReleaseName"@,
        "AddMatch"@ != "ListNames"@,
        "AddMatch"@ != "ListActivatableNames"@,
        "AddMatch"@ != "GetNameOwner"@,
        "AddMatch"@ != "NameHasOwner"@,
        "AddMatch"@ != "GetId"@,
        "AddMatch"@ != "Ping"@,
        "AddMatch"@ != "GetMachineId"@,
        "AddMatch"@ != "GetConnectionUnixUser"@,
        "AddMatch"@ != "GetConnectionUnixProcessID"@,
        "AddMatch"@ != "GetConnectionCredentials"@,
        "AddMatch"@ != "ListQueuedOwners"@,
        "RemoveMatch"@ != "Hello"@,
        "RemoveMatch"@ != "RequestName"@,
        "RemoveMatch"@ != "ReleaseName"@,
        "RemoveMatch"@ != "ListNames"@,
        "RemoveMatch"@ != "ListActivatableNames"@,
        "RemoveMatch"@ != "GetNameOwner"@,
        "RemoveMatch"@ != "NameHasOwner"@,
        "RemoveMatch"@ != "GetId"@,
        "RemoveMatch"@ != "Ping"@,
        "RemoveMatch"@ != "GetMachineId"@,
        "RemoveMatch"@ != "GetConnectionUnixUser"@,
        "RemoveMatch"@ != "GetConnectionUnixProcessID"@,
        "RemoveMatch"@ != "GetConnectionCredentials"@,
        "RemoveMatch"@ != "ListQueuedOwners"@,
        "RemoveMatch"@ != "AddMatch"@,
        "Introspect"@ != "Hello"@,
        "Introspect"@ != "RequestName"@,
        "Introspect"@ != "ReleaseName"@,
        "Introspect"@ != "ListNames"@,
        "Introspect"@ != "ListActivatableNames"@,
        "Introspect"@ != "GetNameOwner"@,
        "Introspect"@ != "NameHasOwner"@,
        "Introspect"@ != "GetId"@,
        "Introspect"@ != "Ping"@,
        "Introspect"@ != "GetMachineId"@,
        "Introspect"@ != "GetConnectionUnixUser"@,
        "Introspect"@ != "GetConnectionUnixProcessID"@,
        "Introspect"@ != "GetConnectionCredentials"@,
        "Introspect"@ != "ListQueuedOwners"@,
        "Introspect"@ != "AddMatch"@,
        "Introspect"@ != "RemoveMatch"@,
        "GetAll"@ != "Hello"@,
        "GetAll"@ != "RequestName"@,
        "GetAll"@ != "ReleaseName"@,
        "GetAll"@ != "ListNames"@,
        "GetAll"@ != "ListActivatableNames"@,
        "GetAll"@ != "GetNameOwner"@,
        "GetAll"@ != "NameHasOwner"@,
        "GetAll"@ != "GetId"@,
        "GetAll"@ != "Ping"@,
        "GetAll"@ != "GetMachineId"@,
        "GetAll"@ != "GetConnectionUnixUser"@,
        "GetAll"@ != "GetConnectionUnixProcessID"@,
        "GetAll"@ != "GetConnectionCredentials"@,
        "GetAll"@ != "ListQueuedOwners"@,
        "GetAll"@ != "AddMatch"@,
        "GetAll"@ != "RemoveMatch"@,
        "GetAll"@ != "Introspect"@,
{
    reveal_strlit("Hello");
    reveal_strlit("RequestName");
    reveal_strlit("ReleaseName");
    reveal_strlit("ListNames");
    reveal_strlit("ListActivatableNames");
    reveal_strlit("GetNameOwner");
    reveal_strlit("NameHasOwner");
    reveal_strlit("GetId");
    reveal_strlit("Ping");
    reveal_strlit("GetMachineId");
    reveal_strlit("GetConnectionUnixUser");
    reveal_strlit("GetConnectionUnixProcessID");
    reveal_strlit("GetConnectionCredentials");
    reveal_strlit("ListQueuedOwners");
    reveal_strlit("AddMatch");
    reveal_strlit("RemoveMatch");
    reveal_strlit("Introspect");
    reveal_strlit("GetAll");
    assert("RequestName"@ != "Hello"@) by { assert("RequestName"@.len() != "Hello"@.len()); }
    assert("ReleaseName"@ != "Hello"@) by { assert("ReleaseName"@.len() != "Hello"@.len()); }
    assert("ReleaseName"@ != "RequestName"@) by { assert("ReleaseName"@[2] != "RequestName"@[2]); }
    assert("ListNames"@ != "Hello"@) by { assert("ListNames"@.len() != "Hello"@.len()); }
    assert("ListNames"@ != "RequestName"@) by { assert("ListNames"@.len() != "RequestName"@.len()); }
    assert("ListNames"@ != "ReleaseName"@) by { assert("ListNames"@.len() != "ReleaseName"@.len()); }
    assert("ListActivatableNames"@ != "Hello"@) by { assert("ListActivatableNames"@.len() != "Hello"@.len()); }
    assert("ListActivatableNames"@ != "RequestName"@) by { assert("ListActivatableNames"@.len() != "RequestName"@.len()); }
    assert("ListActivatableNames"@ != "ReleaseName"@) by { assert("ListActivatableNames"@.len() != "ReleaseName"@.len()); }
    assert("ListActivatableNames"@ != "ListNames"@) by { assert("ListActivatableNames"@.len() != "ListNames"@.len()); }
    assert("GetNameOwner"@ != "Hello"@) by { assert("GetNameOwner"@.len() != "Hello"@.len()); }
    assert("GetNameOwner"@ != "RequestName"@) by { assert("GetNameOwner"@.len() != "RequestName"@.len()); }
    assert("GetNameOwner"@ != "ReleaseName"@) by { assert("GetNameOwner"@.len() != "ReleaseName"@.len()); }
    assert("GetNameOwner"@ != "ListNames"@) by { assert("GetNameOwner"@.len() != "ListNames"@.len()); }
    assert("GetNameOwner"@ != "ListActivatableNames"@) by { assert("GetNameOwner"@.len() != "ListActivatableNames"@.len()); }
    assert("NameHasOwner"@ != "Hello"@) by { assert("NameHasOwner"@.len() != "Hello"@.len()); }
    assert("NameHasOwner"@ != "RequestName"@) by { assert("NameHasOwner"@.len() != "RequestName"@.len()); }
    assert("NameHasOwner"@ != "ReleaseName"@) by { assert("NameHasOwner"@.len() != "ReleaseName"@.len()); }
    assert("NameHasOwner"@ != "ListNames"@) by { assert("NameHasOwner"@.len() != "ListNames"@.len()); }
    assert("NameHasOwner"@ != "ListActivatableNames"@) by { assert("NameHasOwner"@.len() != "ListActivatableNames"@.len()); }
    assert("NameHasOwner"@ != "GetNameOwner"@) by { assert("NameHasOwner"@[0] != "GetNameOwner"@[0]); }
    assert("GetId"@ != "Hello"@) by { assert("GetId"@[0] != "Hello"@[0]); }
    assert("GetId"@ != "RequestName"@) by { assert("GetId"@.len() != "RequestName"@.len()); }
    assert("GetId"@ != "ReleaseName"@) by { assert("GetId"@.len() != "ReleaseName"@.len()); }
    assert("GetId"@ != "ListNames"@) by { assert("GetId"@.len() != "ListNames"@.len()); }
    assert("GetId"@ != "ListActivatableNames"@) by { assert("GetId"@.len() != "ListActivatableNames"@.len()); }
    assert("GetId"@ != "GetNameOwner"@) by { assert("GetId"@.len() != "GetNameOwner"@.len()); }
    assert("GetId"@ != "NameHasOwner"@) by { assert("GetId"@.len() != "NameHasOwner"@.len()); }
    assert("Ping"@ != "Hello"@) by { assert("Ping"@.len() != "Hello"@.len()); }
    assert("Ping"@ != "RequestName"@) by { assert("Ping"@.len() != "RequestName"@.len()); }
    assert("Ping"@ != "ReleaseName"@) by { assert("Ping"@.len() != "ReleaseName"@.len()); }
    assert("Ping"@ != "ListNames"@) by { assert("Ping"@.len() != "ListNames"@.len()); }
    assert("Ping"@ != "ListActivatableNames"@) by { assert("Ping"@.len() != "ListActivatableNames"@.len()); }
    assert("Ping"@ != "GetNameOwner"@) by { assert("Ping"@.len() != "GetNameOwner"@.len()); }
    assert("Ping"@ != "NameHasOwner"@) by { assert("Ping"@.len() != "NameHasOwner"@.len()); }
    assert("Ping"@ != "GetId"@) by { assert("Ping"@.len() != "GetId"@.len()); }
    assert("GetMachineId"@ != "Hello"@) by { assert("GetMachineId"@.len() != "Hello"@.len()); }
    assert("GetMachineId"@ != "RequestName"@) by { assert("GetMachineId"@.len() != "RequestName"@.len()); }
    assert("GetMachineId"@ != "ReleaseName"@) by { assert("GetMachineId"@.len() != "ReleaseName"@.len()); }
    assert("GetMachineId"@ != "ListNames"@) by { assert("GetMachineId"@.len() != "ListNames"@.len()); }
    assert("GetMachineId"@ != "ListActivatableNames"@) by { assert("GetMachineId"@.len() != "ListActivatableNames"@.len()); }
    assert("GetMachineId"@ != "GetNameOwner"@) by { assert("GetMachineId"@[3] != "GetNameOwner"@[3]); }
    assert("GetMachineId"@ != "NameHasOwner"@) by { assert("GetMachineId"@[0] != "NameHasOwner"@[0]); }
    assert("GetMachineId"@ != "GetId"@) by { assert("GetMachineId"@.len() != "GetId"@.len()); }
    assert("GetMachineId"@ != "Ping"@) by { assert("GetMachineId"@.len() != "Ping"@.len()); }
    assert("GetConnectionUnixUser"@ != "Hello"@) by { assert("GetConnectionUnixUser"@.len() != "Hello"@.len()); }
    assert("GetConnectionUnixUser"@ != "RequestName"@) by { assert("GetConnectionUnixUser"@.len() != "RequestName"@.len()); }
    assert("GetConnectionUnixUser"@ != "ReleaseName"@) by { assert("GetConnectionUnixUser"@.len() != "ReleaseName"@.len()); }
    assert("GetConnectionUnixUser"@ != "ListNames"@) by { assert("GetConnectionUnixUser"@.len() != "ListNames"@.len()); }
    assert("GetConnectionUnixUser"@ != "ListActivatableNames"@) by { assert("GetConnectionUnixUser"@.len() != "ListActivatableNames"@.len()); }
    assert("GetConnectionUnixUser"@ != "GetNameOwner"@) by { assert("GetConnectionUnixUser"@.len() != "GetNameOwner"@.len()); }
    assert("GetConnectionUnixUser"@ != "NameHasOwner"@) by { assert("GetConnectionUnixUser"@.len() != "NameHasOwner"@.len()); }
    assert("GetConnectionUnixUser"@ != "GetId"@) by { assert("GetConnectionUnixUser"@.len() != "GetId"@.len()); }
    assert("GetConnectionUnixUser"@ != "Ping"@) by { assert("GetConnectionUnixUser"@.len() != "Ping"@.len()); }
    assert("GetConnectionUnixUser"@ != "GetMachineId"@) by { assert("GetConnectionUnixUser"@.len() != "GetMachineId"@.len()); }
    assert("GetConnectionUnixProcessID"@ != "Hello"@) by { assert("GetConnectionUnixProcessID"@.len() != "Hello"@.len()); }
    assert("GetConnectionUnixProcessID"@ != "RequestName"@) by { assert("GetConnectionUnixProcessID"@.len() != "RequestName"@.len()); }
    assert("GetConnectionUnixProcessID"@ != "ReleaseName"@) by { assert("GetConnectionUnixProcessID"@.len() != "ReleaseName"@.len()); }
    assert("GetConnectionUnixProcessID"@ != "ListNames"@) by { assert("GetConnectionUnixProcessID"@.len() != "ListNames"@.len()); }
    assert("GetConnectionUnixProcessID"@ != "ListActivatableNames"@) by { assert("GetConnectionUnixProcessID"@.len() != "ListActivatableNames"@.len()); }
    assert("GetConnectionUnixProcessID"@ != "GetNameOwner"@) by { assert("GetConnectionUnixProcessID"@.len() != "GetNameOwner"@.len()); }
    assert("GetConnectionUnixProcessID"@ != "NameHasOwner"@) by { assert("GetConnectionUnixProcessID"@.len() != "NameHasOwner"@.len()); }
    assert("GetConnectionUnixProcessID"@ != "GetId"@) by { assert("GetConnectionUnixProcessID"@.len() != "GetId"@.len()); }
    assert("GetConnectionUnixProcessID"@ != "Ping"@) by { assert("GetConnectionUnixProcessID"@.len() != "Ping"@.len()); }
    assert("GetConnectionUnixProcessID"@ != "GetMachineId"@) by { assert("GetConnectionUnixProcessID"@.len() != "GetMachineId"@.len()); }
    assert("GetConnectionUnixProcessID"@ != "GetConnectionUnixUser"@) by { assert("GetConnectionUnixProcessID"@.len() != "GetConnectionUnixUser"@.len()); }
    assert("GetConnectionCredentials"@ != "Hello"@) by { assert("GetConnectionCredentials"@.len() != "Hello"@.len()); }
    assert("GetConnectionCredentials"@ != "RequestName"@) by { assert("GetConnectionCredentials"@.len() != "RequestName"@.len()); }
    assert("GetConnectionCredentials"@ != "ReleaseName"@) by { assert("GetConnectionCredentials"@.len() != "ReleaseName"@.len()); }
    assert("GetConnectionCredentials"@ != "ListNames"@) by { assert("GetConnectionCredentials"@.len() != "ListNames"@.len()); }
    assert("GetConnectionCredentials"@ != "ListActivatableNames"@) by { assert("GetConnectionCredentials"@.len() != "ListActivatableNames"@.len()); }
    assert("GetConnectionCredentials"@ != "GetNameOwner"@) by { assert("GetConnectionCredentials"@.len() != "GetNameOwner"@.len()); }
    assert("GetConnectionCredentials"@ != "NameHasOwner"@) by { assert("GetConnectionCredentials"@.len() != "NameHasOwner"@.len()); }
    assert("GetConnectionCredentials"@ != "GetId"@) by { assert("GetConnectionCredentials"@.len() != "GetId"@.len()); }
    assert("GetConnectionCredentials"@ != "Ping"@) by { assert("GetConnectionCredentials"@.len() != "Ping"@.len()); }
    assert("GetConnectionCredentials"@ != "GetMachineId"@) by { assert("GetConnectionCredentials"@.len() != "GetMachineId"@.len()); }
    assert("GetConnectionCredentials"@ != "GetConnectionUnixUser"@) by { assert("GetConnectionCredentials"@.len() != "GetConnectionUnixUser"@.len()); }
    assert("GetConnectionCredentials"@ != "GetConnectionUnixProcessID"@) by { assert("GetConnectionCredentials"@.len() != "GetConnectionUnixProcessID"@.len()); }
    assert("ListQueuedOwners"@ != "Hello"@) by { assert("ListQueuedOwners"@.len() != "Hello"@.len()); }
    assert("ListQueuedOwners"@ != "RequestName"@) by { assert("ListQueuedOwners"@.len() != "RequestName"@.len()); }
    assert("ListQueuedOwners"@ != "ReleaseName"@) by { assert("ListQueuedOwners"@.len() != "ReleaseName"@.len()); }
    assert("ListQueuedOwners"@ != "ListNames"@) by { assert("ListQueuedOwners"@.len() != "ListNames"@.len()); }
    assert("ListQueuedOwners"@ != "ListActivatableNames"@) by { assert("ListQueuedOwners"@.len() != "ListActivatableNames"@.len()); }
    assert("ListQueuedOwners"@ != "GetNameOwner"@) by { assert("ListQueuedOwners"@.len() != "GetNameOwner"@.len()); }
    assert("ListQueuedOwners"@ != "NameHasOwner"@) by { assert("ListQueuedOwners"@.len() != "NameHasOwner"@.len()); }
    assert("ListQueuedOwners"@ != "GetId"@) by { assert("ListQueuedOwners"@.len() != "GetId"@.len()); }
    assert("ListQueuedOwners"@ != "Ping"@) by { assert("ListQueuedOwners"@.len() != "Ping"@.len()); }
    assert("ListQueuedOwners"@ != "GetMachineId"@) by { assert("ListQueuedOwners"@.len() != "GetMachineId"@.len()); }
    assert("ListQueuedOwners"@ != "GetConnectionUnixUser"@) by { assert("ListQueuedOwners"@.len() != "GetConnectionUnixUser"@.len()); }
    assert("ListQueuedOwners"@ != "GetConnectionUnixProcessID"@) by { assert("ListQueuedOwners"@.len() != "GetConnectionUnixProcessID"@.len()); }
    assert("ListQueuedOwners"@ != "GetConnectionCredentials"@) by { assert("ListQueuedOwners"@.len() != "GetConnectionCredentials"@.len()); }
    assert("AddMatch"@ != "Hello"@) by { assert("AddMatch"@.len() != "Hello"@.len()); }
    assert("AddMatch"@ != "RequestName"@) by { assert("AddMatch"@.len() != "RequestName"@.len()); }
    assert("AddMatch"@ != "ReleaseName"@) by { assert("AddMatch"@.len() != "ReleaseName"@.len()); }
    assert("AddMatch"@ != "ListNames"@) by { assert("AddMatch"@.len() != "ListNames"@.len()); }
    assert("AddMatch"@ != "ListActivatableNames"@) by { assert("AddMatch"@.len() != "ListActivatableNames"@.len()); }
    assert("AddMatch"@ != "GetNameOwner"@) by { assert("AddMatch"@.len() != "GetNameOwner"@.len()); }
    assert("AddMatch"@ != "NameHasOwner"@) by { assert("AddMatch"@.len() != "NameHasOwner"@.len()); }
    assert("AddMatch"@ != "GetId"@) by { assert("AddMatch"@.len() != "GetId"@.len()); }
    assert("AddMatch"@ != "Ping"@) by { assert("AddMatch"@.len() != "Ping"@.len()); }
    assert("AddMatch"@ != "GetMachineId"@) by { assert("AddMatch"@.len() != "GetMachineId"@.len()); }
    assert("AddMatch"@ != "GetConnectionUnixUser"@) by { assert("AddMatch"@.len() != "GetConnectionUnixUser"@.len()); }
    assert("AddMatch"@ != "GetConnectionUnixProcessID"@) by { assert("AddMatch"@.len() != "GetConnectionUnixProcessID"@.len()); }
    assert("AddMatch"@ != "GetConnectionCredentials"@) by { assert("AddMatch"@.len() != "GetConnectionCredentials"@.len()); }
    assert("AddMatch"@ != "ListQueuedOwners"@) by { assert("AddMatch"@.len() != "ListQueuedOwners"@.len()); }
    assert("RemoveMatch"@ != "Hello"@) by { assert("RemoveMatch"@.len() != "Hello"@.len()); }
    assert("RemoveMatch"@ != "RequestName"@) by { assert("RemoveMatch"@[2] != "RequestName"@[2]); }
    assert("RemoveMatch"@ != "ReleaseName"@) by { assert("RemoveMatch"@[2] != "ReleaseName"@[2]); }
    assert("RemoveMatch"@ != "ListNames"@) by { assert("RemoveMatch"@.len() != "ListNames"@.len()); }
    assert("RemoveMatch"@ != "ListActivatableNames"@) by { assert("RemoveMatch"@.len() != "ListActivatableNames"@.len()); }
    assert("RemoveMatch"@ != "GetNameOwner"@) by { assert("RemoveMatch"@.len() != "GetNameOwner"@.len()); }
    assert("RemoveMatch"@ != "NameHasOwner"@) by { assert("RemoveMatch"@.len() != "NameHasOwner"@.len()); }
    assert("RemoveMatch"@ != "GetId"@) by { assert("RemoveMatch"@.len() != "GetId"@.len()); }
    assert("RemoveMatch"@ != "Ping"@) by { assert("RemoveMatch"@.len() != "Ping"@.len()); }
    assert("RemoveMatch"@ != "GetMachineId"@) by { assert("RemoveMatch"@.len() != "GetMachineId"@.len()); }
    assert("RemoveMatch"@ != "GetConnectionUnixUser"@) by { assert("RemoveMatch"@.len() != "GetConnectionUnixUser"@.len()); }
    assert("RemoveMatch"@ != "GetConnectionUnixProcessID"@) by { assert("RemoveMatch"@.len() != "GetConnectionUnixProcessID"@.len()); }
    assert("RemoveMatch"@ != "GetConnectionCredentials"@) by { assert("RemoveMatch"@.len() != "GetConnectionCredentials"@.len()); }
    assert("RemoveMatch"@ != "ListQueuedOwners"@) by { assert("RemoveMatch"@.len() != "ListQueuedOwners"@.len()); }
    assert("RemoveMatch"@ != "AddMatch"@) by { assert("RemoveMatch"@.len() != "AddMatch"@.len()); }
    assert("Introspect"@ != "Hello"@) by { assert("Introspect"@.len() != "Hello"@.len()); }
    assert("Introspect"@ != "RequestName"@) by { assert("Introspect"@.len() != "RequestName"@.len()); }
    assert("Introspect"@ != "ReleaseName"@) by { assert("Introspect"@.len() != "ReleaseName"@.len()); }
    assert("Introspect"@ != "ListNames"@) by { assert("Introspect"@.len() != "ListNames"@.len()); }
    assert("Introspect"@ != "ListActivatableNames"@) by { assert("Introspect"@.len() != "ListActivatableNames"@.len()); }
    assert("Introspect"@ != "GetNameOwner"@) by { assert("Introspect"@.len() != "GetNameOwner"@.len()); }
    assert("Introspect"@ != "NameHasOwner"@) by { assert("Introspect"@.len() != "NameHasOwner"@.len()); }
    assert("Introspect"@ != "GetId"@) by { assert("Introspect"@.len() != "GetId"@.len()); }
    assert("Introspect"@ != "Ping"@) by { assert("Introspect"@.len() != "Ping"@.len()); }
    assert("Introspect"@ != "GetMachineId"@) by { assert("Introspect"@.len() != "GetMachineId"@.len()); }
    assert("Introspect"@ != "GetConnectionUnixUser"@) by { assert("Introspect"@.len() != "GetConnectionUnixUser"@.len()); }
    assert("Introspect"@ != "GetConnectionUnixProcessID"@) by { assert("Introspect"@.len() != "GetConnectionUnixProcessID"@.len()); }
    assert("Introspect"@ != "GetConnectionCredentials"@) by { assert("Introspect"@.len() != "GetConnectionCredentials"@.len()); }
    assert("Introspect"@ != "ListQueuedOwners"@) by { assert("Introspect"@.len() != "ListQueuedOwners"@.len()); }
    assert("Introspect"@ != "AddMatch"@) by { assert("Introspect"@.len() != "AddMatch"@.len()); }
    assert("Introspect"@ != "RemoveMatch"@) by { assert("Introspect"@.len() != "RemoveMatch"@.len()); }
    assert("GetAll"@ != "Hello"@) by { assert("GetAll"@.len() != "Hello"@.len()); }
    assert("GetAll"@ != "RequestName"@) by { assert("GetAll"@.len() != "RequestName"@.len()); }
    assert("GetAll"@ != "ReleaseName"@) by { assert("GetAll"@.len() != "ReleaseName"@.len()); }
    assert("GetAll"@ != "ListNames"@) by { assert("GetAll"@.len() != "ListNames"@.len()); }
    assert("GetAll"@ != "ListActivatableNames"@) by { assert("GetAll"@.len() != "ListActivatableNames"@.len()); }
    assert("GetAll"@ != "GetNameOwner"@) by { assert("GetAll"@.len() != "GetNameOwner"@.len()); }
    assert("GetAll"@ != "NameHasOwner"@) by { assert("GetAll"@.len() != "NameHasOwner"@.len()); }
    assert("GetAll"@ != "GetId"@) by { assert("GetAll"@.len() != "GetId"@.len()); }
    assert("GetAll"@ != "Ping"@) by { assert("GetAll"@.len() != "Ping"@.len()); }
    assert("GetAll"@ != "GetMachineId"@) by { assert("GetAll"@.len() != "GetMachineId"@.len()); }
    assert("GetAll"@ != "GetConnectionUnixUser"@) by { assert("GetAll"@.len() != "GetConnectionUnixUser"@.len()); }
    assert("GetAll"@ != "GetConnectionUnixProcessID"@) by { assert("GetAll"@.len() != "GetConnectionUnixProcessID"@.len()); }
    assert("GetAll"@ != "GetConnectionCredentials"@) by { assert("GetAll"@.len() != "GetConnectionCredentials"@.len()); }
    assert("GetAll"@ != "ListQueuedOwners"@) by { assert("GetAll"@.len() != "ListQueuedOwners"@.len()); }
    assert("GetAll"@ != "AddMatch"@) by { assert("GetAll"@.len() != "AddMatch"@.len()); }
    assert("GetAll"@ != "RemoveMatch"@) by { assert("GetAll"@.len() != "RemoveMatch"@.len()); }
    assert("GetAll"@ != "Introspect"@) by { assert("GetAll"@.len() != "Introspect"@.len()); }
}

proof fn lemma_member_dispatch(d: DaemonMethod)
    ensures
        d != DaemonMethod::Unknown ==> spec_daemon_method(method_member(d)) == d,
{
    lemma_members_distinct();
}

/// Each bus method that the multiplexer answers itself is dispatched by its
/// own member name to its own variant, and `Unknown` is given exactly for
/// the member names of no such method.
pub proof fn law_daemon_method_dispatch(d: DaemonMethod, m: Seq<char>)
    ensures
        d != DaemonMethod::Unknown ==> spec_daemon_method(method_member(d)) == d,
        spec_daemon_method(m) == DaemonMethod::Unknown <==> (forall|e: DaemonMethod| e != DaemonMethod::Unknown ==> m != #[trigger] method_member(e)),
{
    lemma_member_dispatch(d);
    assert forall|e: DaemonMethod| e != DaemonMethod::Unknown && spec_daemon_method(m) == DaemonMethod::Unknown
        implies m != #[trigger] method_member(e) by {
        lemma_member_dispatch(e);
    }
    if forall|e: DaemonMethod| e != DaemonMethod::Unknown ==> m != #[trigger] method_member(e) {
        assert(m != method_member(DaemonMethod::Hello));
        assert(m != method_member(DaemonMethod::RequestName));
        assert(m != method_member(DaemonMethod::ReleaseName));
        assert(m != method_member(DaemonMethod::ListNames));
        assert(m != method_member(DaemonMethod::ListActivatableNames));
        assert(m != method_member(DaemonMethod::GetNameOwner));
        assert(m != method_member(DaemonMethod::NameHasOwner));
        assert(m != method_member(DaemonMethod::GetId));
        assert(m != method_member(DaemonMethod::Ping));
        assert(m != method_member(DaemonMethod::GetMachineId));
        assert(m != method_member(DaemonMethod::GetConnectionUnixUser));
        assert(m != method_member(DaemonMethod::GetConnectionUnixProcessID));
        assert(m != method_member(DaemonMethod::GetConnectionCredentials));
        assert(m != method_member(DaemonMethod::ListQueuedOwners));
        assert(m != method_member(DaemonMethod::AddMatch));
        assert(m != method_member(DaemonMethod::RemoveMatch));
        assert(m != method_member(DaemonMethod::Introspect));
        assert(m != method_member(DaemonMethod::GetAll));
    }
}

/// The bus method named `member`.
pub fn daemon_method(member: &str) -> (r: DaemonMethod)
    ensures
        r == spec_daemon_method(member@),
{
    if str_eq(member, "Hello") { DaemonMethod::Hello }
    else if str_eq(member, "RequestName") { DaemonMethod::RequestName }
    else if str_eq(member, "ReleaseName") { DaemonMethod::ReleaseName }
    else if str_eq(member, "ListNames") { DaemonMethod::ListNames }
    else if str_eq(member, "ListActivatableNames") { DaemonMethod::ListActivatableNames }
    else if str_eq(member, "GetNameOwner") { DaemonMethod::GetNameOwner }
    else if str_eq(member, "NameHasOwner") { DaemonMethod::NameHasOwner }
    else if str_eq(member, "GetId") { DaemonMethod::GetId }
    else if str_eq(member, "Ping") { DaemonMethod::Ping }
    else if str_eq(member, "GetMachineId") { DaemonMethod::GetMachineId }
    else if str_eq(member, "GetConnectionUnixUser") { DaemonMethod::GetConnectionUnixUser }
    else if str_eq(member, "GetConnectionUnixProcessID") { DaemonMethod::GetConnectionUnixProcessID }
    else if str_eq(member, "GetConnectionCredentials") { DaemonMethod::GetConnectionCredentials }
    else if str_eq(member, "ListQueuedOwners") { DaemonMethod::ListQueuedOwners }
    else if str_eq(member, "AddMatch") { DaemonMethod::AddMatch }
    else if str_eq(member, "RemoveMatch") { DaemonMethod::RemoveMatch }
    else if str_eq(member, "Introspect") { DaemonMethod::Introspect }
    else if str_eq(member, "GetAll") { DaemonMethod::GetAll }
    else { DaemonMethod::Unknown }
}

/// What to do with a message from a client.
#[derive(Debug, Clone, Copy, PartialEq, Eq, Structural)]
pub enum ClientAction {
    /// A method call to the bus itself: answer it.
    Daemon(DaemonMethod),
    /// A method call to another peer: forward it to this bus.
    Forward(Route),
    /// Anything else is not passed on.
    Ignore,
}

/// The text of an optional header field, empty when absent.
pub open spec fn text_or_empty(o: Option<Seq<char>>) -> Seq<char> {
    match o {
        Some(t) => t,
        None => Seq::empty(),
    }
}

/// What to do with a message `m` from a client, under routing state `t`.
pub open spec fn spec_client_action(t: RoutingState, m: MessageModel) -> ClientAction {
    if m.msg_type != MessageType::MethodCall {
        ClientAction::Ignore
    } else if spec_is_daemon_call(m) {
        ClientAction::Daemon(spec_daemon_method(text_or_empty(m.member)))
    } else {
        ClientAction::Forward(spec_route_for(t, text_or_empty(m.destination)))
    }
}

/// What a message from one of the buses is.
#[derive(Debug, Clone, Copy, PartialEq, Eq, Structural)]
pub enum BusMessageKind {
    /// The bus's NameOwnerChanged signal: update the routing table.
    NameOwnerChanged,
    /// A method return or an error: a reply to correlate.
    Reply,
    /// Another signal: deliver it to the clients whose rules accept it.
    Signal,
    /// A method call: not handled.
    Other,
}

/// What a message `m` from one of the buses is.
pub open spec fn spec_bus_message_kind(m: MessageModel) -> BusMessageKind {
    if spec_is_name_owner_changed(m) {
        BusMessageKind::NameOwnerChanged
    } else if m.msg_type == MessageType::MethodReturn || m.msg_type == MessageType::Error {
        BusMessageKind::Reply
    } else if m.msg_type == MessageType::Signal {
        BusMessageKind::Signal
    } else {
        BusMessageKind::Other
    }
}

/// What a message from one of the buses is.
pub fn bus_message_kind(fields: &MessageFields) -> (r: BusMessageKind)
    ensures
        r == spec_bus_message_kind(fields@),
{
    if fields.is_name_owner_changed() {
        BusMessageKind::NameOwnerChanged
    } else if fields.msg_type == MessageType::MethodReturn || fields.msg_type == MessageType::Error {
        BusMessageKind::Reply
    } else if fields.msg_type == MessageType::Signal {
        BusMessageKind::Signal
    } else {
        BusMessageKind::Other
    }
}

/// An error to answer a method call with: its D-Bus error name and text.
pub struct ErrorReply {
    pub name: String,
    pub message: String,
}

/// `a`, then `b`, then `c`.
fn concat3(a: &str, b: &str, c: &str) -> (r: String)
    ensures
        r@ == a@ + b@ + c@,
{
    let ab = concat(a, b);
    concat(ab.as_str(), c)
}

/// Whether `e` is the error named `name` with text `a + subject + b`.
pub open spec fn error_is(e: ErrorReply, name: Seq<char>, a: Seq<char>, subject: Seq<char>, b: Seq<char>) -> bool {
    e.name@ == name && e.message@ == a + subject + b
}

/// The routing state after client `c` went away: the names it owned leave
/// the container's set, and its unique name is forgotten if it owned any.
pub open spec fn routing_after_disconnect(t: RoutingState, c: ClientModel) -> RoutingState {
    RoutingState {
        container: t.container.difference(c.owned),
        unique: if c.owned.is_empty() || c.unique_name.len() == 0 { t.unique } else { t.unique.remove(c.unique_name) },
        ..t
    }
}

/// Whether a RequestName reply code grants the name.
pub open spec fn grants_name(code: u32) -> bool {
    code == PRIMARY_OWNER || code == ALREADY_OWNER
}

/// Of the four RequestName replies, only "primary owner" (1) and "already
/// owner" (4) grant the name; a client that was queued (2) or refused
/// because the name exists (3) gains nothing, and no other code grants it.
pub proof fn law_only_ownership_grants(code: u32)
    ensures
        code == 2 ==> !grants_name(code),
        code == 3 ==> !grants_name(code),
        grants_name(code) ==> (code == 1 || code == 4),
        grants_name(1),
        grants_name(4),
{
}

/// The multiplexer's state: where names live, and who its clients are.
pub struct MuxState {
    pub routing: RoutingTable,
    pub clients: ClientRegistry,
}

impl MuxState {
    pub open spec fn wf(&self) -> bool {
        self.routing.wf() && self.clients.wf()
    }

    /// No names known, no clients.
    pub fn new() -> (r: Self)
        ensures
            r.wf(),
            r.clients@ == Map::<ClientId, ClientModel>::empty(),
            r.routing@.container.is_empty(),
            r.routing@.host.is_empty(),
            r.routing@.activatable.is_empty(),
            r.routing@.unique.is_empty(),
    {
        MuxState { routing: RoutingTable::new(), clients: ClientRegistry::new() }
    }

    /// What to do with a message from a client: bus methods are answered,
    /// other method calls are forwarded to the bus that owns the
    /// destination, and anything else is not passed on.
    pub fn client_action(&self, fields: &MessageFields) -> (r: ClientAction)
        requires
            self.wf(),
        ensures
            r == spec_client_action(self.routing@, fields@),
    {
        if fields.msg_type != MessageType::MethodCall {
            return ClientAction::Ignore;
        }
        proof {
            reveal_strlit("");
            assert(""@ =~= Seq::<char>::empty());
        }
        if fields.is_dbus_daemon_call() {
            let m = match &fields.member {
                Some(m) => daemon_method(m.as_str()),
                None => daemon_method(""),
            };
            ClientAction::Daemon(m)
        } else {
            let r = match &fields.destination {
                Some(d) => self.routing.route_for(d.as_str()),
                None => self.routing.route_for(""),
            };
            ClientAction::Forward(r)
        }
    }

    /// The container bus answered a RequestName of client `id` for `name`
    /// with `reply_code`. When the name was granted (primary owner or
    /// already owner) and the client is still connected, the name now
    /// routes to the container and the client is recorded as its owner.
    pub fn on_request_name_reply(&mut self, id: ClientId, name: &str, reply_code: u32)
        requires
            old(self).wf(),
        ensures
            final(self).wf(),
            (grants_name(reply_code) && old(self).clients@.contains_key(id)) ==> ({
                let u = old(self).clients@[id].unique_name;
                &&& final(self).routing@ == (RoutingState {
                    container: spec_owned_after_change(old(self).routing@.container, name@, u),
                    unique: spec_unique_after_change(old(self).routing@.unique, Seq::empty(), u, Route::Container),
                    ..old(self).routing@
                })
                &&& final(self).clients@ == old(self).clients@.insert(id, with_owned(old(self).clients@[id], name@))
            }),
            !(grants_name(reply_code) && old(self).clients@.contains_key(id)) ==> (final(self).routing@ == old(self).routing@
                && final(self).clients@ == old(self).clients@),
            (reply_code != 1 && reply_code != 4) ==> (final(self).routing@ == old(self).routing@
                && final(self).clients@ == old(self).clients@),
    {
        if reply_code == PRIMARY_OWNER || reply_code == ALREADY_OWNER {
            if let Some(u) = self.clients.unique_name_of(id) {
                proof {
                    reveal_strlit("");
                    assert(""@ =~= Seq::<char>::empty());
                }
                self.routing.on_container_name_change(name, "", u.as_str());
                self.clients.add_owned_name(id, name.to_owned());
            }
        }
    }

    /// The container bus answered a ReleaseName of client `id` for `name`
    /// with `reply_code`. When the name was released and the client is still
    /// connected, the name leaves the container's set, the client's unique
    /// name is forgotten, and the client no longer owns it.
    pub fn on_release_name_reply(&mut self, id: ClientId, name: &str, reply_code: u32)
        requires
            old(self).wf(),
        ensures
            final(self).wf(),
            (reply_code == RELEASED && old(self).clients@.contains_key(id)) ==> ({
                let u = old(self).clients@[id].unique_name;
                &&& final(self).routing@ == (RoutingState {
                    container: old(self).routing@.container.remove(name@),
                    unique: spec_unique_after_change(old(self).routing@.unique, u, Seq::empty(), Route::Container),
                    ..old(self).routing@
                })
                &&& final(self).clients@ == old(self).clients@.insert(id, without_owned(old(self).clients@[id], name@))
            }),
            !(reply_code == RELEASED && old(self).clients@.contains_key(id)) ==> (final(self).routing@ == old(self).routing@
                && final(self).clients@ == old(self).clients@),
    {
        if reply_code == RELEASED {
            if let Some(u) = self.clients.unique_name_of(id) {
                proof {
                    reveal_strlit("");
                    assert(""@ =~= Seq::<char>::empty());
                }
                self.routing.on_container_name_change(name, u.as_str(), "");
                let _ = self.clients.remove_owned_name(id, name);
            }
        }
    }

    /// Client `id` went away: it leaves the registry, and the names it
    /// owned leave the routing table. Returns those names, each once, to be
    /// released on the container bus.
    pub fn disconnect(&mut self, id: ClientId) -> (names: Vec<String>)
        requires
            old(self).wf(),
        ensures
            final(self).wf(),
            final(self).clients@ == old(self).clients@.remove(id),
            strings_view_seq(names@).no_duplicates(),
            old(self).clients@.contains_key(id) ==> ({
                &&& final(self).routing@ == routing_after_disconnect(old(self).routing@, old(self).clients@[id])
                &&& forall|k: Seq<char>| #![trigger strings_view_seq(names@).contains(k)]
                    strings_view_seq(names@).contains(k) <==> old(self).clients@[id].owned.contains(k)
            }),
            !old(self).clients@.contains_key(id) ==> final(self).routing@ == old(self).routing@ && names@.len() == 0,
    {
        let unique = self.clients.unique_name_of(id);
        let ghost c = old(self).clients@[id];
        let names = self.clients.unregister(id);
        let u = match unique {
            Some(u) => u,
            None => {
                proof {
                    if names@.len() > 0 {
                        assert(strings_view_seq(names@).contains(strings_view_seq(names@)[0]));
                    }
                }
                return names;
            },
        };
        let ghost t0 = self.routing@;
        let ghost nv = strings_view_seq(names@);
        assert(t0.container.difference(nv.take(0).to_set()) =~= t0.container);
        for i in 0..names.len()
            invariant
                self.routing.wf(),
                self.clients.wf(),
                self.clients@ == old(self).clients@.remove(id),
                nv == strings_view_seq(names@),
                u@ == c.unique_name,
                self.routing@ == (RoutingState {
                    container: t0.container.difference(nv.take(i as int).to_set()),
                    unique: if i == 0 || u@.len() == 0 { t0.unique } else { t0.unique.remove(u@) },
                    ..t0
                }),
        {
            let ghost before = self.routing@;
            proof {
                reveal_strlit("");
                assert(""@ =~= Seq::<char>::empty());
            }
            self.routing.on_container_name_change(names[i].as_str(), u.as_str(), "");
            proof {
                assert(nv.take(i + 1).to_set() =~= nv.take(i as int).to_set().insert(nv[i as int]));
                assert(self.routing@.container =~= t0.container.difference(nv.take(i + 1).to_set()));
                if u@.len() > 0 && i > 0 {
                    assert(self.routing@.unique =~= t0.unique.remove(u@));
                }
            }
        }
        proof {
            assert(nv.take(names@.len() as int) =~= nv);
            assert(nv.to_set() =~= c.owned);
            if c.owned.is_empty() {
                if names@.len() > 0 {
                    assert(c.owned.contains(nv[0]));
                }
            } else {
                if names@.len() == 0 {
                    let k = c.owned.choose();
                    assert(nv.contains(k));
                }
            }
        }
        names
    }
}


/// The credentials of a connection as GetConnectionCredentials lists them:
/// the user, the process when known, and the group.
pub open spec fn credential_entries(c: ClientCredentials) -> Seq<(Seq<char>, u32)> {
    let head = seq![("UnixUserID"@, c.uid)];
    let with_pid = match c.pid {
        Some(p) => head.push(("ProcessID"@, p)),
        None => head,
    };
    with_pid.push(("UnixGroupID"@, c.gid))
}

/// The texts and values of credential entries.
pub open spec fn entries_view(v: Seq<(String, u32)>) -> Seq<(Seq<char>, u32)> {
    v.map_values(|e: (String, u32)| (e.0@, e.1))
}

/// The credential entries of `c`.
fn credential_list(c: ClientCredentials) -> (r: Vec<(String, u32)>)
    ensures
        entries_view(r@) == credential_entries(c),
{
    let mut v: Vec<(String, u32)> = Vec::new();
    v.push(("UnixUserID".to_owned(), c.uid));
    if let Some(p) = c.pid {
        v.push(("ProcessID".to_owned(), p));
    }
    v.push(("UnixGroupID".to_owned(), c.gid));
    assert(entries_view(v@) =~= credential_entries(c));
    v
}

impl MuxState {
    /// GetConnectionUnixUser: the bus itself is root (0); a client named by
    /// its unique name or an owned name gives its UID; any other name is
    /// NameHasNoOwner.
    pub fn unix_user(&self, name: &str) -> (r: Result<u32, ErrorReply>)
        requires
            self.wf(),
        ensures
            name@ == bus_name() ==> (r matches Ok(u) && u == 0),
            name@ != bus_name() ==> match r {
                Ok(u) => exists|c: ClientCredentials| #[trigger] credentials_of(self.clients@, name@, c) && c.uid == u,
                Err(e) => !has_unique_name(self.clients@, name@) && !has_owner(self.clients@, name@)
                    && error_is(e, NAME_HAS_NO_OWNER@, "Could not get UID of name '"@, name@, "': no such name"@),
            },
    {
        if str_eq(name, DBUS_NAME) {
            return Ok(0);
        }
        match self.clients.find_client_credentials(name) {
            Some(c) => Ok(c.uid),
            None => Err(ErrorReply {
                name: NAME_HAS_NO_OWNER.to_owned(),
                message: concat3("Could not get UID of name '", name, "': no such name"),
            }),
        }
    }

    /// GetConnectionUnixProcessID: the bus itself is the multiplexer's
    /// process `own_pid`; a client gives its PID when known
    /// (UnixProcessIdUnknown when not); any other name is NameHasNoOwner.
    pub fn unix_process_id(&self, name: &str, own_pid: u32) -> (r: Result<u32, ErrorReply>)
        requires
            self.wf(),
        ensures
            name@ == bus_name() ==> (r matches Ok(p) && p == own_pid),
            name@ != bus_name() ==> match r {
                Ok(p) => exists|c: ClientCredentials| #[trigger] credentials_of(self.clients@, name@, c) && c.pid == Some(p),
                Err(e) => (exists|c: ClientCredentials| #[trigger] credentials_of(self.clients@, name@, c) && c.pid is None
                    && error_is(e, UNIX_PROCESS_ID_UNKNOWN@, "Could not get PID of name '"@, name@, "': not available"@))
                    || (!has_unique_name(self.clients@, name@) && !has_owner(self.clients@, name@)
                    && error_is(e, NAME_HAS_NO_OWNER@, "Could not get PID of name '"@, name@, "': no such name"@)),
            },
    {
        if str_eq(name, DBUS_NAME) {
            return Ok(own_pid);
        }
        match self.clients.find_client_credentials(name) {
            Some(c) => match c.pid {
                Some(p) => Ok(p),
                None => Err(ErrorReply {
                    name: UNIX_PROCESS_ID_UNKNOWN.to_owned(),
                    message: concat3("Could not get PID of name '", name, "': not available"),
                }),
            },
            None => Err(ErrorReply {
                name: NAME_HAS_NO_OWNER.to_owned(),
                message: concat3("Could not get PID of name '", name, "': no such name"),
            }),
        }
    }

    /// GetConnectionCredentials: the bus itself has the multiplexer's
    /// credentials `own`; a client gives its own; any other name is
    /// NameHasNoOwner. The entries are listed as `credential_entries`.
    pub fn connection_credentials(&self, name: &str, own: ClientCredentials) -> (r: Result<Vec<(String, u32)>, ErrorReply>)
        requires
            self.wf(),
        ensures
            name@ == bus_name() ==> (r matches Ok(v) && entries_view(v@) == credential_entries(own)),
            name@ != bus_name() ==> match r {
                Ok(v) => exists|c: ClientCredentials| #[trigger] credentials_of(self.clients@, name@, c)
                    && entries_view(v@) == credential_entries(c),
                Err(e) => !has_unique_name(self.clients@, name@) && !has_owner(self.clients@, name@)
                    && error_is(e, NAME_HAS_NO_OWNER@, "Could not get credentials of name '"@, name@, "': no such name"@),
            },
    {
        if str_eq(name, DBUS_NAME) {
            return Ok(credential_list(own));
        }
        match self.clients.find_client_credentials(name) {
            Some(c) => Ok(credential_list(c)),
            None => Err(ErrorReply {
                name: NAME_HAS_NO_OWNER.to_owned(),
                message: concat3("Could not get credentials of name '", name, "': no such name"),
            }),
        }
    }

    /// ListQueuedOwners: queues are not tracked, so a name that has an owner
    /// on either bus lists itself, and any other name lists nothing.
    pub fn list_queued_owners(&self, name: &str) -> (r: Vec<String>)
        requires
            self.wf(),
        ensures
            (self.routing@.container.contains(name@) || self.routing@.host.contains(name@))
                ==> r@.len() == 1 && r@[0]@ == name@,
            !(self.routing@.container.contains(name@) || self.routing@.host.contains(name@)) ==> r@.len() == 0,
    {
        let mut v: Vec<String> = Vec::new();
        if self.routing.get_name_owner_route(name).is_some() {
            v.push(name.to_owned());
        }
        v
    }

    /// The bus to ask for the owner of `name` (GetNameOwner): the container
    /// when it owns the name, the host otherwise.
    pub fn name_owner_bus(&self, name: &str) -> (r: Route)
        requires
            self.wf(),
        ensures
            r == (if self.routing@.container.contains(name@) { Route::Container } else { Route::Host }),
    {
        match self.routing.get_name_owner_route(name) {
            Some(Route::Container) => Route::Container,
            _ => Route::Host,
        }
    }

    /// AddMatch from client `id`: the rule is parsed and added to the
    /// client's rules; a rule that does not parse is MatchRuleInvalid, with
    /// the parse error's text.
    pub fn add_match(&mut self, id: ClientId, rule_string: &str) -> (r: Result<(), ErrorReply>)
        requires
            old(self).wf(),
        ensures
            final(self).wf(),
            final(self).routing@ == old(self).routing@,
            match r {
                Ok(()) => spec_parse(rule_string@) matches Ok(m)
                    && final(self).clients@ == update_client(old(self).clients@, id, with_rule(old(self).clients@[id], m)),
                Err(e) => spec_parse(rule_string@) matches Err(pe) && final(self).clients@ == old(self).clients@
                    && e.name@ == MATCH_RULE_INVALID@ && e.message@ == "Invalid match rule: "@ + spec_rule_error_text(pe),
            },
    {
        match MatchRule::parse(rule_string) {
            Ok(rule) => {
                self.clients.add_match_rule(id, rule);
                Ok(())
            },
            Err(e) => {
                let text = e.to_string();
                Err(ErrorReply { name: MATCH_RULE_INVALID.to_owned(), message: concat("Invalid match rule: ", text.as_str()) })
            },
        }
    }

    /// RemoveMatch from client `id`: the rule written `rule_string` leaves
    /// the client's rules; a rule the client does not have is
    /// MatchRuleNotFound.
    pub fn remove_match(&mut self, id: ClientId, rule_string: &str) -> (r: Result<(), ErrorReply>)
        requires
            old(self).wf(),
        ensures
            final(self).wf(),
            final(self).routing@ == old(self).routing@,
            final(self).clients@ == update_client(old(self).clients@, id, without_rule_of(old(self).clients@[id], rule_string@)),
            r is Ok <==> (old(self).clients@.contains_key(id) && has_rule(old(self).clients@[id].rules, rule_string@)),
            r matches Err(e) ==> e.name@ == MATCH_RULE_NOT_FOUND@ && e.message@ == "Match rule not found"@,
    {
        if self.clients.remove_match_rule(id, rule_string) {
            Ok(())
        } else {
            Err(ErrorReply { name: MATCH_RULE_NOT_FOUND.to_owned(), message: "Match rule not found".to_owned() })
        }
    }

    /// A NameOwnerChanged signal from the bus `route`: the routing table
    /// follows it.
    pub fn apply_name_owner_changed(&mut self, route: Route, name: &str, old_owner: &str, new_owner: &str)
        requires
            old(self).wf(),
        ensures
            final(self).wf(),
            final(self).clients@ == old(self).clients@,
            route == Route::Container ==> final(self).routing@ == (RoutingState {
                container: spec_owned_after_change(old(self).routing@.container, name@, new_owner@),
                unique: spec_unique_after_change(old(self).routing@.unique, old_owner@, new_owner@, Route::Container),
                ..old(self).routing@
            }),
            route == Route::Host ==> final(self).routing@ == (RoutingState {
                host: spec_owned_after_change(old(self).routing@.host, name@, new_owner@),
                unique: spec_unique_after_change(old(self).routing@.unique, old_owner@, new_owner@, Route::Host),
                ..old(self).routing@
            }),
    {
        match route {
            Route::Container => self.routing.on_container_name_change(name, old_owner, new_owner),
            Route::Host => self.routing.on_host_name_change(name, old_owner, new_owner),
        }
    }
}


/// After the container bus granted a well-known name to a connected client,
/// messages to the name go to the container and the client is its recorded
/// owner; after the client released it, messages to it go to the host and
/// the client no longer owns it.
pub proof fn lemma_request_release_routing(t: RoutingState, c: ClientModel, name: Seq<char>)
    requires
        !is_unique_name(name),
        c.unique_name.len() > 0,
    ensures
        ({
            let t2 = RoutingState {
                container: spec_owned_after_change(t.container, name, c.unique_name),
                unique: spec_unique_after_change(t.unique, Seq::empty(), c.unique_name, Route::Container),
                ..t
            };
            let t3 = RoutingState {
                container: t2.container.remove(name),
                unique: spec_unique_after_change(t2.unique, c.unique_name, Seq::empty(), Route::Container),
                ..t2
            };
            &&& spec_route_for(t2, name) == Route::Container
            &&& with_owned(c, name).owned.contains(name)
            &&& spec_route_for(t3, name) == Route::Host
            &&& !without_owned(with_owned(c, name), name).owned.contains(name)
        }),
{
}

/// After a client goes away, none of the names it owned routes to the
/// container any more.
pub proof fn lemma_disconnect_releases_names(t: RoutingState, c: ClientModel, name: Seq<char>)
    requires
        !is_unique_name(name),
        c.owned.contains(name),
    ensures
        !routing_after_disconnect(t, c).container.contains(name),
        spec_route_for(routing_after_disconnect(t, c), name) == Route::Host,
{
}

/// When clients have distinct unique names, asking for the credentials of
/// a client's unique name gives that client's credentials.
pub proof fn lemma_unique_name_credentials(m: Map<ClientId, ClientModel>, id: ClientId, c: ClientCredentials)
    requires
        m.contains_key(id),
        forall|a: ClientId, b: ClientId| #[trigger] m.contains_key(a) && #[trigger] m.contains_key(b) && a != b
            ==> m[a].unique_name != m[b].unique_name,
        credentials_of(m, m[id].unique_name, c),
    ensures
        c == m[id].credentials,
{
    assert(has_unique_name(m, m[id].unique_name));
    let other = choose|x: ClientId| #[trigger] m.contains_key(x) && m[x].unique_name == m[id].unique_name && m[x].credentials == c;
    if other != id {
        assert(m[other].unique_name != m[id].unique_name);
    }
}

/// A signal reaches a client once it added a rule that accepts it (rules
/// are parsed from their text, so a rule written alike is the same rule),
/// and a client with no rules receives nothing.
pub proof fn lemma_signal_delivery(c: ClientModel, rule: RuleModel, m: MessageModel)
    requires
        spec_matches(rule, m),
        spec_parse(rule.rule_string) == Ok::<RuleModel, RuleErrorModel>(rule),
        forall|i: int| 0 <= i < c.rules.len() ==> spec_parse(#[trigger] c.rules[i].rule_string) == Ok::<RuleModel, RuleErrorModel>(c.rules[i]),
    ensures
        any_rule_matches(with_rule(c, rule).rules, m),
        !any_rule_matches(Seq::<RuleModel>::empty(), m),
{
    let rs = with_rule(c, rule).rules;
    if has_rule(c.rules, rule.rule_string) {
        let i = choose|i: int| 0 <= i < c.rules.len() && c.rules[i].rule_string == rule.rule_string;
        assert(spec_parse(c.rules[i].rule_string) == Ok::<RuleModel, RuleErrorModel>(c.rules[i]));
        assert(c.rules[i] == rule);
        assert(spec_matches(rs[i], m));
    } else {
        assert(rs[c.rules.len() as int] == rule);
    }
}


/// The introspection data of the bus itself (org.freedesktop.DBus, Peer and
/// Introspectable).
pub const INTROSPECT_XML: &'static str = r#"<!DOCTYPE node PUBLIC "-//freedesktop//DTD D-BUS Object Introspection 1.0//EN"
"http://www.freedesktop.org/standards/dbus/1.0/introspect.dtd">
<node>
  <interface name="org.freedesktop.DBus">
    <method name="Hello">
      <arg direction="out" type="s"/>
    </method>
    <method name="RequestName">
      <arg direction="in" type="s"/>
      <arg direction="in" type="u"/>
      <arg direction="out" type="u"/>
    </method>
    <method name="ReleaseName">
      <arg direction="in" type="s"/>
      <arg direction="out" type="u"/>
    </method>
    <method name="ListNames">
      <arg direction="out" type="as"/>
    </method>
    <method name="ListActivatableNames">
      <arg direction="out" type="as"/>
    </method>
    <method name="GetNameOwner">
      <arg direction="in" type="s"/>
      <arg direction="out" type="s"/>
    </method>
    <method name="NameHasOwner">
      <arg direction="in" type="s"/>
      <arg direction="out" type="b"/>
    </method>
    <method name="GetId">
      <arg direction="out" type="s"/>
    </method>
    <method name="GetConnectionUnixUser">
      <arg direction="in" type="s"/>
      <arg direction="out" type="u"/>
    </method>
    <method name="GetConnectionCredentials">
      <arg direction="in" type="s"/>
      <arg direction="out" type="a{sv}"/>
    </method>
    <method name="ListQueuedOwners">
      <arg direction="in" type="s"/>
      <arg direction="out" type="as"/>
    </method>
    <method name="AddMatch">
      <arg direction="in" type="s"/>
    </method>
    <method name="RemoveMatch">
      <arg direction="in" type="s"/>
    </method>
    <signal name="NameOwnerChanged">
      <arg type="s"/>
      <arg type="s"/>
      <arg type="s"/>
    </signal>
    <signal name="NameAcquired">
      <arg type="s"/>
    </signal>
    <signal name="NameLost">
      <arg type="s"/>
    </signal>
  </interface>
  <interface name="org.freedesktop.DBus.Peer">
    <method name="Ping"/>
    <method name="GetMachineId">
      <arg direction="out" type="s"/>
    </method>
  </interface>
  <interface name="org.freedesktop.DBus.Introspectable">
    <method name="Introspect">
      <arg direction="out" type="s"/>
    </method>
  </interface>
</node>"#;

/// The machine id reported when the machine-id file cannot be read.
pub const DEFAULT_MACHINE_ID: &'static str = "00000000000000000000000000000000";

/// GetMachineId: the contents of the machine-id file with white space cut
/// off, or 32 zeros when the file could not be read.
pub fn machine_id(contents: Option<String>) -> (r: String)
    ensures
        r@ == trim(match contents {
            Some(c) => c@,
            None => DEFAULT_MACHINE_ID@,
        }),
{
    match contents {
        Some(c) => trim_str(c.as_str()),
        None => trim_str(DEFAULT_MACHINE_ID),
    }
}

} // verus!
