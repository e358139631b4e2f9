//! Routing table for D-Bus message routing.
//!
//! The routing table decides whether a message goes to the container's
//! internal bus or to the host session bus. Container services always take
//! priority over host services with the same name.

use vstd::prelude::*;
use vstd::string::StrSliceExecFns;

use crate::names::{NameMap, NameSet};

verus! {

/// The target bus for a message.
#[derive(Debug, Clone, Copy, PartialEq, Eq, Hash, Structural)]
pub enum Route {
    /// Route to the container's internal D-Bus.
    Container,
    /// Route to the host session bus.
    Host,
}

impl Route {
    /// The route's name, as it is displayed.
    pub fn to_string(&self) -> (r: String)
        ensures
            r@ == (match self {
                Route::Container => "Container"@,
                Route::Host => "Host"@,
            }),
    {
        match self {
            Route::Container => "Container".to_owned(),
            Route::Host => "Host".to_owned(),
        }
    }
}

/// Whether `name` is a unique connection name (it starts with ':').
pub open spec fn is_unique_name(name: Seq<char>) -> bool {
    name.len() > 0 && name[0] == ':'
}

/// The abstract state of a routing table.
pub struct RoutingState {
    /// Well-known names owned on the container bus.
    pub container: Set<Seq<char>>,
    /// Well-known names owned on the host bus.
    pub host: Set<Seq<char>>,
    /// Names that can be started on demand on the host bus.
    pub activatable: Set<Seq<char>>,
    /// The bus each known unique name belongs to.
    pub unique: Map<Seq<char>, Route>,
}

/// The route of `destination` in state `t`: unique names go where they are
/// registered (the host when unknown); well-known names go to the container
/// when it owns them and to the host otherwise.
pub open spec fn spec_route_for(t: RoutingState, destination: Seq<char>) -> Route {
    if is_unique_name(destination) {
        if t.unique.contains_key(destination) { t.unique[destination] } else { Route::Host }
    } else if t.container.contains(destination) {
        Route::Container
    } else {
        Route::Host
    }
}

/// The unique-name registry after a NameOwnerChanged from `route`'s bus:
/// the old owner is forgotten, then the new owner (if any) is recorded.
pub open spec fn spec_unique_after_change(
    unique: Map<Seq<char>, Route>,
    old_owner: Seq<char>,
    new_owner: Seq<char>,
    route: Route,
) -> Map<Seq<char>, Route> {
    let without_old = if old_owner.len() > 0 { unique.remove(old_owner) } else { unique };
    if new_owner.len() > 0 { without_old.insert(new_owner, route) } else { without_old }
}

/// The owned names of one bus after a NameOwnerChanged for `name`.
pub open spec fn spec_owned_after_change(owned: Set<Seq<char>>, name: Seq<char>, new_owner: Seq<char>) -> Set<Seq<char>> {
    if new_owner.len() > 0 { owned.insert(name) } else { owned.remove(name) }
}

/// Whether `s` starts with ':'.
fn starts_with_colon(s: &str) -> (r: bool)
    ensures
        r == is_unique_name(s@),
{
    if s.is_empty() {
        false
    } else {
        s.get_char(0) == ':'
    }
}

/// Tracks the bus each unique name belongs to.
struct UniqueNameRegistry {
    names: NameMap<Route>,
}

impl UniqueNameRegistry {
    fn new() -> (r: Self)
        ensures
            r.names.wf(),
            r.names@ == Map::<Seq<char>, Route>::empty(),
    {
        UniqueNameRegistry { names: NameMap::new() }
    }

    fn register(&mut self, name: String, route: Route)
        requires
            old(self).names.wf(),
        ensures
            final(self).names.wf(),
            final(self).names@ == old(self).names@.insert(name@, route),
    {
        self.names.insert(name, route);
    }

    fn unregister(&mut self, name: &str)
        requires
            old(self).names.wf(),
        ensures
            final(self).names.wf(),
            final(self).names@ == old(self).names@.remove(name@),
    {
        let _ = self.names.remove(name);
    }

    fn route_for(&self, name: &str) -> (r: Option<Route>)
        requires
            self.names.wf(),
        ensures
            r == (if self.names@.contains_key(name@) { Some(self.names@[name@]) } else { None::<Route> }),
    {
        match self.names.get(name) {
            Some(r) => Some(*r),
            None => None,
        }
    }
}

/// Routing table that determines message destinations.
///
/// The routing priority is:
/// 1. Container-owned names (always route to container)
/// 2. Host-owned names (route to host if not owned by container)
/// 3. Host-activatable names (can be started on demand)
/// 4. Default: route to host (allows unknown services to be activated)
pub struct RoutingTable {
    container_names: NameSet,
    host_names: NameSet,
    host_activatable: NameSet,
    unique_names: UniqueNameRegistry,
}

impl View for RoutingTable {
    type V = RoutingState;

    closed spec fn view(&self) -> RoutingState {
        RoutingState {
            container: self.container_names@,
            host: self.host_names@,
            activatable: self.host_activatable@,
            unique: self.unique_names.names@,
        }
    }
}

impl RoutingTable {
    /// The table's internal consistency.
    pub closed spec fn wf(&self) -> bool {
        &&& self.container_names.wf()
        &&& self.host_names.wf()
        &&& self.host_activatable.wf()
        &&& self.unique_names.names.wf()
    }

    /// Create a new empty routing table.
    pub fn new() -> (t: Self)
        ensures
            t.wf(),
            t@.container == Set::<Seq<char>>::empty(),
            t@.host == Set::<Seq<char>>::empty(),
            t@.activatable == Set::<Seq<char>>::empty(),
            t@.unique == Map::<Seq<char>, Route>::empty(),
    {
        RoutingTable {
            container_names: NameSet::new(),
            host_names: NameSet::new(),
            host_activatable: NameSet::new(),
            unique_names: UniqueNameRegistry::new(),
        }
    }

    /// Determine the route for a destination (well-known or unique name).
    pub fn route_for(&self, destination: &str) -> (r: Route)
        requires
            self.wf(),
        ensures
            r == spec_route_for(self@, destination@),
    {
        if starts_with_colon(destination) {
            return self.route_for_unique_name(destination);
        }
        if self.container_names.contains(destination) {
            return Route::Container;
        }
        if self.host_names.contains(destination) {
            return Route::Host;
        }
        if self.host_activatable.contains(destination) {
            return Route::Host;
        }
        Route::Host
    }

    /// Route a unique name to the bus it was registered on (host if unknown).
    fn route_for_unique_name(&self, name: &str) -> (r: Route)
        requires
            self.wf(),
        ensures
            r == (if self@.unique.contains_key(name@) { self@.unique[name@] } else { Route::Host }),
    {
        match self.unique_names.route_for(name) {
            Some(r) => r,
            None => Route::Host,
        }
    }

    /// Register a unique name with a route.
    pub fn register_unique_name(&mut self, name: String, route: Route)
        requires
            old(self).wf(),
        ensures
            final(self).wf(),
            final(self)@ == (RoutingState { unique: old(self)@.unique.insert(name@, route), ..old(self)@ }),
    {
        self.unique_names.register(name, route);
    }

    /// Unregister a unique name.
    pub fn unregister_unique_name(&mut self, name: &str)
        requires
            old(self).wf(),
        ensures
            final(self).wf(),
            final(self)@ == (RoutingState { unique: old(self)@.unique.remove(name@), ..old(self)@ }),
    {
        self.unique_names.unregister(name);
    }

    /// Handle a NameOwnerChanged signal from the container bus.
    ///
    /// `old_owner` is empty when the name was newly acquired and `new_owner`
    /// is empty when the name was released.
    pub fn on_container_name_change(&mut self, name: &str, old_owner: &str, new_owner: &str)
        requires
            old(self).wf(),
        ensures
            final(self).wf(),
            final(self)@ == (RoutingState {
                container: spec_owned_after_change(old(self)@.container, name@, new_owner@),
                unique: spec_unique_after_change(old(self)@.unique, old_owner@, new_owner@, Route::Container),
                ..old(self)@
            }),
    {
        if !old_owner.is_empty() {
            self.unique_names.unregister(old_owner);
        }
        if new_owner.is_empty() {
            let _ = self.container_names.remove(name);
        } else {
            let _ = self.container_names.insert(name.to_owned());
            self.unique_names.register(new_owner.to_owned(), Route::Container);
        }
    }

    /// Handle a NameOwnerChanged signal from the host bus.
    pub fn on_host_name_change(&mut self, name: &str, old_owner: &str, new_owner: &str)
        requires
            old(self).wf(),
        ensures
            final(self).wf(),
            final(self)@ == (RoutingState {
                host: spec_owned_after_change(old(self)@.host, name@, new_owner@),
                unique: spec_unique_after_change(old(self)@.unique, old_owner@, new_owner@, Route::Host),
                ..old(self)@
            }),
    {
        if !old_owner.is_empty() {
            self.unique_names.unregister(old_owner);
        }
        if new_owner.is_empty() {
            let _ = self.host_names.remove(name);
        } else {
            let _ = self.host_names.insert(name.to_owned());
            self.unique_names.register(new_owner.to_owned(), Route::Host);
        }
    }

    /// Set the names currently owned on the container bus.
    pub fn set_container_names(&mut self, names: Vec<String>)
        requires
            old(self).wf(),
        ensures
            final(self).wf(),
            final(self)@ == (RoutingState { container: Set::new(|k: Seq<char>| exists|i: int| 0 <= i < names@.len() && names@[i]@ == k), ..old(self)@ }),
    {
        self.container_names = NameSet::from_vec(names);
        assert(self@.container =~= Set::new(|k: Seq<char>| exists|i: int| 0 <= i < names@.len() && names@[i]@ == k));
    }

    /// Set the names currently owned on the host bus.
    pub fn set_host_names(&mut self, names: Vec<String>)
        requires
            old(self).wf(),
        ensures
            final(self).wf(),
            final(self)@ == (RoutingState { host: Set::new(|k: Seq<char>| exists|i: int| 0 <= i < names@.len() && names@[i]@ == k), ..old(self)@ }),
    {
        self.host_names = NameSet::from_vec(names);
        assert(self@.host =~= Set::new(|k: Seq<char>| exists|i: int| 0 <= i < names@.len() && names@[i]@ == k));
    }

    /// Set the names that can be activated on the host bus.
    pub fn set_host_activatable(&mut self, names: Vec<String>)
        requires
            old(self).wf(),
        ensures
            final(self).wf(),
            final(self)@ == (RoutingState { activatable: Set::new(|k: Seq<char>| exists|i: int| 0 <= i < names@.len() && names@[i]@ == k), ..old(self)@ }),
    {
        self.host_activatable = NameSet::from_vec(names);
        assert(self@.activatable =~= Set::new(|k: Seq<char>| exists|i: int| 0 <= i < names@.len() && names@[i]@ == k));
    }

    /// All names visible to clients: the names owned on either bus, each once.
    pub fn all_names(&self) -> (out: Vec<String>)
        requires
            self.wf(),
        ensures
            out@.map_values(|s: String| s@).no_duplicates(),
            forall|k: Seq<char>| (self@.container.contains(k) || self@.host.contains(k))
                <==> exists|i: int| 0 <= i < out@.len() && out@[i]@ == k,
    {
        let mut merged = NameSet::new();
        let c = self.container_names.to_vec();
        let h = self.host_names.to_vec();
        for i in 0..c.len()
            invariant
                merged.wf(),
                forall|k: Seq<char>| merged@.contains(k) <==> exists|j: int| 0 <= j < i && c@[j]@ == k,
        {
            let ghost before = merged@;
            merged.insert(c[i].clone());
            assert forall|k: Seq<char>| merged@.contains(k) <==> exists|j: int| 0 <= j < i + 1 && c@[j]@ == k by {
                if k != c@[i as int]@ && before.contains(k) {
                    let j = choose|j: int| 0 <= j < i && c@[j]@ == k;
                    assert(c@[j]@ == k);
                }
            }
        }
        for i in 0..h.len()
            invariant
                merged.wf(),
                forall|k: Seq<char>| merged@.contains(k) <==> (exists|j: int| 0 <= j < c@.len() && c@[j]@ == k)
                    || (exists|j: int| 0 <= j < i && h@[j]@ == k),
        {
            let ghost before = merged@;
            merged.insert(h[i].clone());
            assert forall|k: Seq<char>| merged@.contains(k) <==> (exists|j: int| 0 <= j < c@.len() && c@[j]@ == k)
                || (exists|j: int| 0 <= j < i + 1 && h@[j]@ == k) by {
                if k != h@[i as int]@ && before.contains(k) && !(exists|j: int| 0 <= j < c@.len() && c@[j]@ == k) {
                    let j = choose|j: int| 0 <= j < i && h@[j]@ == k;
                    assert(h@[j]@ == k);
                }
            }
        }
        assert forall|k: Seq<char>| (self@.container.contains(k) || self@.host.contains(k)) <==> merged@.contains(k) by {
            if self@.container.contains(k) {
                assert(exists|j: int| 0 <= j < c@.len() && c@[j]@ == k);
            }
            if self@.host.contains(k) {
                assert(exists|j: int| 0 <= j < h@.len() && h@[j]@ == k);
            }
        }
        let out = merged.to_vec();
        assert forall|k: Seq<char>| (self@.container.contains(k) || self@.host.contains(k))
            <==> exists|i: int| 0 <= i < out@.len() && out@[i]@ == k by {
            assert(merged@.contains(k) <==> exists|i: int| 0 <= i < out@.len() && out@[i]@ == k);
        }
        out
    }

    /// Whether a name has an owner on either bus.
    pub fn name_has_owner(&self, name: &str) -> (r: bool)
        requires
            self.wf(),
        ensures
            r == (self@.container.contains(name@) || self@.host.contains(name@)),
    {
        self.container_names.contains(name) || self.host_names.contains(name)
    }

    /// The bus where a name is owned, preferring the container.
    pub fn get_name_owner_route(&self, name: &str) -> (r: Option<Route>)
        requires
            self.wf(),
        ensures
            r == (if self@.container.contains(name@) {
                Some(Route::Container)
            } else if self@.host.contains(name@) {
                Some(Route::Host)
            } else {
                None::<Route>
            }),
    {
        if self.container_names.contains(name) {
            Some(Route::Container)
        } else if self.host_names.contains(name) {
            Some(Route::Host)
        } else {
            None
        }
    }

    /// Whether a name is owned on the container bus.
    pub fn is_container_name(&self, name: &str) -> (r: bool)
        requires
            self.wf(),
        ensures
            r == self@.container.contains(name@),
    {
        self.container_names.contains(name)
    }

    /// Whether a name is owned on the host bus.
    pub fn is_host_name(&self, name: &str) -> (r: bool)
        requires
            self.wf(),
        ensures
            r == self@.host.contains(name@),
    {
        self.host_names.contains(name)
    }
}


/// The names of `names` that are well-known names (not unique ones), in
/// order.
pub open spec fn spec_well_known(names: Seq<Seq<char>>) -> Seq<Seq<char>> {
    names.filter(|n: Seq<char>| !is_unique_name(n))
}

/// The well-known names among `names`, in order (unique names, which start
/// with ':', are left out).
pub fn well_known_names(names: Vec<String>) -> (out: Vec<String>)
    ensures
        out@.map_values(|s: String| s@) == spec_well_known(names@.map_values(|s: String| s@)),
{
    let ghost nv = names@.map_values(|s: String| s@);
    let mut out: Vec<String> = Vec::new();
    for i in 0..names.len()
        invariant
            nv == names@.map_values(|s: String| s@),
            out@.map_values(|s: String| s@) == spec_well_known(nv.take(i as int)),
    {
        let n = &names[i];
        assert(nv.take(i + 1).drop_last() =~= nv.take(i as int));
        assert(nv.take(i + 1).last() == n@);
        proof { reveal(Seq::filter); }
        if !starts_with_colon(n.as_str()) {
            out.push(n.clone());
        }
        assert(out@.map_values(|s: String| s@) =~= spec_well_known(nv.take(i + 1)));
    }
    assert(nv.take(names@.len() as int) =~= nv);
    out
}

/// A name owned on the container bus goes to the container, whether or not
/// the host owns it too.
pub proof fn lemma_container_priority(t: RoutingState, name: Seq<char>)
    requires
        !is_unique_name(name),
        t.container.contains(name),
    ensures
        spec_route_for(t, name) == Route::Container,
        spec_route_for(RoutingState { host: t.host.insert(name), ..t }, name) == Route::Container,
{
}

/// A well-known name the container does not own goes to the host, whether
/// the host owns it, can start it, or has never heard of it.
pub proof fn lemma_host_fallback(t: RoutingState, name: Seq<char>)
    requires
        !is_unique_name(name),
        !t.container.contains(name),
    ensures
        spec_route_for(t, name) == Route::Host,
{
}

/// Once the container bus reports a new owner for a well-known name, the
/// name goes to the container, and so does the new owner's unique name.
pub proof fn lemma_container_acquire(t: RoutingState, name: Seq<char>, old_owner: Seq<char>, new_owner: Seq<char>)
    requires
        !is_unique_name(name),
        new_owner.len() > 0,
    ensures
        ({
            let t2 = RoutingState {
                container: spec_owned_after_change(t.container, name, new_owner),
                unique: spec_unique_after_change(t.unique, old_owner, new_owner, Route::Container),
                ..t
            };
            &&& spec_route_for(t2, name) == Route::Container
            &&& (is_unique_name(new_owner) ==> spec_route_for(t2, new_owner) == Route::Container)
        }),
{
}

/// Once the container bus reports that a well-known name lost its owner,
/// the name goes to the host, and the old owner's unique name is forgotten.
pub proof fn lemma_container_release(t: RoutingState, name: Seq<char>, old_owner: Seq<char>)
    requires
        !is_unique_name(name),
        old_owner.len() > 0,
    ensures
        ({
            let t2 = RoutingState {
                container: spec_owned_after_change(t.container, name, Seq::empty()),
                unique: spec_unique_after_change(t.unique, old_owner, Seq::empty(), Route::Container),
                ..t
            };
            &&& spec_route_for(t2, name) == Route::Host
            &&& !t2.unique.contains_key(old_owner)
        }),
{
}

/// A name has an owner exactly when the bus that owns it can be named, and
/// the names listed are exactly those owned on either bus.
pub proof fn lemma_owner_route_agrees(t: RoutingState, name: Seq<char>)
    ensures
        (t.container.contains(name) || t.host.contains(name)) <==> (if t.container.contains(name) {
            Some(Route::Container)
        } else if t.host.contains(name) {
            Some(Route::Host)
        } else {
            None::<Route>
        }) is Some,
{
}

} // verus!
