//! Collections keyed by bus names.
//!
//! Names are compared by their characters. `NameSet` holds each name at
//! most once; `NameMap` holds at most one value for each name.

use vstd::prelude::*;

use crate::text::str_eq;

verus! {

broadcast use vstd::seq_lib::group_seq_properties;

/// A set of bus names.
pub struct NameSet {
    items: Vec<String>,
}

impl NameSet {
    /// The names held, in storage order.
    pub closed spec fn names(&self) -> Seq<Seq<char>> {
        self.items@.map_values(|s: String| s@)
    }

    /// Each name is held once.
    pub closed spec fn wf(&self) -> bool {
        self.names().no_duplicates()
    }

    /// Number of names held.
    pub closed spec fn count(&self) -> nat {
        self.items@.len()
    }

    pub fn new() -> (s: Self)
        ensures
            s.wf(),
            s@ == Set::<Seq<char>>::empty(),
            s.count() == 0,
    {
        let s = NameSet { items: Vec::new() };
        assert(s@ =~= Set::<Seq<char>>::empty());
        s
    }

    /// Position of `name` in storage, if held.
    fn position(&self, name: &str) -> (r: Option<usize>)
        ensures
            match r {
                Some(i) => i < self.items@.len() && self.items@[i as int]@ == name@,
                None => !self@.contains(name@),
            },
    {
        let mut i: usize = 0;
        while i < self.items.len()
            invariant
                i <= self.items@.len(),
                forall|j: int| 0 <= j < i ==> self.items@[j]@ != name@,
            decreases self.items@.len() - i,
        {
            if str_eq(self.items[i].as_str(), name) {
                return Some(i);
            }
            i = i + 1;
        }
        proof {
            if self@.contains(name@) {
                let k = choose|k: int| 0 <= k < self.names().len() && self.names()[k] == name@;
                assert(self.items@[k]@ == name@);
            }
        }
        None
    }

    pub fn contains(&self, name: &str) -> (r: bool)
        ensures
            r == self@.contains(name@),
    {
        match self.position(name) {
            Some(i) => {
                assert(self.names()[i as int] == name@);
                true
            },
            None => false,
        }
    }

    /// Adds `name`; returns whether it was absent.
    pub fn insert(&mut self, name: String) -> (added: bool)
        requires
            old(self).wf(),
        ensures
            final(self).wf(),
            final(self)@ == old(self)@.insert(name@),
            added == !old(self)@.contains(name@),
            final(self).count() == old(self).count() + if added { 1nat } else { 0nat },
    {
        match self.position(name.as_str()) {
            Some(i) => {
                assert(self.names()[i as int] == name@);
                assert(self@ =~= old(self)@.insert(name@));
                false
            },
            None => {
                let ghost n = name@;
                self.items.push(name);
                assert(self.names() =~= old(self).names().push(n));
                assert(self@ =~= old(self)@.insert(n));
                true
            },
        }
    }

    /// Removes `name`; returns whether it was present.
    pub fn remove(&mut self, name: &str) -> (removed: bool)
        requires
            old(self).wf(),
        ensures
            final(self).wf(),
            final(self)@ == old(self)@.remove(name@),
            removed == old(self)@.contains(name@),
            final(self).count() == old(self).count() - if removed { 1int } else { 0int },
    {
        match self.position(name) {
            Some(i) => {
                let ghost old_names = self.names();
                self.items.remove(i);
                assert(self.names() =~= old_names.remove(i as int));
                assert(old_names[i as int] == name@);
                assert forall|k: Seq<char>| self@.contains(k) <==> old(self)@.remove(name@).contains(k) by {
                    if self.names().contains(k) {
                        let j = choose|j: int| 0 <= j < self.names().len() && self.names()[j] == k;
                        if j < i { assert(old_names[j] == k); } else { assert(old_names[j + 1] == k); }
                    }
                    if k != name@ && old_names.contains(k) {
                        let j = choose|j: int| 0 <= j < old_names.len() && old_names[j] == k;
                        if j < i { assert(self.names()[j] == k); } else { assert(self.names()[j - 1] == k); }
                    }
                }
                assert(self@ =~= old(self)@.remove(name@));
                true
            },
            None => {
                assert(self@ =~= old(self)@.remove(name@));
                false
            },
        }
    }

    /// The set of names in `names`, each kept once.
    pub fn from_vec(names: Vec<String>) -> (s: Self)
        ensures
            s.wf(),
            forall|k: Seq<char>| s@.contains(k) <==> exists|i: int| 0 <= i < names@.len() && names@[i]@ == k,
    {
        let mut s = NameSet::new();
        for i in 0..names.len()
            invariant
                s.wf(),
                forall|k: Seq<char>| s@.contains(k) <==> exists|j: int| 0 <= j < i && names@[j]@ == k,
        {
            let ghost before = s@;
            s.insert(names[i].clone());
            assert forall|k: Seq<char>| s@.contains(k) <==> exists|j: int| 0 <= j < i + 1 && names@[j]@ == k by {
                if k == names@[i as int]@ {
                    assert(names@[i as int]@ == k);
                } else if before.contains(k) {
                    let j = choose|j: int| 0 <= j < i && names@[j]@ == k;
                    assert(names@[j]@ == k);
                }
            }
        }
        s
    }

    /// Number of names held.
    pub fn len(&self) -> (n: usize)
        ensures
            n == self.count(),
    {
        self.items.len()
    }

    /// The names held, each once.
    pub fn to_vec(&self) -> (out: Vec<String>)
        requires
            self.wf(),
        ensures
            out@.map_values(|s: String| s@).no_duplicates(),
            forall|k: Seq<char>| self@.contains(k) <==> exists|i: int| 0 <= i < out@.len() && out@[i]@ == k,
            out@.len() == self.count(),
    {
        let out = self.items.clone();
        assert(out@.map_values(|s: String| s@) =~= self.names());
        assert forall|k: Seq<char>| self@.contains(k) <==> exists|i: int| 0 <= i < out@.len() && out@[i]@ == k by {
            if self@.contains(k) {
                let j = choose|j: int| 0 <= j < self.names().len() && self.names()[j] == k;
                assert(out@[j]@ == k);
            }
            if exists|i: int| 0 <= i < out@.len() && out@[i]@ == k {
                let j = choose|j: int| 0 <= j < out@.len() && out@[j]@ == k;
                assert(self.names()[j] == k);
            }
        }
        out
    }
}

impl View for NameSet {
    type V = Set<Seq<char>>;

    closed spec fn view(&self) -> Set<Seq<char>> {
        Set::new(|k: Seq<char>| self.names().contains(k))
    }
}

/// A map from bus names to values.
pub struct NameMap<V> {
    entries: Vec<(String, V)>,
}

impl<V> NameMap<V> {
    /// The keys held, in storage order.
    pub closed spec fn keys(&self) -> Seq<Seq<char>> {
        self.entries@.map_values(|e: (String, V)| e.0@)
    }

    /// The entries held, in storage order, keys by their characters.
    pub closed spec fn pairs(&self) -> Seq<(Seq<char>, V)> {
        self.entries@.map_values(|e: (String, V)| (e.0@, e.1))
    }

    /// Each key is held once.
    pub closed spec fn wf(&self) -> bool {
        self.keys().no_duplicates()
    }

    /// Number of entries.
    pub closed spec fn count(&self) -> nat {
        self.entries@.len()
    }

    proof fn lemma_view_at(&self, i: int)
        requires
            self.wf(),
            0 <= i < self.entries@.len(),
        ensures
            self@.contains_key(self.entries@[i].0@),
            self@[self.entries@[i].0@] == self.entries@[i].1,
    {
        let k = self.entries@[i].0@;
        assert(self.keys()[i] == k);
        let j = self.keys().index_of(k);
        assert(self.keys()[j] == k);
    }

    pub fn new() -> (m: Self)
        ensures
            m.wf(),
            m@ == Map::<Seq<char>, V>::empty(),
            m.count() == 0,
    {
        let m = NameMap { entries: Vec::new() };
        assert(m@ =~= Map::<Seq<char>, V>::empty());
        m
    }

    fn position(&self, name: &str) -> (r: Option<usize>)
        requires
            self.wf(),
        ensures
            match r {
                Some(i) => i < self.entries@.len() && self.entries@[i as int].0@ == name@
                    && self@.contains_key(name@) && self@[name@] == self.entries@[i as int].1,
                None => !self@.contains_key(name@),
            },
    {
        let mut i: usize = 0;
        while i < self.entries.len()
            invariant
                self.wf(),
                i <= self.entries@.len(),
                forall|j: int| 0 <= j < i ==> self.entries@[j].0@ != name@,
            decreases self.entries@.len() - i,
        {
            if str_eq(self.entries[i].0.as_str(), name) {
                proof { self.lemma_view_at(i as int); }
                return Some(i);
            }
            i = i + 1;
        }
        proof {
            if self.keys().contains(name@) {
                let k = choose|k: int| 0 <= k < self.keys().len() && self.keys()[k] == name@;
                assert(self.entries@[k].0@ == name@);
            }
        }
        None
    }

    pub fn contains_key(&self, name: &str) -> (r: bool)
        requires
            self.wf(),
        ensures
            r == self@.contains_key(name@),
    {
        self.position(name).is_some()
    }

    pub fn get(&self, name: &str) -> (r: Option<&V>)
        requires
            self.wf(),
        ensures
            match r {
                Some(v) => self@.contains_key(name@) && self@[name@] == *v,
                None => !self@.contains_key(name@),
            },
    {
        match self.position(name) {
            Some(i) => Some(&self.entries[i].1),
            None => None,
        }
    }

    /// Sets the value of `name`, replacing any earlier one.
    pub fn insert(&mut self, name: String, value: V)
        requires
            old(self).wf(),
        ensures
            final(self).wf(),
            final(self)@ == old(self)@.insert(name@, value),
    {
        let ghost k = name@;
        let ghost v = value;
        if let Some(i) = self.position(name.as_str()) {
            self.remove_at(i);
        }
        let ghost mid = *self;
        assert(!mid@.contains_key(k));
        self.entries.push((name, value));
        assert(self.keys() =~= mid.keys().push(k));
        proof { self.lemma_view_at(self.entries@.len() - 1); }
        assert forall|key: Seq<char>| #[trigger] self@.contains_key(key) <==> mid@.insert(k, v).contains_key(key) by {
            if mid.keys().contains(key) {
                let j = choose|j: int| 0 <= j < mid.keys().len() && mid.keys()[j] == key;
                assert(self.keys()[j] == key);
            }
        }
        assert forall|key: Seq<char>| #[trigger] self@.contains_key(key) && key != k implies self@[key] == mid@[key] by {
            let j = self.keys().index_of(key);
            assert(self.keys()[j] == key);
            self.lemma_view_at(j);
            mid.lemma_view_at(j);
        }
        assert(self@ =~= mid@.insert(k, v));
        assert(self@ =~= old(self)@.insert(k, v));
    }

    /// Removes the entry at storage position `i`.
    fn remove_at(&mut self, i: usize) -> (removed: (String, V))
        requires
            old(self).wf(),
            i < old(self).entries@.len(),
        ensures
            final(self).wf(),
            removed == old(self).entries@[i as int],
            final(self)@ == old(self)@.remove(removed.0@),
            final(self).count() + 1 == old(self).count(),
    {
        let ghost old_keys = self.keys();
        let ghost old_entries = self.entries@;
        let removed = self.entries.remove(i);
        assert(self.keys() =~= old_keys.remove(i as int));
        let ghost k = removed.0@;
        assert(old_keys[i as int] == k);
        assert forall|key: Seq<char>| #[trigger] self@.contains_key(key) <==> old(self)@.remove(k).contains_key(key) by {
            if self.keys().contains(key) {
                let j = choose|j: int| 0 <= j < self.keys().len() && self.keys()[j] == key;
                if j < i { assert(old_keys[j] == key); } else { assert(old_keys[j + 1] == key); }
            }
            if key != k && old_keys.contains(key) {
                let j = choose|j: int| 0 <= j < old_keys.len() && old_keys[j] == key;
                if j < i { assert(self.keys()[j] == key); } else { assert(self.keys()[j - 1] == key); }
            }
        }
        assert forall|key: Seq<char>| #[trigger] self@.contains_key(key) implies self@[key] == old(self)@[key] by {
            let j = self.keys().index_of(key);
            assert(self.keys()[j] == key);
            self.lemma_view_at(j);
            if j < i {
                old(self).lemma_view_at(j);
            } else {
                old(self).lemma_view_at(j + 1);
            }
        }
        assert(self@ =~= old(self)@.remove(k));
        removed
    }

    /// Removes `name`, returning its value.
    pub fn remove(&mut self, name: &str) -> (r: Option<V>)
        requires
            old(self).wf(),
        ensures
            final(self).wf(),
            final(self)@ == old(self)@.remove(name@),
            final(self).count() == old(self).count() - if r is Some { 1int } else { 0int },
            match r {
                Some(v) => old(self)@.contains_key(name@) && old(self)@[name@] == v,
                None => !old(self)@.contains_key(name@),
            },
    {
        match self.position(name) {
            Some(i) => {
                let (_, v) = self.remove_at(i);
                Some(v)
            },
            None => {
                assert(self@ =~= old(self)@.remove(name@));
                None
            },
        }
    }

    pub fn len(&self) -> (n: usize)
        ensures
            n == self.count(),
    {
        self.entries.len()
    }

    /// The number of entries is the size of the map.
    pub proof fn lemma_len(&self)
        requires
            self.wf(),
        ensures
            self@.len() == self.count(),
    {
        assert(self@.dom() =~= self.keys().to_set());
        self.keys().unique_seq_to_set();
    }

    /// The map is finite.
    pub proof fn lemma_finite(&self)
        ensures
            self@.dom().finite(),
    {
        assert(self@.dom() =~= self.keys().to_set());
        vstd::seq_lib::seq_to_set_is_finite(self.keys());
    }

    /// The keys held, each once.
    pub fn keys_vec(&self) -> (out: Vec<String>)
        requires
            self.wf(),
        ensures
            out@.map_values(|s: String| s@).no_duplicates(),
            forall|k: Seq<char>| self@.contains_key(k) <==> exists|i: int| 0 <= i < out@.len() && out@[i]@ == k,
    {
        let mut out: Vec<String> = Vec::new();
        for i in 0..self.entries.len()
            invariant
                self.wf(),
                out@.len() == i,
                forall|j: int| 0 <= j < i ==> #[trigger] out@[j]@ == self.keys()[j],
        {
            out.push(self.entries[i].0.clone());
        }
        assert(out@.map_values(|s: String| s@) =~= self.keys());
        assert forall|k: Seq<char>| self@.contains_key(k) <==> exists|i: int| 0 <= i < out@.len() && out@[i]@ == k by {
            if self@.contains_key(k) {
                let j = choose|j: int| 0 <= j < self.keys().len() && self.keys()[j] == k;
                assert(out@.map_values(|s: String| s@)[j] == k);
            }
            if exists|i: int| 0 <= i < out@.len() && out@[i]@ == k {
                let j = choose|j: int| 0 <= j < out@.len() && out@[j]@ == k;
                assert(out@.map_values(|s: String| s@)[j] == k);
            }
        }
        out
    }
}

impl<V> View for NameMap<V> {
    type V = Map<Seq<char>, V>;

    closed spec fn view(&self) -> Map<Seq<char>, V> {
        Map::new(|k: Seq<char>| self.keys().contains(k), |k: Seq<char>| self.entries@[self.keys().index_of(k)].1)
    }
}

} // verus!
