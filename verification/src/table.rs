//! A keyed table: the map that the protocol state is kept in.

use libp2p::swarm::ConnectionId;
use vstd::prelude::*;
use vstd::slice::slice_to_vec;

use crate::outside::same_connection;

verus! {

/// A type whose values can serve as the keys of a [`Table`].
///
/// Two keys are the same key when their models are equal. A lookup is made
/// with a `Query`, which may be a borrowed form of the key.
pub trait TableKey: Sized {
    /// What a lookup is made with.
    type Query: ?Sized;

    /// What a key stands for.
    type Model;

    /// The model of a key.
    spec fn model(&self) -> Self::Model;

    /// The model of a query.
    spec fn query_model(query: &Self::Query) -> Self::Model;

    /// Whether the query asks for this key.
    fn matches(&self, query: &Self::Query) -> (r: bool)
        ensures
            r == (self.model() == Self::query_model(query)),
    ;

    /// The query that asks for this key.
    fn as_query(&self) -> (r: &Self::Query)
        ensures
            Self::query_model(r) == self.model(),
    ;
}

/// Whether two byte strings are equal.
pub fn same_bytes(a: &[u8], b: &[u8]) -> (r: bool)
    ensures
        r == (a@ == b@),
{
    if a.len() != b.len() {
        return false;
    }
    let mut i: usize = 0;
    while i < a.len()
        invariant
            i <= a.len(),
            a.len() == b.len(),
            forall|j: int| 0 <= j < i ==> a@[j] == b@[j],
        decreases a.len() - i,
    {
        if a[i] != b[i] {
            return false;
        }
        i += 1;
    }
    assert(a@ =~= b@);
    true
}

/// A copy of a byte string.
pub fn copy_bytes(bytes: &[u8]) -> (r: Vec<u8>)
    ensures
        r@ == bytes@,
{
    slice_to_vec(bytes)
}

impl TableKey for Vec<u8> {
    type Query = [u8];

    type Model = Seq<u8>;

    open spec fn model(&self) -> Seq<u8> {
        self@
    }

    open spec fn query_model(query: &[u8]) -> Seq<u8> {
        query@
    }

    fn matches(&self, query: &[u8]) -> (r: bool) {
        same_bytes(self.as_slice(), query)
    }

    fn as_query(&self) -> (r: &[u8]) {
        self.as_slice()
    }
}

impl TableKey for ConnectionId {
    type Query = ConnectionId;

    type Model = ConnectionId;

    open spec fn model(&self) -> ConnectionId {
        *self
    }

    open spec fn query_model(query: &ConnectionId) -> ConnectionId {
        *query
    }

    fn matches(&self, query: &ConnectionId) -> (r: bool) {
        same_connection(self, query)
    }

    fn as_query(&self) -> (r: &ConnectionId) {
        self
    }
}

/// A map from keys to values. The keys are kept in the order in which they
/// were first inserted, and no key occurs twice.
#[derive(Debug)]
pub struct Table<K: TableKey, V> {
    entries: Vec<(K, V)>,
}

impl<K: TableKey, V> Table<K, V> {
    /// The entries, in the order in which they are kept.
    pub closed spec fn entries(&self) -> Seq<(K, V)> {
        self.entries@
    }

    /// The keys, in the order in which they are kept.
    pub open spec fn keys(&self) -> Seq<K::Model> {
        self.entries().map_values(|e: (K, V)| e.0.model())
    }

    /// No key occurs twice.
    pub open spec fn wf(&self) -> bool {
        self.keys().no_duplicates()
    }

    /// Where an entry with the given key stands.
    pub open spec fn position(&self, key: K::Model) -> int {
        choose|i: int| 0 <= i < self.entries().len() && (#[trigger] self.entries()[i]).0.model() == key
    }

    /// The map that the table stands for.
    pub open spec fn view(&self) -> Map<K::Model, V> {
        Map::new(
            |key: K::Model| self.keys().contains(key),
            |key: K::Model| self.entries()[self.position(key)].1,
        )
    }

    /// In a well-formed table each entry is what its key maps to.
    pub proof fn lemma_entry(&self, i: int)
        requires
            self.wf(),
            0 <= i < self.entries().len(),
        ensures
            self.keys()[i] == self.entries()[i].0.model(),
            self@.contains_key(self.keys()[i]),
            self.position(self.keys()[i]) == i,
            self@[self.keys()[i]] == self.entries()[i].1,
    {
        let key = self.entries()[i].0.model();
        assert(self.keys()[i] == key);
        let p = self.position(key);
        assert(self.keys()[p] == key);
    }

    /// Replacing the value of one entry replaces what its key maps to.
    proof fn lemma_value_replaced(before: Self, i: int)
        requires
            before.wf(),
            0 <= i < before.entries().len(),
        ensures
            before@.contains_key(before.keys()[i]),
            before@[before.keys()[i]] == before.entries()[i].1,
            forall|after: Self| #![trigger after.entries()]
                Self::differs_at(before, after, i) ==> {
                    &&& after.keys() == before.keys()
                    &&& after@ == before@.insert(before.keys()[i], after.entries()[i].1)
                },
    {
        before.lemma_entry(i);
        assert forall|after: Self| #![trigger after.entries()]
            Self::differs_at(before, after, i) implies {
                &&& after.keys() == before.keys()
                &&& after@ == before@.insert(before.keys()[i], after.entries()[i].1)
            } by {
            assert(after.keys() =~= before.keys());
            assert forall|key: K::Model| after@.contains_key(key) implies
                after@[key] == before@.insert(before.keys()[i], after.entries()[i].1)[key] by {
                let j = after.keys().index_of(key);
                after.lemma_entry(j);
                before.lemma_entry(j);
            }
            assert(after@ =~= before@.insert(before.keys()[i], after.entries()[i].1));
        }
    }

    spec fn differs_at(before: Self, after: Self, i: int) -> bool {
        &&& after.entries().len() == before.entries().len()
        &&& forall|j: int| 0 <= j < before.entries().len() && j != i ==>
            after.entries()[j] == before.entries()[j]
        &&& after.entries()[i].0 == before.entries()[i].0
    }

    /// Adding an entry with a new key adds that key to the map.
    proof fn lemma_pushed(before: Self, after: Self, key: K, value: V)
        requires
            before.wf(),
            !before@.contains_key(key.model()),
            after.entries() == before.entries().push((key, value)),
        ensures
            after.wf(),
            after.keys() == before.keys().push(key.model()),
            after@ == before@.insert(key.model(), value),
    {
        assert(after.keys() =~= before.keys().push(key.model()));
        let last = before.entries().len() as int;
        after.lemma_entry(last);
        assert forall|k: K::Model| after@.contains_key(k) <==> before@.insert(key.model(), value).contains_key(k) by {
            if before@.contains_key(k) {
                let j = before.keys().index_of(k);
                assert(after.keys()[j] == k);
            }
        }
        assert forall|k: K::Model| after@.contains_key(k) implies
            after@[k] == before@.insert(key.model(), value)[k] by {
            let j = after.keys().index_of(k);
            after.lemma_entry(j);
            if j < last {
                before.lemma_entry(j);
            }
        }
        assert(after@ =~= before@.insert(key.model(), value));
    }

    /// An empty table.
    pub fn new() -> (r: Self)
        ensures
            r.wf(),
            r.keys() == Seq::<K::Model>::empty(),
            r@ == Map::<K::Model, V>::empty(),
    {
        let r = Table { entries: Vec::new() };
        assert(r.keys() =~= Seq::<K::Model>::empty());
        assert(r@ =~= Map::<K::Model, V>::empty());
        r
    }

    /// The number of entries.
    pub fn len(&self) -> (r: usize)
        ensures
            r == self.keys().len(),
            r == self.entries().len(),
    {
        self.entries.len()
    }

    /// The key of the entry at `i`.
    pub fn key_at(&self, i: usize) -> (r: &K)
        requires
            i < self.keys().len(),
        ensures
            r.model() == self.keys()[i as int],
    {
        &self.entries[i].0
    }

    /// The value of the entry at `i`.
    pub fn value_at(&self, i: usize) -> (r: &V)
        requires
            self.wf(),
            i < self.keys().len(),
        ensures
            self@.contains_key(self.keys()[i as int]),
            *r == self@[self.keys()[i as int]],
    {
        proof {
            self.lemma_entry(i as int);
        }
        &self.entries[i].1
    }

    fn find(&self, query: &K::Query) -> (r: Option<usize>)
        ensures
            match r {
                Some(i) => i < self.entries().len() && self.keys()[i as int] == K::query_model(query),
                None => !self.keys().contains(K::query_model(query)),
            },
    {
        let mut i: usize = 0;
        while i < self.entries.len()
            invariant
                i <= self.entries@.len(),
                forall|j: int| 0 <= j < i ==> self.keys()[j] != K::query_model(query),
            decreases self.entries@.len() - i,
        {
            if self.entries[i].0.matches(query) {
                return Some(i);
            }
            i += 1;
        }
        None
    }

    /// Whether the table holds the key.
    pub fn contains_key(&self, query: &K::Query) -> (r: bool)
        ensures
            r == self@.contains_key(K::query_model(query)),
    {
        match self.find(query) {
            Some(i) => true,
            None => false,
        }
    }

    /// What the key maps to.
    pub fn get(&self, query: &K::Query) -> (r: Option<&V>)
        requires
            self.wf(),
        ensures
            match r {
                Some(v) => {
                    &&& self@.contains_key(K::query_model(query))
                    &&& *v == self@[K::query_model(query)]
                },
                None => !self@.contains_key(K::query_model(query)),
            },
    {
        match self.find(query) {
            Some(i) => {
                proof {
                    self.lemma_entry(i as int);
                }
                Some(&self.entries[i].1)
            },
            None => None,
        }
    }

    /// What the key maps to, for changing it in place.
    pub fn get_mut(&mut self, query: &K::Query) -> (r: Option<&mut V>)
        requires
            old(self).wf(),
        ensures
            match r {
                Some(v) => {
                    &&& old(self)@.contains_key(K::query_model(query))
                    &&& *v == old(self)@[K::query_model(query)]
                    &&& final(self)@ == old(self)@.insert(K::query_model(query), *final(v))
                    &&& final(self).keys() == old(self).keys()
                },
                None => {
                    &&& !old(self)@.contains_key(K::query_model(query))
                    &&& *final(self) == *old(self)
                },
            },
    {
        match self.find(query) {
            Some(i) => {
                proof {
                    Self::lemma_value_replaced(*self, i as int);
                }
                let entry = &mut self.entries[i];
                Some(&mut entry.1)
            },
            None => None,
        }
    }

    /// What the key maps to, for changing it in place. Where the table does
    /// not hold the key, it is first mapped to `default`.
    pub fn get_or_insert(&mut self, key: K, default: V) -> (r: &mut V)
        requires
            old(self).wf(),
        ensures
            *r == (if old(self)@.contains_key(key.model()) {
                old(self)@[key.model()]
            } else {
                default
            }),
            final(self).wf(),
            final(self)@ == old(self)@.insert(key.model(), *final(r)),
    {
        let ghost before = *self;
        let found: usize = match self.find(key.as_query()) {
            Some(i) => {
                proof {
                    self.lemma_entry(i as int);
                }
                i
            },
            None => {
                let i = self.entries.len();
                let ghost k = key;
                self.entries.push((key, default));
                proof {
                    Self::lemma_pushed(before, *self, k, default);
                    self.lemma_entry(i as int);
                }
                i
            },
        };
        proof {
            Self::lemma_value_replaced(*self, found as int);
            assert(forall|v: V| self@.insert(key.model(), v) =~= before@.insert(key.model(), v));
        }
        let entry = &mut self.entries[found];
        &mut entry.1
    }

    /// Maps the key to the value, in place of what it was mapped to.
    pub fn insert(&mut self, key: K, value: V)
        requires
            old(self).wf(),
        ensures
            final(self).wf(),
            final(self)@ == old(self)@.insert(key.model(), value),
            final(self).keys() == (if old(self)@.contains_key(key.model()) {
                old(self).keys()
            } else {
                old(self).keys().push(key.model())
            }),
    {
        let ghost before = *self;
        match self.find(key.as_query()) {
            Some(i) => {
                proof {
                    Self::lemma_value_replaced(*self, i as int);
                }
                let entry = &mut self.entries[i];
                entry.1 = value;
            },
            None => {
                let ghost k = key;
                self.entries.push((key, value));
                proof {
                    Self::lemma_pushed(before, *self, k, value);
                }
            },
        }
    }

    /// The value of the entry at `i`, for changing it in place.
    pub fn value_mut_at(&mut self, i: usize) -> (r: &mut V)
        requires
            old(self).wf(),
            i < old(self).keys().len(),
        ensures
            old(self)@.contains_key(old(self).keys()[i as int]),
            *r == old(self)@[old(self).keys()[i as int]],
            final(self).keys() == old(self).keys(),
            final(self)@ == old(self)@.insert(old(self).keys()[i as int], *final(r)),
    {
        proof {
            Self::lemma_value_replaced(*self, i as int);
        }
        let entry = &mut self.entries[i];
        &mut entry.1
    }

    /// Takes the entry at `i` out of the table.
    pub fn remove_at(&mut self, i: usize) -> (r: V)
        requires
            old(self).wf(),
            i < old(self).keys().len(),
        ensures
            final(self).wf(),
            final(self).keys() == old(self).keys().remove(i as int),
            final(self)@ == old(self)@.remove(old(self).keys()[i as int]),
            r == old(self)@[old(self).keys()[i as int]],
    {
        let ghost before = *self;
        let ghost key = before.keys()[i as int];
        proof {
            before.lemma_entry(i as int);
        }
        let entry = self.entries.remove(i);
        proof {
            assert(self.keys() =~= before.keys().remove(i as int));
            assert forall|k: K::Model| self@.contains_key(k) <==> before@.remove(key).contains_key(
                k,
            ) by {
                if self.keys().contains(k) {
                    let j = self.keys().index_of(k);
                    let o = if j < i { j } else { j + 1 };
                    assert(before.keys()[o] == k);
                }
                if before.keys().contains(k) && k != key {
                    let o = before.keys().index_of(k);
                    let j = if o < i { o } else { o - 1 };
                    assert(self.keys()[j] == k);
                }
            }
            assert forall|k: K::Model| self@.contains_key(k) implies self@[k] == before@.remove(
                key,
            )[k] by {
                let j = self.keys().index_of(k);
                let o = if j < i { j } else { j + 1 };
                self.lemma_entry(j);
                before.lemma_entry(o);
            }
            assert(self@ =~= before@.remove(key));
        }
        entry.1
    }

    /// Takes the key out of the table.
    pub fn remove(&mut self, query: &K::Query) -> (r: Option<V>)
        requires
            old(self).wf(),
        ensures
            final(self).wf(),
            final(self)@ == old(self)@.remove(K::query_model(query)),
            final(self).keys() == (if old(self)@.contains_key(K::query_model(query)) {
                old(self).keys().remove(old(self).keys().index_of(K::query_model(query)))
            } else {
                old(self).keys()
            }),
            match r {
                Some(v) => {
                    &&& old(self)@.contains_key(K::query_model(query))
                    &&& v == old(self)@[K::query_model(query)]
                },
                None => {
                    &&& !old(self)@.contains_key(K::query_model(query))
                    &&& *final(self) == *old(self)
                },
            },
    {
        match self.find(query) {
            Some(i) => {
                proof {
                    self.lemma_entry(i as int);
                }
                Some(self.remove_at(i))
            },
            None => {
                assert(self@ =~= self@.remove(K::query_model(query)));
                None
            },
        }
    }
}

} // verus!
