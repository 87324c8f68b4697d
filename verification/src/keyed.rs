//! A small association list with unique keys: the storage behind every
//! registry of this crate. Its abstract value is a `Map` from the key's model
//! to the stored value; insertion order is kept, which the registries use
//! when they hand entries out.

use crate::interop::{str_eq, type_id_eq, uuid_eq};
use std::any::TypeId;
use uuid::Uuid;
use vstd::prelude::*;

verus! {

/// A key that can be compared at run time against its mathematical model.
pub trait LookupKey: Sized {
    type Model;

    spec fn model(&self) -> Self::Model;

    fn same_key(&self, other: &Self) -> (r: bool)
        ensures
            r == (self.model() == other.model()),
    ;
}

impl LookupKey for TypeId {
    type Model = TypeId;

    open spec fn model(&self) -> TypeId {
        *self
    }

    fn same_key(&self, other: &Self) -> (r: bool) {
        type_id_eq(self, other)
    }
}

impl LookupKey for Uuid {
    type Model = Uuid;

    open spec fn model(&self) -> Uuid {
        *self
    }

    fn same_key(&self, other: &Self) -> (r: bool) {
        uuid_eq(self, other)
    }
}

impl LookupKey for &'static str {
    type Model = Seq<char>;

    open spec fn model(&self) -> Seq<char> {
        (*self)@
    }

    fn same_key(&self, other: &Self) -> (r: bool) {
        str_eq(*self, *other)
    }
}

impl LookupKey for String {
    type Model = Seq<char>;

    open spec fn model(&self) -> Seq<char> {
        self@
    }

    fn same_key(&self, other: &Self) -> (r: bool) {
        str_eq(self.as_str(), other.as_str())
    }
}

/// Entries `(key, value)` in insertion order, no two keys with the same model.
pub struct KeyedVec<K, V> {
    entries: Vec<(K, V)>,
}

impl<K: LookupKey, V> KeyedVec<K, V> {
    /// The key models of the entries, in order.
    pub closed spec fn key_models(&self) -> Seq<K::Model> {
        self.entries@.map_values(|e: (K, V)| e.0.model())
    }

    /// The entries in insertion order.
    pub closed spec fn entry_seq(&self) -> Seq<(K, V)> {
        self.entries@
    }

    pub closed spec fn wf(&self) -> bool {
        self.key_models().no_duplicates()
    }

    pub closed spec fn has(&self, k: K::Model) -> bool {
        exists|i: int| 0 <= i < self.entries@.len() && self.entries@[i].0.model() == k
    }

    pub closed spec fn position(&self, k: K::Model) -> int {
        choose|i: int| 0 <= i < self.entries@.len() && self.entries@[i].0.model() == k
    }

    /// The abstract value: key model to stored value.
    pub closed spec fn view(&self) -> Map<K::Model, V> {
        Map::new(|k: K::Model| self.has(k), |k: K::Model| self.entries@[self.position(k)].1)
    }

    proof fn lemma_position(&self, i: int)
        requires
            self.wf(),
            0 <= i < self.entries@.len(),
        ensures
            self.has(self.entries@[i].0.model()),
            self.position(self.entries@[i].0.model()) == i,
    {
        let k = self.entries@[i].0.model();
        assert(self.key_models()[i] == k);
        let j = self.position(k);
        assert(self.key_models()[j] == k);
    }

    /// The map's domain is the set of key models, of which there are as many
    /// as entries.
    pub proof fn lemma_view_len(&self)
        requires
            self.wf(),
        ensures
            self.view().dom() =~= self.key_models().to_set(),
            self.view().dom().finite(),
            self.view().len() == self.entry_seq().len(),
    {
        assert forall|k: K::Model| self.view().dom().contains(k) <==> self.key_models().to_set().contains(k) by {
            if self.has(k) {
                let i = self.position(k);
                assert(self.key_models()[i] == k);
            }
            if self.key_models().to_set().contains(k) {
                let i = choose|i: int| 0 <= i < self.key_models().len() && self.key_models()[i] == k;
                assert(self.entries@[i].0.model() == k);
            }
        }
        self.key_models().unique_seq_to_set();
    }

    pub fn new() -> (r: Self)
        ensures
            r.wf(),
            r@ == Map::<K::Model, V>::empty(),
            r.entry_seq() == Seq::<(K, V)>::empty(),
    {
        let r = KeyedVec { entries: Vec::new() };
        assert(r.key_models() =~= Seq::<K::Model>::empty());
        assert(r@ =~= Map::<K::Model, V>::empty());
        r
    }

    /// Index of the entry whose key has the model of `k`, if any.
    pub fn find(&self, k: &K) -> (r: Option<usize>)
        requires
            self.wf(),
        ensures
            match r {
                Some(i) => i < self.entry_seq().len() && self.entry_seq()[i as int].0.model() == k.model()
                    && self.position(k.model()) == i,
                None => !self@.dom().contains(k.model()),
            },
    {
        let mut i: usize = 0;
        while i < self.entries.len()
            invariant
                self.wf(),
                i <= self.entries@.len(),
                forall|j: int| 0 <= j < i ==> self.entries@[j].0.model() != k.model(),
            decreases self.entries@.len() - i,
        {
            if self.entries[i].0.same_key(k) {
                proof {
                    self.lemma_position(i as int);
                }
                return Some(i);
            }
            i = i + 1;
        }
        None
    }

    pub fn get(&self, k: &K) -> (r: Option<&V>)
        requires
            self.wf(),
        ensures
            match r {
                Some(v) => self@.dom().contains(k.model()) && self@[k.model()] == *v,
                None => !self@.dom().contains(k.model()),
            },
    {
        match self.find(k) {
            Some(i) => {
                proof {
                    self.lemma_position(i as int);
                }
                Some(&self.entries[i].1)
            },
            None => None,
        }
    }

    pub fn contains(&self, k: &K) -> (r: bool)
        requires
            self.wf(),
        ensures
            r == self@.dom().contains(k.model()),
    {
        match self.find(k) {
            Some(i) => {
                proof {
                    self.lemma_position(i as int);
                }
                true
            },
            None => false,
        }
    }

    pub fn len(&self) -> (r: usize)
        requires
            self.wf(),
        ensures
            r == self@.len(),
            r == self.entry_seq().len(),
    {
        proof {
            self.lemma_view_len();
        }
        self.entries.len()
    }

    /// Inserts `v` under `k`. An entry with the same key keeps its place and
    /// gets the new value; otherwise the entry goes last.
    pub fn insert(&mut self, k: K, v: V)
        requires
            old(self).wf(),
        ensures
            final(self).wf(),
            final(self)@ == old(self)@.insert(k.model(), v),
            old(self)@.dom().contains(k.model()) ==> final(self).key_models() == old(self).key_models(),
            !old(self)@.dom().contains(k.model()) ==> final(self).key_models() == old(self).key_models().push(k.model()),
    {
        let ghost km = k.model();
        let ghost old_self = *self;
        match self.find(&k) {
            Some(i) => {
                self.entries.set(i, (k, v));
                proof {
                    assert(self.entries@[i as int].0.model() == km);
                    assert(forall|j: int| 0 <= j < self.entries@.len() && j != i ==> self.entries@[j] == old_self.entries@[j]);
                    assert(self.key_models() =~= old_self.key_models());
                    assert forall|q: K::Model| #[trigger] self@.dom().contains(q) == old_self@.insert(km, v).dom().contains(q) by {
                        if self.has(q) {
                            let j = self.position(q);
                            if j != i as int {
                                assert(old_self.entries@[j].0.model() == q);
                            }
                        }
                        if old_self.has(q) {
                            let j = old_self.position(q);
                            assert(self.entries@[j].0.model() == q);
                        }
                    }
                    assert forall|q: K::Model| #[trigger] self@.dom().contains(q) implies self@[q] == old_self@.insert(km, v)[q] by {
                        let j = self.position(q);
                        self.lemma_position(j);
                        if q != km {
                            assert(j != i);
                            old_self.lemma_position(j);
                        } else {
                            self.lemma_position(i as int);
                        }
                    }
                    assert(self@ =~= old_self@.insert(km, v));
                }
            },
            None => {
                self.entries.push((k, v));
                proof {
                    let n = old_self.entries@.len();
                    assert(self.key_models() =~= old_self.key_models().push(km));
                    assert(!old_self.key_models().contains(km)) by {
                        if old_self.key_models().contains(km) {
                            let j = choose|j: int| 0 <= j < old_self.key_models().len() && old_self.key_models()[j] == km;
                            assert(old_self.entries@[j].0.model() == km);
                        }
                    }
                    assert forall|a: int, b: int| 0 <= a < b < self.key_models().len() implies self.key_models()[a] != self.key_models()[b] by {
                        if b == n {
                            assert(old_self.key_models()[a] == self.key_models()[a]);
                        }
                    }
                    assert forall|q: K::Model| #[trigger] self@.dom().contains(q) == old_self@.insert(km, v).dom().contains(q) by {
                        if self.has(q) {
                            let j = self.position(q);
                            if j < n {
                                assert(old_self.entries@[j].0.model() == q);
                            }
                        }
                        if old_self.has(q) {
                            let j = old_self.position(q);
                            assert(self.entries@[j].0.model() == q);
                        }
                        if q == km {
                            assert(self.entries@[n as int].0.model() == q);
                        }
                    }
                    assert forall|q: K::Model| #[trigger] self@.dom().contains(q) implies self@[q] == old_self@.insert(km, v)[q] by {
                        let j = self.position(q);
                        self.lemma_position(j);
                        if q != km {
                            old_self.lemma_position(j);
                        }
                    }
                    assert(self@ =~= old_self@.insert(km, v));
                }
            },
        }
    }

    /// Removes the entry under `k`, if any, keeping the order of the others.
    pub fn remove(&mut self, k: &K) -> (r: Option<V>)
        requires
            old(self).wf(),
        ensures
            final(self).wf(),
            final(self)@ == old(self)@.remove(k.model()),
            match r {
                Some(v) => old(self)@.dom().contains(k.model()) && old(self)@[k.model()] == v,
                None => !old(self)@.dom().contains(k.model()),
            },
    {
        let ghost km = k.model();
        let ghost old_self = *self;
        match self.find(k) {
            Some(i) => {
                let (_, v) = self.entries.remove(i);
                proof {
                    old_self.lemma_position(i as int);
                    assert(self.key_models() =~= old_self.key_models().remove(i as int));
                    assert forall|a: int, b: int| 0 <= a < b < self.key_models().len() implies self.key_models()[a] != self.key_models()[b] by {
                        let a2 = if a < i { a } else { a + 1 };
                        let b2 = if b < i { b } else { b + 1 };
                        assert(self.key_models()[a] == old_self.key_models()[a2]);
                        assert(self.key_models()[b] == old_self.key_models()[b2]);
                    }
                    assert forall|q: K::Model| #[trigger] self@.dom().contains(q) == old_self@.remove(km).dom().contains(q) by {
                        if self.has(q) {
                            let j = self.position(q);
                            let j2 = if j < i { j } else { j + 1 };
                            assert(old_self.entries@[j2].0.model() == q);
                            assert(self.key_models()[j] == old_self.key_models()[j2]);
                            if q == km {
                                assert(old_self.key_models()[i as int] == km);
                            }
                        }
                        if old_self.has(q) && q != km {
                            let j = old_self.position(q);
                            assert(j != i);
                            let j2 = if j < i { j } else { j - 1 };
                            assert(self.entries@[j2].0.model() == q);
                        }
                    }
                    assert forall|q: K::Model| #[trigger] self@.dom().contains(q) implies self@[q] == old_self@.remove(km)[q] by {
                        let j = self.position(q);
                        self.lemma_position(j);
                        let j2 = if j < i { j } else { j + 1 };
                        assert(self.entries@[j] == old_self.entries@[j2]);
                        old_self.lemma_position(j2);
                    }
                    assert(self@ =~= old_self@.remove(km));
                }
                Some(v)
            },
            None => {
                proof {
                    assert(self@ =~= old_self@.remove(km));
                }
                None
            },
        }
    }

    /// Removes every entry.
    pub fn clear(&mut self)
        ensures
            final(self).wf(),
            final(self)@ == Map::<K::Model, V>::empty(),
            final(self).entry_seq() == Seq::<(K, V)>::empty(),
    {
        self.entries.clear();
        proof {
            assert(self.key_models() =~= Seq::<K::Model>::empty());
            assert(self@ =~= Map::<K::Model, V>::empty());
        }
    }

    /// The entries in insertion order.
    pub fn entries(&self) -> (r: &Vec<(K, V)>)
        ensures
            r@ == self.entry_seq(),
    {
        &self.entries
    }

    /// Every entry of the sequence is in the map, under its key.
    pub proof fn lemma_entry_in_view(&self, i: int)
        requires
            self.wf(),
            0 <= i < self.entry_seq().len(),
        ensures
            self@.dom().contains(self.entry_seq()[i].0.model()),
            self@[self.entry_seq()[i].0.model()] == self.entry_seq()[i].1,
    {
        self.lemma_position(i);
    }

    /// Replacing the value of the entry under `km` replaces the value under
    /// that key.
    pub proof fn lemma_value_replaced(a: Self, b: Self, km: K::Model)
        requires
            a.wf(),
            a@.dom().contains(km),
            b.entry_seq() == a.entry_seq().update(a.position(km), (a.entry_seq()[a.position(km)].0, b.entry_seq()[a.position(km)].1)),
        ensures
            b.wf(),
            b@ == a@.insert(km, b.entry_seq()[a.position(km)].1),
    {
        let i = a.position(km);
        let w = b.entries@[i].1;
        assert(b.key_models() =~= a.key_models());
        a.lemma_position(i);
        assert(b.entries@[i].0.model() == km);
        assert forall|q: K::Model| #[trigger] b@.dom().contains(q) == a@.insert(km, w).dom().contains(q) by {
            if b.has(q) {
                let j = b.position(q);
                assert(a.entries@[j].0.model() == q);
            }
            if a.has(q) {
                let j = a.position(q);
                assert(b.entries@[j].0.model() == q);
            }
        }
        assert forall|q: K::Model| #[trigger] b@.dom().contains(q) implies b@[q] == a@.insert(km, w)[q] by {
            let j = b.position(q);
            b.lemma_position(j);
            if q != km {
                assert(j != i);
                a.lemma_position(j);
            } else {
                b.lemma_position(i);
            }
        }
        assert(b@ =~= a@.insert(km, w));
    }

    /// The value under `k`, to change in place; `lemma_value_replaced`
    /// turns the entry-level relation into the map-level one.
    pub fn get_mut(&mut self, k: &K) -> (r: Option<&mut V>)
        requires
            old(self).wf(),
        ensures
            match r {
                Some(v) => old(self)@.dom().contains(k.model()) && *v == old(self)@[k.model()]
                    && final(self).entry_seq() == old(self).entry_seq().update(
                    old(self).position(k.model()),
                    (old(self).entry_seq()[old(self).position(k.model())].0, *final(v)),
                ),
                None => !old(self)@.dom().contains(k.model()) && *final(self) == *old(self),
            },
    {
        match self.find(k) {
            Some(i) => {
                proof { self.lemma_position(i as int); }
                Some(&mut self.entries[i].1)
            }
            None => None,
        }
    }

    /// The key models are those of the entries, in order.
    pub proof fn lemma_key_models(&self)
        ensures
            self.key_models().len() == self.entry_seq().len(),
            forall|i: int| 0 <= i < self.entry_seq().len() ==> #[trigger] self.key_models()[i] == self.entry_seq()[i].0.model(),
            self.wf() == self.key_models().no_duplicates(),
    {
    }

    /// No two entries have keys with the same model.
    pub proof fn lemma_keys_distinct(&self, a: int, b: int)
        requires
            self.wf(),
            0 <= a < self.entry_seq().len(),
            0 <= b < self.entry_seq().len(),
            a != b,
        ensures
            self.entry_seq()[a].0.model() != self.entry_seq()[b].0.model(),
    {
        assert(self.key_models()[a] == self.entries@[a].0.model());
        assert(self.key_models()[b] == self.entries@[b].0.model());
    }

    /// Every key of the map is the key of some entry of the sequence.
    pub proof fn lemma_view_key_in_entries(&self, k: K::Model)
        requires
            self.wf(),
            self@.dom().contains(k),
        ensures
            0 <= self.position(k) < self.entry_seq().len(),
            self.entry_seq()[self.position(k)].0.model() == k,
            self@[k] == self.entry_seq()[self.position(k)].1,
    {
    }
}

impl<V> KeyedVec<&'static str, V> {
    /// Index of the entry whose key has the text of `q`, if any.
    pub fn find_text(&self, q: &str) -> (r: Option<usize>)
        requires
            self.wf(),
        ensures
            match r {
                Some(i) => i < self.entry_seq().len() && self.entry_seq()[i as int].0@ == q@
                    && self.position(q@) == i,
                None => !self@.dom().contains(q@),
            },
    {
        let mut i: usize = 0;
        while i < self.entries.len()
            invariant
                self.wf(),
                i <= self.entries@.len(),
                forall|j: int| 0 <= j < i ==> self.entries@[j].0@ != q@,
            decreases self.entries@.len() - i,
        {
            if str_eq(self.entries[i].0, q) {
                proof {
                    self.lemma_position(i as int);
                }
                return Some(i);
            }
            i = i + 1;
        }
        None
    }

    /// The value under the key with the text of `q`.
    pub fn get_text(&self, q: &str) -> (r: Option<&V>)
        requires
            self.wf(),
        ensures
            match r {
                Some(v) => self@.dom().contains(q@) && self@[q@] == *v,
                None => !self@.dom().contains(q@),
            },
    {
        match self.find_text(q) {
            Some(i) => {
                proof {
                    self.lemma_position(i as int);
                }
                Some(&self.entries[i].1)
            },
            None => None,
        }
    }

    /// The keys, in insertion order.
    pub fn keys(&self) -> (r: Vec<&'static str>)
        requires
            self.wf(),
        ensures
            r@.map_values(|x: &'static str| x@) == self.key_models(),
            r@.map_values(|x: &'static str| x@).no_duplicates(),
            r@.map_values(|x: &'static str| x@).to_set() == self@.dom(),
    {
        let mut r: Vec<&'static str> = Vec::new();
        let mut i: usize = 0;
        while i < self.entries.len()
            invariant
                i <= self.entries@.len(),
                r@.len() == i,
                forall|k: int| 0 <= k < i ==> r@[k] == self.entries@[k].0,
            decreases self.entries@.len() - i,
        {
            r.push(self.entries[i].0);
            i = i + 1;
        }
        proof {
            assert(r@.map_values(|x: &'static str| x@) =~= self.key_models());
            self.lemma_view_len();
        }
        r
    }
}

} // verus!
