//! A small map kept as a list of entries, with at most one entry for each key.

use vstd::prelude::*;

verus! {

/// A value that can be the key of a [`Table`].
pub trait Key: Sized {
    /// What two keys have in common when they name the same entry.
    type Model;

    spec fn model(&self) -> Self::Model;

    fn same_key(&self, other: &Self) -> (r: bool)
        ensures
            r == (self.model() == other.model()),
    ;
}

impl Key for String {
    type Model = Seq<char>;

    open spec fn model(&self) -> Seq<char> {
        self@
    }

    fn same_key(&self, other: &Self) -> (r: bool) {
        *self == *other
    }
}

impl Key for u32 {
    type Model = u32;

    open spec fn model(&self) -> u32 {
        *self
    }

    fn same_key(&self, other: &Self) -> (r: bool) {
        *self == *other
    }
}

impl Key for u64 {
    type Model = u64;

    open spec fn model(&self) -> u64 {
        *self
    }

    fn same_key(&self, other: &Self) -> (r: bool) {
        *self == *other
    }
}

impl Key for u128 {
    type Model = u128;

    open spec fn model(&self) -> u128 {
        *self
    }

    fn same_key(&self, other: &Self) -> (r: bool) {
        *self == *other
    }
}

/// A map from keys to values.
pub struct Table<K: Key, V> {
    entries: Vec<(K, V)>,
}

impl<K: Key, V> View for Table<K, V> {
    type V = Map<K::Model, V>;

    closed spec fn view(&self) -> Map<K::Model, V> {
        Map::new(
            |k: K::Model| exists|i: int| self.at(i, k),
            |k: K::Model| self.entries@[choose|i: int| self.at(i, k)].1,
        )
    }
}

impl<K: Key, V> Table<K, V> {
    spec fn at(&self, i: int, k: K::Model) -> bool {
        0 <= i < self.entries@.len() && self.entries@[i].0.model() == k
    }

    /// The keys, each once, in the order in which they are walked.
    pub closed spec fn keys(&self) -> Seq<K::Model> {
        Seq::new(self.entries@.len(), |i: int| self.entries@[i].0.model())
    }

    /// No key has two entries.
    pub closed spec fn wf(&self) -> bool {
        forall|i: int, j: int|
            #![trigger self.entries@[i], self.entries@[j]]
            0 <= i < j < self.entries@.len() ==> self.entries@[i].0.model()
                != self.entries@[j].0.model()
    }

    /// The keys that are walked are the keys of the map, each once.
    pub proof fn lemma_keys(&self)
        requires
            self.wf(),
        ensures
            self.keys().no_duplicates(),
            forall|k: K::Model| #[trigger] self.keys().contains(k) <==> self@.dom().contains(k),
            self.keys().to_set() == self@.dom(),
            self.keys().len() == self@.dom().len(),
            self@.dom().finite(),
    {
        assert forall|k: K::Model| #[trigger] self.keys().contains(k) implies self@.dom().contains(
            k,
        ) by {
            let i = choose|i: int| 0 <= i < self.keys().len() && self.keys()[i] == k;
            assert(self.at(i, k));
        }
        assert forall|k: K::Model| self@.dom().contains(k) implies #[trigger] self.keys().contains(
            k,
        ) by {
            let i = choose|i: int| self.at(i, k);
            assert(self.keys()[i] == k);
        }
        assert(self.keys().to_set() =~= self@.dom());
        self.keys().unique_seq_to_set();
    }

    proof fn lemma_at(&self, i: int)
        requires
            self.wf(),
            0 <= i < self.entries@.len(),
        ensures
            self@.dom().contains(self.entries@[i].0.model()),
            self@[self.entries@[i].0.model()] == self.entries@[i].1,
    {
        let k = self.entries@[i].0.model();
        assert(self.at(i, k));
        let j = choose|j: int| self.at(j, k);
        assert(self.entries@[j].0.model() == self.entries@[i].0.model());
        assert(i == j);
    }

    /// An empty map.
    pub fn new() -> (r: Self)
        ensures
            r.wf(),
            r@ == Map::<K::Model, V>::empty(),
    {
        let r = Table { entries: Vec::new() };
        assert(r@ =~= Map::<K::Model, V>::empty());
        r
    }

    /// The number of entries.
    pub fn len(&self) -> (r: usize)
        requires
            self.wf(),
        ensures
            r == self@.dom().len(),
            r == self.keys().len(),
    {
        proof {
            self.lemma_keys();
        }
        self.entries.len()
    }

    fn find(&self, key: &K) -> (r: Option<usize>)
        requires
            self.wf(),
        ensures
            match r {
                Some(i) => i < self.entries@.len() && self.entries@[i as int].0.model() == key.model()
                    && self@.dom().contains(key.model()) && self@[key.model()]
                    == self.entries@[i as int].1,
                None => !self@.dom().contains(key.model()),
            },
    {
        let mut i: usize = 0;
        while i < self.entries.len()
            invariant
                self.wf(),
                i <= self.entries@.len(),
                forall|j: int| 0 <= j < i ==> #[trigger] self.entries@[j].0.model() != key.model(),
            decreases self.entries.len() - i,
        {
            if self.entries[i].0.same_key(key) {
                proof {
                    self.lemma_at(i as int);
                }
                return Some(i);
            }
            i += 1;
        }
        proof {
            if self@.dom().contains(key.model()) {
                let j = choose|j: int| self.at(j, key.model());
                assert(self.entries@[j].0.model() == key.model());
            }
        }
        None
    }

    /// Whether there is an entry for `key`.
    pub fn contains(&self, key: &K) -> (r: bool)
        requires
            self.wf(),
        ensures
            r == self@.dom().contains(key.model()),
    {
        self.find(key).is_some()
    }

    /// The value of `key`.
    pub fn get(&self, key: &K) -> (r: Option<&V>)
        requires
            self.wf(),
        ensures
            match r {
                Some(v) => self@.dom().contains(key.model()) && *v == self@[key.model()],
                None => !self@.dom().contains(key.model()),
            },
    {
        match self.find(key) {
            Some(i) => Some(&self.entries[i].1),
            None => None,
        }
    }

    /// The value of `key`, to be changed in place.
    pub fn get_mut(&mut self, key: &K) -> (r: Option<&mut V>)
        requires
            old(self).wf(),
        ensures
            final(self).wf(),
            match r {
                Some(v) => {
                    &&& old(self)@.dom().contains(key.model())
                    &&& *v == old(self)@[key.model()]
                    &&& final(self)@ == old(self)@.insert(key.model(), *final(v))
                    &&& final(self).keys() == old(self).keys()
                },
                None => !old(self)@.dom().contains(key.model()) && *final(self) == *old(self),
            },
    {
        match self.find(key) {
            Some(i) => {
                let ghost a = *self;
                proof {
                    assert forall|b: Self|
                        #![trigger b@]
                        #![trigger b.wf()]
                        b.entries@ == a.entries@.update(
                            i as int,
                            (a.entries@[i as int].0, b.entries@[i as int].1),
                        ) implies b.wf() && b@ == a@.insert(key.model(), b.entries@[i as int].1)
                        && b.keys() == a.keys() by {
                        lemma_one_changed(a, b, i as int);
                    }
                }
                Some(&mut self.entries[i].1)
            },
            None => None,
        }
    }

    /// The key at position `i` of the walk.
    pub fn key_at(&self, i: usize) -> (r: &K)
        requires
            self.wf(),
            i < self.keys().len(),
        ensures
            r.model() == self.keys()[i as int],
            self@.dom().contains(r.model()),
    {
        proof {
            self.lemma_at(i as int);
        }
        &self.entries[i].0
    }

    /// The value at position `i` of the walk.
    pub fn value_at(&self, i: usize) -> (r: &V)
        requires
            self.wf(),
            i < self.keys().len(),
        ensures
            self@.dom().contains(self.keys()[i as int]),
            *r == self@[self.keys()[i as int]],
    {
        proof {
            self.lemma_at(i as int);
        }
        &self.entries[i].1
    }

    /// Sets the value of `key` and returns the one it had.
    pub fn insert(&mut self, key: K, value: V) -> (r: Option<V>)
        requires
            old(self).wf(),
        ensures
            final(self).wf(),
            final(self)@ == old(self)@.insert(key.model(), value),
            match r {
                Some(v) => old(self)@.dom().contains(key.model()) && v == old(self)@[key.model()],
                None => !old(self)@.dom().contains(key.model()),
            },
    {
        match self.find(&key) {
            Some(i) => {
                let mut v = value;
                std::mem::swap(&mut v, &mut self.entries[i].1);
                proof {
                    lemma_one_changed(*old(self), *self, i as int);
                }
                Some(v)
            },
            None => {
                let ghost k0 = key.model();
                self.entries.push((key, value));
                proof {
                    let n = old(self).entries@.len() as int;
                    assert forall|i: int, j: int|
                        #![trigger self.entries@[i], self.entries@[j]]
                        0 <= i < j < self.entries@.len() implies self.entries@[i].0.model()
                        != self.entries@[j].0.model() by {
                        if j == n {
                            old(self).lemma_at(i);
                        }
                    }
                    assert(self.wf());
                    assert forall|k: K::Model| self@.dom().contains(k) <==> old(self)@.insert(
                        k0,
                        value,
                    ).dom().contains(k) by {
                        if self@.dom().contains(k) {
                            let j = choose|j: int| self.at(j, k);
                            if j < n {
                                old(self).lemma_at(j);
                            }
                        }
                        if k == k0 {
                            self.lemma_at(n);
                        } else if old(self)@.dom().contains(k) {
                            let j = choose|j: int| old(self).at(j, k);
                            assert(self.at(j, k));
                        }
                    }
                    assert forall|k: K::Model| self@.dom().contains(k) implies #[trigger] self@[k]
                        == old(self)@.insert(k0, value)[k] by {
                        let j = choose|j: int| self.at(j, k);
                        self.lemma_at(j);
                        if j < n {
                            old(self).lemma_at(j);
                        }
                    }
                    assert(self@ =~= old(self)@.insert(k0, value));
                }
                None
            },
        }
    }

    /// Takes some entry out of the map.
    pub fn pop(&mut self) -> (r: Option<(K, V)>)
        requires
            old(self).wf(),
        ensures
            final(self).wf(),
            match r {
                Some(e) => {
                    &&& old(self)@.dom().contains(e.0.model())
                    &&& e.1 == old(self)@[e.0.model()]
                    &&& final(self)@ == old(self)@.remove(e.0.model())
                    &&& final(self).keys() == old(self).keys().drop_last()
                    &&& old(self).keys().last() == e.0.model()
                    &&& old(self).keys().len() > 0
                },
                None => old(self)@ == Map::<K::Model, V>::empty() && final(self)@ == old(self)@
                    && final(self).keys() == old(self).keys() && old(self).keys().len() == 0,
            },
    {
        match self.entries.pop() {
            None => {
                assert(self@ =~= Map::<K::Model, V>::empty());
                None
            },
            Some(e) => {
                proof {
                    let n = self.entries@.len() as int;
                    let a = *old(self);
                    a.lemma_at(n);
                    assert forall|p: int, q: int|
                        #![trigger self.entries@[p], self.entries@[q]]
                        0 <= p < q < n implies self.entries@[p].0.model()
                        != self.entries@[q].0.model() by {
                        assert(a.entries@[p] == self.entries@[p] && a.entries@[q]
                            == self.entries@[q]);
                    }
                    assert(self.wf());
                    let k0 = e.0.model();
                    assert forall|k: K::Model| self@.dom().contains(k) <==> a@.remove(
                        k0,
                    ).dom().contains(k) by {
                        if self@.dom().contains(k) {
                            let j = choose|j: int| self.at(j, k);
                            a.lemma_at(j);
                            assert(a.entries@[j].0.model() != a.entries@[n].0.model());
                        }
                        if a@.dom().contains(k) && k != k0 {
                            let j = choose|j: int| a.at(j, k);
                            assert(self.at(j, k));
                        }
                    }
                    assert forall|k: K::Model| self@.dom().contains(k) implies #[trigger] self@[k]
                        == a@.remove(k0)[k] by {
                        let j = choose|j: int| self.at(j, k);
                        self.lemma_at(j);
                        a.lemma_at(j);
                    }
                    assert(self@ =~= a@.remove(k0));
                    assert(self.keys() =~= a.keys().drop_last());
                    assert(a.entries@[n] == e);
                    assert(a.keys()[n] == k0);
                }
                Some(e)
            },
        }
    }

    /// Removes the entry of `key` and returns its value.
    pub fn remove(&mut self, key: &K) -> (r: Option<V>)
        requires
            old(self).wf(),
        ensures
            final(self).wf(),
            final(self)@ == old(self)@.remove(key.model()),
            match r {
                Some(v) => old(self)@.dom().contains(key.model()) && v == old(self)@[key.model()],
                None => !old(self)@.dom().contains(key.model()),
            },
    {
        match self.find(key) {
            Some(i) => {
                let e = self.entries.remove(i);
                proof {
                    let n = self.entries@.len() as int;
                    let i = i as int;
                    assert forall|a: int, b: int|
                        #![trigger self.entries@[a], self.entries@[b]]
                        0 <= a < b < n implies self.entries@[a].0.model()
                        != self.entries@[b].0.model() by {
                        let a0 = if a < i { a } else { a + 1 };
                        let b0 = if b < i { b } else { b + 1 };
                        assert(self.entries@[a] == old(self).entries@[a0]);
                        assert(self.entries@[b] == old(self).entries@[b0]);
                    }
                    assert(self.wf());
                    assert forall|k: K::Model| self@.dom().contains(k) <==> old(self)@.remove(
                        key.model(),
                    ).dom().contains(k) by {
                        if self@.dom().contains(k) {
                            let j = choose|j: int| self.at(j, k);
                            let j0 = if j < i { j } else { j + 1 };
                            old(self).lemma_at(j0);
                            assert(old(self).entries@[j0].0.model() != old(self).entries@[i].0.model());
                        }
                        if k != key.model() && old(self)@.dom().contains(k) {
                            let j0 = choose|j: int| old(self).at(j, k);
                            let j = if j0 < i { j0 } else { j0 - 1 };
                            assert(self.at(j, k));
                        }
                    }
                    assert forall|k: K::Model| self@.dom().contains(k) implies #[trigger] self@[k]
                        == old(self)@.remove(key.model())[k] by {
                        let j = choose|j: int| self.at(j, k);
                        let j0 = if j < i { j } else { j + 1 };
                        self.lemma_at(j);
                        old(self).lemma_at(j0);
                    }
                    assert(self@ =~= old(self)@.remove(key.model()));
                }
                Some(e.1)
            },
            None => {
                assert(self@ =~= self@.remove(key.model()));
                None
            },
        }
    }
}

proof fn lemma_one_changed<K: Key, V>(a: Table<K, V>, b: Table<K, V>, i: int)
    requires
        a.wf(),
        0 <= i < a.entries@.len(),
        b.entries@ == a.entries@.update(i, (a.entries@[i].0, b.entries@[i].1)),
    ensures
        b.wf(),
        b@ == a@.insert(a.entries@[i].0.model(), b.entries@[i].1),
        b.keys() == a.keys(),
{
    let k0 = a.entries@[i].0.model();
    let v = b.entries@[i].1;
    assert forall|j: int| 0 <= j < a.entries@.len() implies (#[trigger] b.entries@[j]).0.model()
        == a.entries@[j].0.model() by {}
    assert forall|p: int, q: int|
        #![trigger b.entries@[p], b.entries@[q]]
        0 <= p < q < b.entries@.len() implies b.entries@[p].0.model()
        != b.entries@[q].0.model() by {
        assert(a.entries@[p].0.model() != a.entries@[q].0.model());
    }
    assert(b.wf());
    assert forall|k: K::Model| b@.dom().contains(k) <==> a@.insert(k0, v).dom().contains(k) by {
        if a@.dom().contains(k) {
            let j = choose|j: int| a.at(j, k);
            assert(b.at(j, k));
        }
        if b@.dom().contains(k) {
            let j = choose|j: int| b.at(j, k);
            assert(a.at(j, k));
        }
        b.lemma_at(i);
    }
    assert forall|k: K::Model| b@.dom().contains(k) implies #[trigger] b@[k] == a@.insert(
        k0,
        v,
    )[k] by {
        let j = choose|j: int| b.at(j, k);
        b.lemma_at(j);
        a.lemma_at(j);
        assert(b.entries@[i].0.model() == k0);
    }
    assert(b@ =~= a@.insert(k0, v));
    assert(b.keys() =~= a.keys());
}

} // verus!
