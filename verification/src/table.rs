//! A small map that remembers the order in which its keys came.

use crate::acp::RpcId;
use crate::text::same_text;
use vstd::prelude::*;

verus! {

/// What a table needs of its keys: equality and a copy, both by the view.
pub trait Key: View + Sized {
    /// Whether two keys are the same.
    fn same_key(&self, other: &Self) -> (r: bool)
        ensures
            r == (self@ == other@),
    ;

    /// A key with the same view.
    fn copy_key(&self) -> (r: Self)
        ensures
            r@ == self@,
    ;
}

impl Key for String {
    fn same_key(&self, other: &Self) -> (r: bool) {
        same_text(self.as_str(), other.as_str())
    }

    fn copy_key(&self) -> (r: Self) {
        self.clone()
    }
}

impl Key for RpcId {
    fn same_key(&self, other: &Self) -> (r: bool) {
        self.same(other)
    }

    fn copy_key(&self) -> (r: Self) {
        self.clone()
    }
}

/// A map from keys to values, with the keys in the order in which they came.
pub struct Table<K: Key, V> {
    entries: Vec<(K, V)>,
}

/// Replacing the value at one place sets the value of that key alone.
proof fn lemma_value_set<K: Key, V>(
    before: Table<K, V>,
    after: Table<K, V>,
    i: int,
    key: K::V,
    value: V,
)
    requires
        before.inv(),
        0 <= i < before.entries@.len(),
        before.keys()[i] == key,
        after.entries@.len() == before.entries@.len(),
        after.entries@[i].0@ == key,
        after.entries@[i].1 == value,
        forall|j: int|
            0 <= j < before.entries@.len() && j != i ==> #[trigger] after.entries@[j]
                == before.entries@[j],
    ensures
        after.inv(),
        after.keys() == before.keys(),
        after.map() == before.map().insert(key, value),
{
    assert(after.keys() =~= before.keys());
    assert(before.keys().index_of(key) == i);
    assert forall|k: K::V| before.keys().contains(k) && k != key implies after.map()[k]
        == before.map()[k] by {
        let j = before.keys().index_of(k);
        assert(after.entries@[j] == before.entries@[j]);
    }
    assert(after.map() =~= before.map().insert(key, value));
}

impl<K: Key, V> Table<K, V> {
    /// The keys in the order in which they came.
    pub closed spec fn keys(self) -> Seq<K::V> {
        Seq::new(self.entries@.len(), |i: int| self.entries@[i].0@)
    }

    /// The values in the order of their keys.
    pub closed spec fn values(self) -> Seq<V> {
        Seq::new(self.entries@.len(), |i: int| self.entries@[i].1)
    }

    /// No key occurs twice, and each key has its value.
    pub open spec fn inv(self) -> bool {
        &&& self.keys().no_duplicates()
        &&& self.keys().len() == self.values().len()
    }

    /// The value of each key.
    pub open spec fn map(self) -> Map<K::V, V> {
        Map::new(
            |k: K::V| self.keys().contains(k),
            |k: K::V| self.values()[self.keys().index_of(k)],
        )
    }

    /// An empty table.
    pub fn new() -> (r: Self)
        ensures
            r.inv(),
            r.keys() == Seq::<K::V>::empty(),
            r.map() == Map::<K::V, V>::empty(),
    {
        let r = Table { entries: Vec::new() };
        assert(r.keys() =~= Seq::<K::V>::empty());
        assert(r.map() =~= Map::<K::V, V>::empty());
        r
    }

    /// How many keys there are.
    pub fn len(&self) -> (r: usize)
        requires
            self.inv(),
        ensures
            r == self.keys().len(),
    {
        self.entries.len()
    }

    /// Whether there is no key.
    pub fn is_empty(&self) -> (r: bool)
        requires
            self.inv(),
        ensures
            r == (self.keys().len() == 0),
            r == (self.map() == Map::<K::V, V>::empty()),
    {
        proof {
            if self.keys().len() == 0 {
                assert(self.map() =~= Map::<K::V, V>::empty());
            } else {
                assert(self.map().dom().contains(self.keys()[0]));
            }
        }
        self.entries.len() == 0
    }

    fn position(&self, key: &K) -> (r: Option<usize>)
        requires
            self.inv(),
        ensures
            match r {
                Some(i) => i < self.keys().len() && self.keys()[i as int] == key@
                    && self.keys().index_of(key@) == i && self.keys().contains(key@),
                None => !self.keys().contains(key@),
            },
    {
        let mut i: usize = 0;
        while i < self.entries.len()
            invariant
                self.inv(),
                i <= self.entries@.len(),
                forall|j: int| 0 <= j < i ==> self.keys()[j] != key@,
            decreases self.entries@.len() - i,
        {
            if self.entries[i].0.same_key(key) {
                assert(self.keys()[i as int] == key@);
                return Some(i);
            }
            i = i + 1;
        }
        None
    }

    /// Whether the key is there.
    pub fn contains_key(&self, key: &K) -> (r: bool)
        requires
            self.inv(),
        ensures
            r == self.map().dom().contains(key@),
            r == self.keys().contains(key@),
    {
        self.position(key).is_some()
    }

    /// The value of a key.
    pub fn get(&self, key: &K) -> (r: Option<&V>)
        requires
            self.inv(),
        ensures
            match r {
                Some(v) => self.map().dom().contains(key@) && *v == self.map()[key@],
                None => !self.map().dom().contains(key@),
            },
    {
        match self.position(key) {
            Some(i) => Some(&self.entries[i].1),
            None => None,
        }
    }

    /// The value of a key, to be changed in place.
    pub fn get_mut(&mut self, key: &K) -> (r: Option<&mut V>)
        requires
            old(self).inv(),
        ensures
            final(self).inv(),
            final(self).keys() == old(self).keys(),
            match r {
                Some(v) => {
                    &&& old(self).map().dom().contains(key@)
                    &&& *v == old(self).map()[key@]
                    &&& final(self).map() == old(self).map().insert(key@, *final(v))
                },
                None => {
                    &&& !old(self).map().dom().contains(key@)
                    &&& final(self).map() == old(self).map()
                },
            },
    {
        match self.position(key) {
            Some(i) => {
                let ghost after = *final(self);
                let e: &mut (K, V) = &mut self.entries[i];
                let v: &mut V = &mut e.1;
                proof {
                    lemma_value_set(*old(self), after, i as int, key@, *final(v));
                }
                Some(v)
            },
            None => None,
        }
    }

    /// The key that came as number `i`.
    pub fn key_at(&self, i: usize) -> (r: &K)
        requires
            self.inv(),
            i < self.keys().len(),
        ensures
            r@ == self.keys()[i as int],
            self.map().dom().contains(r@),
    {
        assert(self.keys()[i as int] == self.entries@[i as int].0@);
        &self.entries[i].0
    }

    /// The value of the key that came as number `i`.
    pub fn value_at(&self, i: usize) -> (r: &V)
        requires
            self.inv(),
            i < self.keys().len(),
        ensures
            *r == self.map()[self.keys()[i as int]],
            *r == self.values()[i as int],
    {
        assert(self.keys().index_of(self.keys()[i as int]) == i);
        &self.entries[i].1
    }

    /// Sets the value of a key. A new key comes last; a key that was there
    /// keeps its place.
    pub fn insert(&mut self, key: K, value: V) -> (r: Option<V>)
        requires
            old(self).inv(),
        ensures
            final(self).inv(),
            final(self).map() == old(self).map().insert(key@, value),
            final(self).keys() == if old(self).keys().contains(key@) {
                old(self).keys()
            } else {
                old(self).keys().push(key@)
            },
            r == if old(self).map().dom().contains(key@) {
                Some(old(self).map()[key@])
            } else {
                None
            },
    {
        match self.position(&key) {
            Some(i) => {
                let ghost before = *self;
                let removed: (K, V) = self.entries.remove(i);
                self.entries.insert(i, (key, value));
                proof {
                    assert(self.entries@ =~= before.entries@.update(i as int, (key, value)));
                    lemma_value_set(before, *self, i as int, key@, value);
                }
                Some(removed.1)
            },
            None => {
                let ghost before = *self;
                self.entries.push((key, value));
                proof {
                    assert(self.keys() =~= before.keys().push(key@));
                    assert(self.values() =~= before.values().push(value));
                    assert forall|k: K::V| before.keys().contains(k) implies self.map()[k]
                        == before.map()[k] by {
                        let j = before.keys().index_of(k);
                        assert(self.keys()[j] == k);
                        assert(self.keys().index_of(k) == j);
                    }
                    assert(self.keys()[before.keys().len() as int] == key@);
                    assert(self.keys().index_of(key@) == before.keys().len());
                    assert forall|k: K::V|
                        #[trigger] self.keys().contains(k) == (before.keys().contains(k) || k
                            == key@) by {
                        if self.keys().contains(k) {
                            let j = self.keys().index_of(k);
                            if j < before.keys().len() {
                                assert(before.keys()[j] == k);
                            }
                        }
                        if before.keys().contains(k) {
                            assert(self.keys()[before.keys().index_of(k)] == k);
                        }
                    }
                    assert(self.map() =~= before.map().insert(key@, value));
                }
                None
            },
        }
    }

    /// Takes a key out.
    pub fn remove(&mut self, key: &K) -> (r: Option<V>)
        requires
            old(self).inv(),
        ensures
            final(self).inv(),
            final(self).map() == old(self).map().remove(key@),
            final(self).keys() == if old(self).keys().contains(key@) {
                old(self).keys().remove(old(self).keys().index_of(key@))
            } else {
                old(self).keys()
            },
            r == if old(self).map().dom().contains(key@) {
                Some(old(self).map()[key@])
            } else {
                None
            },
    {
        match self.position(key) {
            Some(i) => {
                let ghost before = *self;
                let removed: (K, V) = self.entries.remove(i);
                proof {
                    assert(self.keys() =~= before.keys().remove(i as int));
                    assert(self.values() =~= before.values().remove(i as int));
                    assert forall|k: K::V| self.keys().contains(k) implies before.keys().contains(k)
                        && k != key@ && self.map()[k] == before.map()[k] by {
                        let j = self.keys().index_of(k);
                        let j0 = if j < i {
                            j
                        } else {
                            j + 1
                        };
                        assert(before.keys()[j0] == k);
                        assert(before.keys().index_of(k) == j0);
                    }
                    assert forall|k: K::V| before.keys().contains(k) && k != key@ implies #[trigger] self.keys().contains(
                        k,
                    ) by {
                        let j0 = before.keys().index_of(k);
                        let j = if j0 < i {
                            j0
                        } else {
                            j0 - 1
                        };
                        assert(self.keys()[j] == k);
                    }
                    assert(self.map() =~= before.map().remove(key@));
                }
                Some(removed.1)
            },
            None => {
                assert(self.map().remove(key@) =~= self.map());
                None
            },
        }
    }

    /// Takes every key out.
    pub fn clear(&mut self)
        ensures
            final(self).inv(),
            final(self).keys() == Seq::<K::V>::empty(),
            final(self).map() == Map::<K::V, V>::empty(),
    {
        self.entries.clear();
        assert(self.keys() =~= Seq::<K::V>::empty());
        assert(self.map() =~= Map::<K::V, V>::empty());
    }
}

} // verus!
