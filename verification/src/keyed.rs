//! A small map for keys that can only be compared.

use vstd::prelude::*;

verus! {

/// A key of a `KeyMap`: a value that can be compared with another.
pub trait Key: Sized {
    /// Whether the two keys are the same.
    fn same(&self, other: &Self) -> (same: bool)
        ensures
            same == (*self == *other),
    ;
}

/// One entry of a `KeyMap`.
pub struct Slot<K, V> {
    key: K,
    value: V,
}

/// A finite map, kept as a list of entries in which no key occurs twice.
/// The keys need nothing but a comparison.
pub struct KeyMap<K, V> {
    slots: Vec<Slot<K, V>>,
}

impl<K, V> KeyMap<K, V> {
    /// The index of the entry of `key`, if there is one.
    spec fn index_of(self, key: K) -> Option<int> {
        if exists|i: int| 0 <= i < self.slots@.len() && (#[trigger] self.slots@[i]).key == key {
            Some(choose|i: int| 0 <= i < self.slots@.len() && (#[trigger] self.slots@[i]).key == key)
        } else {
            None
        }
    }

    /// No key occurs twice.
    pub closed spec fn wf(self) -> bool {
        forall|i: int, j: int|
            0 <= i < j < self.slots@.len() ==> (#[trigger] self.slots@[i]).key != (#[trigger] self.slots@[j]).key
    }

    /// In a list without repeated keys the entry of a key is where the key
    /// is.
    proof fn lemma_find(self, i: int)
        requires
            self.wf(),
            0 <= i < self.slots@.len(),
        ensures
            self.index_of(self.slots@[i].key) == Some(i),
    {
        let key = self.slots@[i].key;
        let found = choose|j: int| 0 <= j < self.slots@.len() && (#[trigger] self.slots@[j]).key == key;
        assert(self.slots@[found].key == key);
        if found < i {
            assert(self.slots@[found].key != self.slots@[i].key);
        }
        if i < found {
            assert(self.slots@[i].key != self.slots@[found].key);
        }
    }
}

impl<K, V> KeyMap<K, V> {
    /// `after` is this map with another value in the entry at index `i`.
    spec fn changed_at(self, after: Self, i: int) -> bool {
        &&& 0 <= i < self.slots@.len()
        &&& after.slots@.len() == self.slots@.len()
        &&& after.slots@[i].key == self.slots@[i].key
        &&& forall|j: int| 0 <= j < self.slots@.len() && j != i ==> after.slots@[j] == self.slots@[j]
    }

    /// Changing the value of an entry is `insert` under the key of the
    /// entry.
    proof fn lemma_changed_at(self, after: Self, i: int)
        requires
            self.wf(),
            self.changed_at(after, i),
        ensures
            after.wf(),
            after@ == self@.insert(self.slots@[i].key, after.slots@[i].value),
    {
        assert forall|j: int| 0 <= j < self.slots@.len() implies (#[trigger] after.slots@[j]).key
            == self.slots@[j].key by {}
        assert(after.wf()) by {
            assert forall|a: int, b: int| 0 <= a < b < after.slots@.len() implies (#[trigger] after.slots@[a]).key
                != (#[trigger] after.slots@[b]).key by {
                assert(self.slots@[a].key != self.slots@[b].key);
            }
        }
        let expected = self@.insert(self.slots@[i].key, after.slots@[i].value);
        assert forall|key: K| #[trigger] after@.contains_key(key) == expected.contains_key(key) by {
            if self.index_of(key) is Some {
                let j = self.index_of(key)->0;
                assert(after.slots@[j].key == key);
            }
            if after.index_of(key) is Some {
                let j = after.index_of(key)->0;
                assert(self.slots@[j].key == key);
            }
            self.lemma_find(i);
        }
        assert forall|key: K| after@.contains_key(key) implies #[trigger] after@[key] == expected[key] by {
            let j = after.index_of(key)->0;
            after.lemma_find(j);
            assert(self.slots@[j].key == key);
            self.lemma_find(j);
        }
        assert(after@ =~= expected);
    }
}

impl<K, V> KeyMap<K, V> {
    /// Adding an entry for a key that has none is `insert`.
    proof fn lemma_pushed(self, after: Self)
        requires
            self.wf(),
            after.slots@.len() == self.slots@.len() + 1,
            forall|j: int| 0 <= j < self.slots@.len() ==> after.slots@[j] == self.slots@[j],
            self.index_of(after.slots@.last().key) is None,
        ensures
            after.wf(),
            after@ == self@.insert(after.slots@.last().key, after.slots@.last().value),
    {
        let last = self.slots@.len() as int;
        let added = after.slots@[last];
        assert(after.wf()) by {
            assert forall|a: int, b: int| 0 <= a < b < after.slots@.len() implies (#[trigger] after.slots@[a]).key
                != (#[trigger] after.slots@[b]).key by {
                if b < last {
                    assert(self.slots@[a].key != self.slots@[b].key);
                } else {
                    assert(self.slots@[a].key != added.key);
                }
            }
        }
        let expected = self@.insert(added.key, added.value);
        after.lemma_find(last);
        assert forall|key: K| #[trigger] after@.contains_key(key) == expected.contains_key(key) by {
            if self.index_of(key) is Some {
                let j = self.index_of(key)->0;
                assert(after.slots@[j].key == key);
            }
            if after.index_of(key) is Some {
                let j = after.index_of(key)->0;
                if j < last {
                    assert(self.slots@[j].key == key);
                }
            }
        }
        assert forall|key: K| after@.contains_key(key) implies #[trigger] after@[key] == expected[key] by {
            let j = after.index_of(key)->0;
            after.lemma_find(j);
            if j < last {
                assert(self.slots@[j].key == key);
                self.lemma_find(j);
            }
        }
        assert(after@ =~= expected);
    }
}

impl<K, V> View for KeyMap<K, V> {
    type V = Map<K, V>;

    closed spec fn view(&self) -> Map<K, V> {
        Map::new(
            |key: K| self.index_of(key) is Some,
            |key: K| self.slots@[self.index_of(key)->0].value,
        )
    }
}

impl<K: Key, V> KeyMap<K, V> {
    /// The empty map.
    pub fn new() -> (map: Self)
        ensures
            map.wf(),
            map@ == Map::<K, V>::empty(),
    {
        let map = KeyMap { slots: Vec::new() };
        assert(map@ =~= Map::<K, V>::empty());
        map
    }

    /// Whether the map has no entry.
    pub fn is_empty(&self) -> (empty: bool)
        requires
            self.wf(),
        ensures
            empty == (self@ == Map::<K, V>::empty()),
    {
        let empty = self.slots.len() == 0;
        proof {
            if empty {
                assert(self@ =~= Map::<K, V>::empty());
            } else {
                self.lemma_find(0);
                assert(self@.contains_key(self.slots@[0].key));
            }
        }
        empty
    }

    /// The index of the entry of `key`.
    fn find(&self, key: &K) -> (found: Option<usize>)
        requires
            self.wf(),
        ensures
            match found {
                Some(i) => i < self.slots@.len() && self.slots@[i as int].key == *key && self.index_of(*key)
                    == Some(i as int),
                None => self.index_of(*key) is None,
            },
    {
        let count = self.slots.len();
        let mut i: usize = 0;
        while i < count
            invariant
                i <= count,
                count == self.slots@.len(),
                self.wf(),
                forall|j: int| 0 <= j < i ==> (#[trigger] self.slots@[j]).key != *key,
            decreases count - i,
        {
            if self.slots[i].key.same(key) {
                proof {
                    self.lemma_find(i as int);
                }
                return Some(i);
            }
            i = i + 1;
        }
        None
    }

    /// Whether `key` has an entry.
    pub fn contains_key(&self, key: &K) -> (present: bool)
        requires
            self.wf(),
        ensures
            present == self@.contains_key(*key),
    {
        self.find(key).is_some()
    }

    /// The value of `key`, if it has an entry.
    pub fn get(&self, key: &K) -> (value: Option<&V>)
        requires
            self.wf(),
        ensures
            match value {
                Some(value) => self@.contains_key(*key) && *value == self@[*key],
                None => !self@.contains_key(*key),
            },
    {
        match self.find(key) {
            Some(i) => Some(&self.slots[i].value),
            None => None,
        }
    }

    /// The value of `key`, to be changed in place, if it has an entry. The
    /// map ends up with whatever the value is changed to, under the same
    /// key, and is otherwise as it was.
    pub fn get_mut(&mut self, key: &K) -> (value: Option<&mut V>)
        requires
            old(self).wf(),
        ensures
            final(self).wf(),
            value is Some == old(self)@.contains_key(*key),
            value matches Some(value) ==> *value == old(self)@[*key],
            value matches Some(value) ==> final(self)@ == old(self)@.insert(*key, *final(value)),
            value is None ==> final(self)@ == old(self)@,
    {
        match self.find(key) {
            Some(i) => {
                let value = &mut self.slots[i].value;
                proof {
                    let after = after_borrow(*self);
                    assert(after.slots@[i as int].value == *final(value));
                    old(self).lemma_changed_at(after, i as int);
                }
                Some(value)
            },
            None => None,
        }
    }

    /// Puts `value` under `key`, in place of the value that `key` may have
    /// had. Returns whether there was one.
    pub fn insert(&mut self, key: K, value: V) -> (replaced: bool)
        requires
            old(self).wf(),
        ensures
            final(self).wf(),
            final(self)@ == old(self)@.insert(key, value),
            replaced == old(self)@.contains_key(key),
    {
        match self.find(&key) {
            Some(i) => {
                self.slots[i].value = value;
                proof {
                    old(self).lemma_changed_at(*self, i as int);
                }
                true
            },
            None => {
                self.slots.push(Slot { key, value });
                proof {
                    old(self).lemma_pushed(*self);
                }
                false
            },
        }
    }
}

impl<K: Key, V: Copy> KeyMap<K, V> {
    /// Replaces every value by what `change` makes of it. The keys stay.
    pub fn map_values<F: Fn(V) -> V>(&mut self, change: F)
        requires
            old(self).wf(),
            forall|value: V| call_requires(change, (value,)),
        ensures
            final(self).wf(),
            final(self)@.dom() == old(self)@.dom(),
            forall|key: K|
                old(self)@.contains_key(key) ==> call_ensures(change, (old(self)@[key],), #[trigger] final(self)@[key]),
    {
        let count = self.slots.len();
        let mut i: usize = 0;
        while i < count
            invariant
                i <= count,
                count == self.slots@.len(),
                count == old(self).slots@.len(),
                old(self).wf(),
                forall|value: V| call_requires(change, (value,)),
                forall|j: int| 0 <= j < count ==> (#[trigger] self.slots@[j]).key == old(self).slots@[j].key,
                forall|j: int|
                    0 <= j < i ==> call_ensures(change, (old(self).slots@[j].value,), (#[trigger] self.slots@[j]).value),
                forall|j: int| i <= j < count ==> (#[trigger] self.slots@[j]).value == old(self).slots@[j].value,
            decreases count - i,
        {
            let value = self.slots[i].value;
            self.slots[i].value = change(value);
            i = i + 1;
        }
        proof {
            old(self).lemma_same_keys(*self);
            assert forall|key: K| old(self)@.contains_key(key) implies call_ensures(
                change,
                (old(self)@[key],),
                #[trigger] self@[key],
            ) by {
                let j = old(self).index_of(key)->0;
                old(self).lemma_find(j);
                self.lemma_find(j);
            }
        }
    }
}

impl<K, V> KeyMap<K, V> {
    /// A list with the same keys in the same places is a map of the same
    /// keys.
    proof fn lemma_same_keys(self, after: Self)
        requires
            self.wf(),
            after.slots@.len() == self.slots@.len(),
            forall|j: int| 0 <= j < self.slots@.len() ==> (#[trigger] after.slots@[j]).key == self.slots@[j].key,
        ensures
            after.wf(),
            after@.dom() == self@.dom(),
    {
        assert(after.wf()) by {
            assert forall|a: int, b: int| 0 <= a < b < after.slots@.len() implies (#[trigger] after.slots@[a]).key
                != (#[trigger] after.slots@[b]).key by {
                assert(self.slots@[a].key != self.slots@[b].key);
            }
        }
        assert forall|key: K| #[trigger] after@.contains_key(key) == self@.contains_key(key) by {
            if self.index_of(key) is Some {
                let j = self.index_of(key)->0;
                assert(after.slots@[j].key == key);
            }
            if after.index_of(key) is Some {
                let j = after.index_of(key)->0;
                assert(self.slots@[j].key == key);
            }
        }
        assert(after@.dom() =~= self@.dom());
    }
}

impl Key for u32 {
    fn same(&self, other: &Self) -> (same: bool) {
        *self == *other
    }
}

impl Key for char {
    fn same(&self, other: &Self) -> (same: bool) {
        *self == *other
    }
}

} // verus!
