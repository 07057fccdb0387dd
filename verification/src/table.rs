//! A table from text keys to values, with the keys kept in the order in
//! which they first came. It stands where a hash map keyed by text would,
//! and is what the key-value store of the node is made of.

use vstd::prelude::*;

use crate::text::str_equal;

verus! {

struct Entry<V> {
    key: String,
    value: V,
}

/// A table from text keys to values. No key occurs twice.
pub struct Table<V: View> {
    entries: Vec<Entry<V>>,
}

/// The map that pairs each key with the value at the same position.
pub open spec fn pairing<T>(keys: Seq<Seq<char>>, values: Seq<T>) -> Map<Seq<char>, T> {
    Map::new(|k: Seq<char>| keys.contains(k), |k: Seq<char>| values[keys.index_of(k)])
}

/// In a sequence without duplicates an element is found where it stands.
pub proof fn lemma_index_of_unique(keys: Seq<Seq<char>>, i: int)
    requires
        keys.no_duplicates(),
        0 <= i < keys.len(),
    ensures
        keys.contains(keys[i]),
        keys.index_of(keys[i]) == i,
{
    let j = keys.index_of(keys[i]);
    assert(keys.contains(keys[i]));
    assert(0 <= j < keys.len() && keys[j] == keys[i]);
}

/// A pairing of distinct keys has as many keys as the sequence has.
pub proof fn lemma_keys_count<T>(keys: Seq<Seq<char>>, values: Seq<T>)
    requires
        keys.no_duplicates(),
    ensures
        pairing(keys, values).dom().finite(),
        pairing(keys, values).dom().len() == keys.len(),
{
    let dom = pairing(keys, values).dom();
    assert(dom =~= keys.to_set());
    keys.unique_seq_to_set();
}

impl<V: View> Table<V> {
    #[verifier::type_invariant]
    spec fn keys_are_distinct(&self) -> bool {
        self.keys().no_duplicates()
    }

    /// The keys, in the order in which they were first inserted.
    pub closed spec fn keys(&self) -> Seq<Seq<char>> {
        Seq::new(self.entries@.len(), |i: int| self.entries@[i].key@)
    }

    /// The values, each at the position of its key.
    pub closed spec fn values(&self) -> Seq<V::V> {
        Seq::new(self.entries@.len(), |i: int| self.entries@[i].value@)
    }

    /// The table as a map from keys to what the values hold.
    pub open spec fn view(&self) -> Map<Seq<char>, V::V> {
        pairing(self.keys(), self.values())
    }

    /// An empty table.
    pub fn new() -> (table: Table<V>)
        ensures
            table.keys() == Seq::<Seq<char>>::empty(),
            table@ == Map::<Seq<char>, V::V>::empty(),
    {
        let table = Table { entries: Vec::new() };
        assert(table.keys() =~= Seq::<Seq<char>>::empty());
        assert(table@ =~= Map::<Seq<char>, V::V>::empty());
        table
    }

    /// The number of keys.
    pub fn len(&self) -> (n: usize)
        ensures
            n == self.keys().len(),
            n == self@.dom().len(),
            self@.dom().finite(),
            self.keys().no_duplicates(),
            self.values().len() == self.keys().len(),
    {
        proof {
            use_type_invariant(self);
            lemma_keys_count(self.keys(), self.values());
        }
        self.entries.len()
    }

    /// The position of `key` among the keys.
    fn position(&self, key: &str) -> (r: Option<usize>)
        ensures
            self.keys().no_duplicates(),
            self@.dom().finite(),
            match r {
                Some(i) => i < self.keys().len() && self.keys()[i as int] == key@
                    && self.keys().index_of(key@) == i,
                None => !self.keys().contains(key@),
            },
    {
        proof {
            use_type_invariant(self);
            lemma_keys_count(self.keys(), self.values());
        }
        let mut i: usize = 0;
        while i < self.entries.len()
            invariant
                i <= self.entries@.len(),
                self.keys().no_duplicates(),
                self@.dom().finite(),
                forall|j: int| 0 <= j < i ==> self.keys()[j] != key@,
            decreases self.entries@.len() - i,
        {
            if str_equal(self.entries[i].key.as_str(), key) {
                proof {
                    lemma_index_of_unique(self.keys(), i as int);
                }
                return Some(i);
            }
            i += 1;
        }
        None
    }

    /// Whether the table has a value under `key`.
    pub fn contains_key(&self, key: &str) -> (r: bool)
        ensures
            r == self@.contains_key(key@),
            self@.dom().finite(),
    {
        self.position(key).is_some()
    }

    /// The value under `key`, if there is one.
    pub fn get(&self, key: &str) -> (r: Option<&V>)
        ensures
            match r {
                Some(v) => self@.contains_key(key@) && self@[key@] == v@,
                None => !self@.contains_key(key@),
            },
    {
        match self.position(key) {
            Some(i) => Some(&self.entries[i].value),
            None => None,
        }
    }

    /// Puts `value` under `key`. A key that is new to the table goes to
    /// the end of the keys; a key that was there keeps its place.
    pub fn insert(&mut self, key: String, value: V)
        ensures
            final(self)@ == old(self)@.insert(key@, value@),
            final(self).keys() == if old(self)@.contains_key(key@) {
                old(self).keys()
            } else {
                old(self).keys().push(key@)
            },
    {
        let ghost k = key@;
        let ghost v = value@;
        let ghost keys0 = self.keys();
        let ghost values0 = self.values();
        match self.position(key.as_str()) {
            Some(i) => {
                let mut entries: Vec<Entry<V>> = Vec::new();
                core::mem::swap(&mut self.entries, &mut entries);
                entries.set(i, Entry { key, value });
                assert(Seq::new(entries@.len(), |i: int| entries@[i].key@) =~= keys0);
                self.entries = entries;
                proof {
                    assert(self.keys() =~= keys0);
                    assert(self.values() =~= values0.update(i as int, v));
                    assert forall|q: Seq<char>| keys0.contains(q) implies #[trigger] pairing(
                        keys0,
                        values0,
                    ).insert(k, v)[q] == self.values()[keys0.index_of(q)] by {
                        let j = keys0.index_of(q);
                        if j == i {
                        } else {
                            assert(q != k);
                        }
                    }
                    assert(self@ =~= pairing(keys0, values0).insert(k, v));
                }
            },
            None => {
                let mut entries: Vec<Entry<V>> = Vec::new();
                core::mem::swap(&mut self.entries, &mut entries);
                entries.push(Entry { key, value });
                proof {
                    let keys1 = keys0.push(k);
                    assert(Seq::new(entries@.len(), |i: int| entries@[i].key@) =~= keys1);
                    assert(keys1.no_duplicates());
                }
                self.entries = entries;
                proof {
                    let keys1 = keys0.push(k);
                    let values1 = values0.push(v);
                    assert(self.keys() =~= keys1);
                    assert(self.values() =~= values1);
                    assert(keys1.no_duplicates());
                    assert forall|q: Seq<char>| #[trigger] keys1.contains(q) <==> (keys0.contains(
                        q,
                    ) || q == k) by {
                        if keys0.contains(q) {
                            let j = keys0.index_of(q);
                            assert(keys1[j] == q);
                        }
                        if q == k {
                            assert(keys1[keys0.len() as int] == q);
                        }
                    }
                    assert forall|q: Seq<char>| keys1.contains(q) implies #[trigger] pairing(
                        keys0,
                        values0,
                    ).insert(k, v)[q] == values1[keys1.index_of(q)] by {
                        let j = keys1.index_of(q);
                        if j < keys0.len() {
                            lemma_index_of_unique(keys0, j);
                        }
                    }
                    assert(self@ =~= pairing(keys0, values0).insert(k, v));
                }
            },
        }
    }

    /// Takes `key` and its value out of the table. The other keys keep
    /// their order.
    pub fn remove(&mut self, key: &str)
        ensures
            final(self)@ == old(self)@.remove(key@),
            final(self).keys() == if old(self)@.contains_key(key@) {
                old(self).keys().remove(old(self).keys().index_of(key@))
            } else {
                old(self).keys()
            },
    {
        let ghost k = key@;
        let ghost keys0 = self.keys();
        let ghost values0 = self.values();
        match self.position(key) {
            Some(i) => {
                let mut entries: Vec<Entry<V>> = Vec::new();
                core::mem::swap(&mut self.entries, &mut entries);
                entries.remove(i);
                proof {
                    let keys1 = keys0.remove(i as int);
                    assert(Seq::new(entries@.len(), |i: int| entries@[i].key@) =~= keys1);
                    assert(keys1.no_duplicates());
                }
                self.entries = entries;
                proof {
                    let keys1 = keys0.remove(i as int);
                    let values1 = values0.remove(i as int);
                    assert(self.keys() =~= keys1);
                    assert(self.values() =~= values1);
                    assert(keys1.no_duplicates());
                    assert forall|q: Seq<char>| #[trigger] keys1.contains(q) <==> (keys0.contains(
                        q,
                    ) && q != k) by {
                        if keys1.contains(q) {
                            let j = keys1.index_of(q);
                            if j < i {
                                assert(keys0[j] == q);
                            } else {
                                assert(keys0[j + 1] == q);
                            }
                        }
                        if keys0.contains(q) && q != k {
                            let j = keys0.index_of(q);
                            if j < i {
                                assert(keys1[j] == q);
                            } else {
                                assert(keys1[j - 1] == q);
                            }
                        }
                    }
                    assert forall|q: Seq<char>| keys1.contains(q) implies #[trigger] pairing(
                        keys0,
                        values0,
                    ).remove(k)[q] == values1[keys1.index_of(q)] by {
                        let j = keys1.index_of(q);
                        if j < i {
                            lemma_index_of_unique(keys0, j);
                        } else {
                            lemma_index_of_unique(keys0, j + 1);
                        }
                    }
                    assert(self@ =~= pairing(keys0, values0).remove(k));
                }
            },
            None => {
                proof {
                    assert(self@ =~= pairing(keys0, values0).remove(k));
                }
            },
        }
    }

    /// The keys, in the order in which they were first inserted.
    pub fn keys_vec(&self) -> (r: Vec<String>)
        ensures
            r@.len() == self.keys().len(),
            forall|i: int| 0 <= i < r@.len() ==> (#[trigger] r@[i])@ == self.keys()[i],
    {
        let mut r: Vec<String> = Vec::new();
        let mut i: usize = 0;
        while i < self.entries.len()
            invariant
                i <= self.entries@.len(),
                r@.len() == i,
                forall|j: int| 0 <= j < i ==> (#[trigger] r@[j])@ == self.keys()[j],
            decreases self.entries@.len() - i,
        {
            r.push(self.entries[i].key.clone());
            i += 1;
        }
        r
    }

    /// The key at position `i`.
    pub fn key_at(&self, i: usize) -> (r: &str)
        requires
            i < self.keys().len(),
        ensures
            r@ == self.keys()[i as int],
    {
        self.entries[i].key.as_str()
    }

    /// The value at position `i`, which is the value under the key at
    /// that position.
    pub fn value_at(&self, i: usize) -> (r: &V)
        requires
            i < self.keys().len(),
        ensures
            r@ == self.values()[i as int],
            self@.contains_key(self.keys()[i as int]),
            self@[self.keys()[i as int]] == r@,
    {
        proof {
            use_type_invariant(self);
            lemma_index_of_unique(self.keys(), i as int);
        }
        &self.entries[i].value
    }
}

} // verus!
