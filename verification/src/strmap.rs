//! A small insertion-ordered map keyed by text.
//!
//! Entries are kept in the order in which their keys were first inserted,
//! so walking the map is deterministic. No key occurs twice.

use crate::text::str_eq;
use vstd::prelude::*;

verus! {

/// A map from text keys to values that remembers insertion order.
#[derive(Debug, Clone)]
pub struct StrMap<V> {
    keys: Vec<String>,
    values: Vec<V>,
}

impl<V> View for StrMap<V> {
    type V = Map<Seq<char>, V>;

    open spec fn view(&self) -> Map<Seq<char>, V> {
        Map::new(
            |k: Seq<char>| self.spec_keys().contains(k),
            |k: Seq<char>| self.spec_values()[self.spec_keys().index_of(k)],
        )
    }
}

impl<V> StrMap<V> {
    /// The keys in insertion order.
    pub closed spec fn spec_keys(&self) -> Seq<Seq<char>> {
        Seq::new(self.keys@.len(), |i: int| self.keys@[i]@)
    }

    /// The values, each at the position of its key.
    pub closed spec fn spec_values(&self) -> Seq<V> {
        self.values@
    }

    /// Every key has exactly one value and no key occurs twice.
    pub open spec fn wf(&self) -> bool {
        &&& self.spec_keys().len() == self.spec_values().len()
        &&& self.spec_keys().no_duplicates()
    }

    /// In a well-formed map the entry at a position is the mapping of its key.
    pub proof fn lemma_entry(&self, i: int)
        requires
            self.wf(),
            0 <= i < self.spec_keys().len(),
        ensures
            self@.contains_key(self.spec_keys()[i]),
            self@[self.spec_keys()[i]] == self.spec_values()[i],
            self.spec_keys().index_of(self.spec_keys()[i]) == i,
    {
        let k = self.spec_keys()[i];
        assert(self.spec_keys().contains(k));
        let j = self.spec_keys().index_of(k);
        assert(0 <= j < self.spec_keys().len() && self.spec_keys()[j] == k);
    }

    /// The keys of the view are exactly the listed keys.
    pub proof fn lemma_domain(&self)
        ensures
            self@.dom() =~= self.spec_keys().to_set(),
            self@.dom().finite(),
            forall|k: Seq<char>| self@.contains_key(k) <==> self.spec_keys().contains(k),
    {
        vstd::seq_lib::seq_to_set_is_finite(self.spec_keys());
    }

    /// Creates an empty map.
    pub fn new() -> (m: Self)
        ensures
            m.wf(),
            m@ == Map::<Seq<char>, V>::empty(),
            m.spec_keys() == Seq::<Seq<char>>::empty(),
            m.spec_values() == Seq::<V>::empty(),
    {
        let m = StrMap { keys: Vec::new(), values: Vec::new() };
        assert(m.spec_keys() =~= Seq::<Seq<char>>::empty());
        assert(m@ =~= Map::<Seq<char>, V>::empty());
        m
    }

    /// The number of entries.
    pub fn len(&self) -> (n: usize)
        requires
            self.wf(),
        ensures
            n == self.spec_keys().len(),
            n == self.spec_values().len(),
    {
        self.keys.len()
    }

    /// The key at a position.
    pub fn key_at(&self, i: usize) -> (key: &String)
        requires
            self.wf(),
            i < self.spec_keys().len(),
        ensures
            key@ == self.spec_keys()[i as int],
    {
        &self.keys[i]
    }

    /// The value at a position.
    pub fn value_at(&self, i: usize) -> (value: &V)
        requires
            self.wf(),
            i < self.spec_keys().len(),
        ensures
            *value == self.spec_values()[i as int],
            self@.contains_key(self.spec_keys()[i as int]),
            *value == self@[self.spec_keys()[i as int]],
    {
        proof {
            self.lemma_entry(i as int);
        }
        &self.values[i]
    }

    /// The position of a key, if it is present.
    pub fn find(&self, key: &str) -> (pos: Option<usize>)
        requires
            self.wf(),
        ensures
            match pos {
                Some(i) => i < self.spec_keys().len() && self.spec_keys()[i as int] == key@
                    && self.spec_keys().index_of(key@) == i,
                None => !self.spec_keys().contains(key@),
            },
            pos is Some <==> self@.contains_key(key@),
    {
        let mut i: usize = 0;
        while i < self.keys.len()
            invariant
                i <= self.keys.len(),
                self.wf(),
                forall|k: int| 0 <= k < i ==> self.spec_keys()[k] != key@,
            decreases self.keys.len() - i,
        {
            if str_eq(self.keys[i].as_str(), key) {
                proof {
                    self.lemma_entry(i as int);
                }
                return Some(i);
            }
            i = i + 1;
        }
        None
    }

    /// Whether a key is present.
    pub fn contains_key(&self, key: &str) -> (present: bool)
        requires
            self.wf(),
        ensures
            present == self@.contains_key(key@),
    {
        self.find(key).is_some()
    }

    /// The value of a key, if it is present.
    pub fn get(&self, key: &str) -> (value: Option<&V>)
        requires
            self.wf(),
        ensures
            match value {
                Some(v) => self@.contains_key(key@) && *v == self@[key@],
                None => !self@.contains_key(key@),
            },
    {
        match self.find(key) {
            Some(i) => {
                proof {
                    self.lemma_entry(i as int);
                }
                Some(&self.values[i])
            },
            None => None,
        }
    }

    /// Inserts a value under a key. A key that is already present keeps its
    /// position and gets the new value; a new key goes to the end.
    pub fn insert(&mut self, key: String, value: V)
        requires
            old(self).wf(),
        ensures
            final(self).wf(),
            final(self)@ == old(self)@.insert(key@, value),
            old(self)@.contains_key(key@) ==> {
                &&& final(self).spec_keys() == old(self).spec_keys()
                &&& final(self).spec_values() == old(self).spec_values().update(
                    old(self).spec_keys().index_of(key@),
                    value,
                )
            },
            !old(self)@.contains_key(key@) ==> {
                &&& final(self).spec_keys() == old(self).spec_keys().push(key@)
                &&& final(self).spec_values() == old(self).spec_values().push(value)
            },
    {
        let found = self.find(key.as_str());
        match found {
            Some(i) => {
                let _previous = self.put_at(i, value);
                proof {
                    assert(old(self)@.insert(key@, value).dom() =~= old(self)@.dom());
                }
            },
            None => {
                let ghost old_keys = self.spec_keys();
                self.keys.push(key);
                self.values.push(value);
                proof {
                    assert(self.spec_keys() =~= old_keys.push(key@));
                    assert(self.spec_keys().no_duplicates());
                    assert forall|k: Seq<char>| #[trigger]
                        self@.contains_key(k) <==> old(self)@.insert(key@, value).contains_key(
                            k,
                        ) by {
                        assert(self.spec_keys()[old_keys.len() as int] == key@);
                        if old_keys.contains(k) {
                            let j = old_keys.index_of(k);
                            assert(self.spec_keys()[j] == k);
                        }
                        if self.spec_keys().contains(k) {
                            let j = self.spec_keys().index_of(k);
                            if j < old_keys.len() {
                                assert(old_keys[j] == k);
                            }
                        }
                    }
                    assert forall|k: Seq<char>| #[trigger] self@.contains_key(k) implies self@[k]
                        == old(self)@.insert(key@, value)[k] by {
                        let j = self.spec_keys().index_of(k);
                        self.lemma_entry(j);
                        if j < old_keys.len() {
                            old(self).lemma_entry(j);
                        }
                    }
                    assert(self@ =~= old(self)@.insert(key@, value));
                }
            },
        }
    }

    /// Replaces the value at a position and hands back the previous one.
    pub fn put_at(&mut self, i: usize, value: V) -> (previous: V)
        requires
            old(self).wf(),
            i < old(self).spec_keys().len(),
        ensures
            final(self).wf(),
            previous == old(self).spec_values()[i as int],
            final(self).spec_keys() == old(self).spec_keys(),
            final(self).spec_values() == old(self).spec_values().update(i as int, value),
            final(self)@ == old(self)@.insert(old(self).spec_keys()[i as int], value),
    {
        self.values.push(value);
        let previous = self.values.swap_remove(i);
        proof {
            assert(self.spec_values() =~= old(self).spec_values().update(i as int, value));
            assert(self.spec_keys() =~= old(self).spec_keys());
            let key = old(self).spec_keys()[i as int];
            old(self).lemma_entry(i as int);
            assert forall|k: Seq<char>| #[trigger] self@.contains_key(k) implies self@[k] == old(
                self,
            )@.insert(key, value)[k] by {
                let j = self.spec_keys().index_of(k);
                self.lemma_entry(j);
                old(self).lemma_entry(j);
            }
            assert(self@ =~= old(self)@.insert(key, value));
        }
        previous
    }

    /// A mutable borrow of the value at a position. The keys stay as they
    /// are, and the value at the position becomes whatever the borrow holds
    /// when it ends.
    pub fn value_at_mut(&mut self, i: usize) -> (value: &mut V)
        requires
            old(self).wf(),
            i < old(self).spec_keys().len(),
        ensures
            *value == old(self).spec_values()[i as int],
            final(self).wf(),
            final(self).spec_keys() == old(self).spec_keys(),
            final(self).spec_values() == old(self).spec_values().update(i as int, *final(value)),
    {
        &mut self.values[i]
    }

    /// Removes the entry at a position and hands back its value. Later
    /// entries move up by one.
    pub fn remove_at(&mut self, i: usize) -> (removed: V)
        requires
            old(self).wf(),
            i < old(self).spec_keys().len(),
        ensures
            final(self).wf(),
            removed == old(self).spec_values()[i as int],
            final(self).spec_keys() == old(self).spec_keys().remove(i as int),
            final(self).spec_values() == old(self).spec_values().remove(i as int),
            final(self)@ == old(self)@.remove(old(self).spec_keys()[i as int]),
    {
        let ghost old_keys = self.spec_keys();
        let ghost key = old_keys[i as int];
        proof {
            self.lemma_entry(i as int);
        }
        let _key = self.keys.remove(i);
        let value = self.values.remove(i);
        proof {
            assert(self.spec_keys() =~= old_keys.remove(i as int));
            assert(self.spec_keys().no_duplicates()) by {
                assert forall|a: int, b: int|
                    0 <= a < self.spec_keys().len() && 0 <= b < self.spec_keys().len() && a
                        != b implies self.spec_keys()[a] != self.spec_keys()[b] by {
                    let a0 = if a < i { a } else { a + 1 };
                    let b0 = if b < i { b } else { b + 1 };
                    assert(self.spec_keys()[a] == old_keys[a0]);
                    assert(self.spec_keys()[b] == old_keys[b0]);
                }
            }
            assert forall|k: Seq<char>| #[trigger]
                self@.contains_key(k) <==> old(self)@.remove(key).contains_key(k) by {
                if self.spec_keys().contains(k) {
                    let j = self.spec_keys().index_of(k);
                    let j0 = if j < i { j } else { j + 1 };
                    assert(old_keys[j0] == k);
                }
                if old_keys.contains(k) && k != key {
                    let j0 = old_keys.index_of(k);
                    let j = if j0 < i { j0 } else { j0 - 1 };
                    assert(self.spec_keys()[j] == k);
                }
            }
            assert forall|k: Seq<char>| #[trigger] self@.contains_key(k) implies self@[k] == old(
                self,
            )@.remove(key)[k] by {
                let j = self.spec_keys().index_of(k);
                let j0 = if j < i { j } else { j + 1 };
                self.lemma_entry(j);
                old(self).lemma_entry(j0);
            }
            assert(self@ =~= old(self)@.remove(key));
        }
        value
    }

    /// Removes a key and hands back its value. Later entries move up by one.
    pub fn remove(&mut self, key: &str) -> (removed: Option<V>)
        requires
            old(self).wf(),
        ensures
            final(self).wf(),
            final(self)@ == old(self)@.remove(key@),
            match removed {
                Some(v) => old(self)@.contains_key(key@) && v == old(self)@[key@],
                None => !old(self)@.contains_key(key@),
            },
            old(self)@.contains_key(key@) ==> {
                &&& final(self).spec_keys() == old(self).spec_keys().remove(
                    old(self).spec_keys().index_of(key@),
                )
                &&& final(self).spec_values() == old(self).spec_values().remove(
                    old(self).spec_keys().index_of(key@),
                )
            },
            !old(self)@.contains_key(key@) ==> {
                &&& final(self).spec_keys() == old(self).spec_keys()
                &&& final(self).spec_values() == old(self).spec_values()
            },
    {
        match self.find(key) {
            Some(i) => {
                proof {
                    self.lemma_entry(i as int);
                }
                Some(self.remove_at(i))
            },
            None => {
                proof {
                    assert(self@ =~= old(self)@.remove(key@));
                }
                None
            },
        }
    }

    /// Removes every entry.
    pub fn clear(&mut self)
        ensures
            final(self).wf(),
            final(self)@ == Map::<Seq<char>, V>::empty(),
            final(self).spec_keys() == Seq::<Seq<char>>::empty(),
            final(self).spec_values() == Seq::<V>::empty(),
    {
        self.keys.clear();
        self.values.clear();
        proof {
            assert(self.spec_keys() =~= Seq::<Seq<char>>::empty());
            assert(self@ =~= Map::<Seq<char>, V>::empty());
        }
    }
}

} // verus!
