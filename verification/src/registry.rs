//! The keyed collection behind a listener.
//!
//! A registry holds at most one handler per key. It is an association list:
//! the number of handlers on one listener is small, and a key holds a
//! `TypeId`, of which only equality is known.

use crate::key::{plain_id, same_tag, Key};
use std::any::TypeId;
use vstd::prelude::*;

verus! {

/// One registration: a key and the handler that answers to it.
pub struct Entry<Id, H> {
    pub id: Id,
    pub tag: TypeId,
    pub handler: H,
}

/// Handlers by key, in no particular order.
pub struct Registry<Id, H> {
    pub entries: Vec<Entry<Id, H>>,
}

impl<Id, H> Registry<Id, H> {
    /// The key of the `i`-th entry.
    pub open spec fn key_at(self, i: int) -> Key<Id> {
        (self.entries[i].id, self.entries[i].tag)
    }

    /// No key occurs twice.
    pub open spec fn wf(self) -> bool {
        forall|i: int, j: int|
            0 <= i < j < self.entries.len() ==> self.key_at(i) != self.key_at(j)
    }

    /// Whether entry `i` exists and is registered under `key`.
    pub open spec fn holds_at(self, key: Key<Id>, i: int) -> bool {
        0 <= i < self.entries.len() && self.key_at(i) == key
    }

    /// The keys that have a handler.
    pub open spec fn keys(self) -> Set<Key<Id>> {
        Set::new(|key: Key<Id>| exists|i: int| self.holds_at(key, i))
    }

    /// Where `key` is registered. Meaningful for a key in `keys()`.
    pub open spec fn index_of(self, key: Key<Id>) -> int {
        choose|i: int| self.holds_at(key, i)
    }

    /// The registry as a map from key to handler.
    pub open spec fn view(self) -> Map<Key<Id>, H> {
        Map::new(
            |key: Key<Id>| self.keys().contains(key),
            |key: Key<Id>| self.entries[self.index_of(key)].handler,
        )
    }

    /// In a well-formed registry an entry is found again under its own key.
    pub proof fn lemma_index_of(self, i: int)
        requires
            self.wf(),
            0 <= i < self.entries.len(),
        ensures
            self.keys().contains(self.key_at(i)),
            self.index_of(self.key_at(i)) == i,
            self@.contains_key(self.key_at(i)),
            self@[self.key_at(i)] == self.entries[i].handler,
    {
        assert(self.holds_at(self.key_at(i), i));
    }

    /// Two registries that hold the same keys at the same places agree on
    /// which keys are registered, and where.
    pub proof fn lemma_same_keys(self, other: Self)
        requires
            self.wf(),
            self.entries.len() == other.entries.len(),
            forall|i: int| 0 <= i < self.entries.len() ==> self.key_at(i) == other.key_at(i),
        ensures
            other.wf(),
            other.keys() == self.keys(),
            other@.dom() == self@.dom(),
            forall|key: Key<Id>|
                self.keys().contains(key) ==> other.index_of(key) == self.index_of(key),
    {
        assert forall|i: int, j: int| 0 <= i < j < other.entries.len() implies other.key_at(i)
            != other.key_at(j) by {
        }
        assert forall|key: Key<Id>| other.keys().contains(key) == self.keys().contains(key) by {
            if self.keys().contains(key) {
                assert(other.holds_at(key, self.index_of(key)));
            }
            if other.keys().contains(key) {
                assert(self.holds_at(key, other.index_of(key)));
            }
        }
        assert forall|key: Key<Id>| self.keys().contains(key) implies other.index_of(key)
            == self.index_of(key) by {
            let i = self.index_of(key);
            other.lemma_index_of(i);
        }
    }
}

impl<Id: Clone + PartialEq, H> Registry<Id, H> {
    /// A registry with no handler.
    pub fn new() -> (registry: Self)
        ensures
            registry.wf(),
            registry@ == Map::<Key<Id>, H>::empty(),
            registry.entries@.len() == 0,
    {
        let registry = Registry { entries: Vec::new() };
        registry
    }

    /// The position of the handler registered under `(id, tag)`, if any.
    pub fn position(&self, id: &Id, tag: &TypeId) -> (found: Option<usize>)
        requires
            plain_id::<Id>(),
        ensures
            match found {
                Some(i) => self.holds_at((*id, *tag), i as int),
                None => !self.keys().contains((*id, *tag)),
            },
    {
        let mut i: usize = 0;
        while i < self.entries.len()
            invariant
                plain_id::<Id>(),
                i <= self.entries.len(),
                forall|j: int| 0 <= j < i ==> !self.holds_at((*id, *tag), j),
            decreases self.entries.len() - i,
        {
            let same_id = self.entries[i].id == *id;
            if same_id && same_tag(&self.entries[i].tag, tag) {
                return Some(i);
            }
            i = i + 1;
        }
        None
    }

    /// Whether a handler is registered under `(id, tag)`.
    pub fn contains(&self, id: &Id, tag: &TypeId) -> (found: bool)
        requires
            plain_id::<Id>(),
        ensures
            found == self@.contains_key((*id, *tag)),
    {
        self.position(id, tag).is_some()
    }

    /// Registers `handler` under `(id, tag)`, in place of the handler that
    /// was there, if one was.
    pub fn insert(&mut self, id: Id, tag: TypeId, handler: H)
        requires
            plain_id::<Id>(),
            old(self).wf(),
        ensures
            final(self).wf(),
            final(self)@ == old(self)@.insert((id, tag), handler),
            final(self)@.dom() == old(self)@.dom().insert((id, tag)),
            final(self)@[(id, tag)] == handler,
            forall|other: Key<Id>|
                other != (id, tag) && old(self)@.contains_key(other) ==> final(self)@[other]
                    == old(self)@[other],
    {
        let ghost before = *self;
        let ghost key = (id, tag);
        match self.position(&id, &tag) {
            Some(i) => {
                self.entries.set(i, Entry { id, tag, handler });
                proof {
                    let after = *self;
                    assert forall|j: int| 0 <= j < after.entries.len() implies after.key_at(j)
                        == before.key_at(j) by {}
                    assert forall|k: Key<Id>| after.keys().contains(k)
                        == before@.insert(key, handler).contains_key(k) by {
                        if before.keys().contains(k) {
                            let j = before.index_of(k);
                            assert(after.holds_at(k, j));
                        }
                        if after.keys().contains(k) {
                            let j = after.index_of(k);
                            assert(before.holds_at(k, j));
                        }
                    }
                    assert forall|k: Key<Id>| after.keys().contains(k) implies after@[k]
                        == before@.insert(key, handler)[k] by {
                        let j = after.index_of(k);
                        after.lemma_index_of(j);
                        before.lemma_index_of(j);
                    }
                }
            },
            None => {
                self.entries.push(Entry { id, tag, handler });
                proof {
                    let after = *self;
                    let n = before.entries.len() as int;
                    assert forall|j: int| 0 <= j < n implies after.key_at(j) == before.key_at(
                        j,
                    ) by {}
                    assert forall|i: int, j: int|
                        0 <= i < j < after.entries.len() implies after.key_at(i) != after.key_at(
                        j,
                    ) by {
                        if j == n {
                            assert(!before.holds_at(key, i));
                        }
                    }
                    assert forall|k: Key<Id>| after.keys().contains(k)
                        == before@.insert(key, handler).contains_key(k) by {
                        if before.keys().contains(k) {
                            let j = before.index_of(k);
                            assert(after.holds_at(k, j));
                        }
                        if after.keys().contains(k) {
                            let j = after.index_of(k);
                            if j < n {
                                assert(before.holds_at(k, j));
                            }
                        }
                        assert(after.holds_at(key, n));
                    }
                    assert forall|k: Key<Id>| after.keys().contains(k) implies after@[k]
                        == before@.insert(key, handler)[k] by {
                        let j = after.index_of(k);
                        after.lemma_index_of(j);
                        if j < n {
                            before.lemma_index_of(j);
                        }
                    }
                }
            },
        }
    }

    /// Takes out the handler registered under `(id, tag)`, and says whether
    /// there was one.
    pub fn remove(&mut self, id: &Id, tag: &TypeId) -> (removed: bool)
        requires
            plain_id::<Id>(),
            old(self).wf(),
        ensures
            final(self).wf(),
            removed == old(self)@.contains_key((*id, *tag)),
            final(self)@ == old(self)@.remove((*id, *tag)),
            final(self)@.dom() == old(self)@.dom().remove((*id, *tag)),
            forall|other: Key<Id>|
                other != (*id, *tag) && old(self)@.contains_key(other) ==> final(self)@[other]
                    == old(self)@[other],
    {
        let ghost before = *self;
        let ghost key = (*id, *tag);
        match self.position(id, tag) {
            Some(i) => {
                self.entries.remove(i);
                proof {
                    let after = *self;
                    let gone = i as int;
                    assert forall|j: int| 0 <= j < after.entries.len() implies after.key_at(j) == (
                    if j < gone {
                        before.key_at(j)
                    } else {
                        before.key_at(j + 1)
                    }) by {}
                    assert forall|a: int, b: int|
                        0 <= a < b < after.entries.len() implies after.key_at(a) != after.key_at(
                        b,
                    ) by {}
                    assert forall|k: Key<Id>| after.keys().contains(k) == before@.remove(
                        key,
                    ).contains_key(k) by {
                        if before.keys().contains(k) && k != key {
                            let j = before.index_of(k);
                            let j1 = if j < gone { j } else { j - 1 };
                            assert(after.holds_at(k, j1));
                        }
                        if after.keys().contains(k) {
                            let j = after.index_of(k);
                            let j0 = if j < gone { j } else { j + 1 };
                            assert(before.holds_at(k, j0));
                        }
                    }
                    assert forall|k: Key<Id>| after.keys().contains(k) implies after@[k]
                        == before@.remove(key)[k] by {
                        let j = after.index_of(k);
                        let j0 = if j < gone { j } else { j + 1 };
                        after.lemma_index_of(j);
                        before.lemma_index_of(j0);
                    }
                }
                true
            },
            None => false,
        }
    }
}

} // verus!
