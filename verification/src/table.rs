//! A small table, keyed by a number, in the order its keys first came.
//!
//! There are never more than a handful of windows, so looking one up is a walk along a list;
//! and unlike a hashed map it is walked in the same order every time.

use vstd::prelude::*;

verus! {

/// Values by key.
#[derive(Debug)]
pub struct Table<T> {
    pub entries: Vec<(u32, T)>,
}

/// Whether a key is among some entries.
pub open spec fn has_key<T>(entries: Seq<(u32, T)>, key: u32) -> bool {
    exists|i: int| 0 <= i < entries.len() && (#[trigger] entries[i]).0 == key
}

/// Where a key is.
pub open spec fn key_at<T>(entries: Seq<(u32, T)>, key: u32) -> int {
    choose|i: int| 0 <= i < entries.len() && (#[trigger] entries[i]).0 == key
}

impl<T> Table<T> {
    /// No key is there twice.
    pub open spec fn wf(self) -> bool {
        forall|i: int, j: int|
            0 <= i < j < self.entries@.len() ==> (#[trigger] self.entries@[i]).0 != (
            #[trigger] self.entries@[j]).0
    }

    /// What is under each key.
    pub open spec fn map(self) -> Map<u32, T> {
        Map::new(
            |key: u32| has_key(self.entries@, key),
            |key: u32| self.entries@[key_at(self.entries@, key)].1,
        )
    }

    /// What stands at a place in the list is what the table has under its key.
    pub proof fn lemma_at(self, i: int)
        requires
            self.wf(),
            0 <= i < self.entries@.len(),
        ensures
            self.map().contains_key(self.entries@[i].0),
            self.map()[self.entries@[i].0] == self.entries@[i].1,
    {
        let key = self.entries@[i].0;
        assert(has_key(self.entries@, key));
        let at = key_at(self.entries@, key);
        assert(0 <= at < self.entries@.len() && self.entries@[at].0 == key);
        if at != i {
            assert(self.entries@[at].0 != self.entries@[i].0);
        }
    }

    pub fn new() -> (out: Table<T>)
        ensures
            out.wf(),
            out.map() == Map::<u32, T>::empty(),
            out.entries@.len() == 0,
    {
        let out = Table { entries: Vec::new() };
        assert(out.map() =~= Map::<u32, T>::empty());
        out
    }

    pub fn len(&self) -> (out: usize)
        ensures
            out == self.entries@.len(),
    {
        self.entries.len()
    }

    /// Where a key is in the list.
    pub fn find(&self, key: u32) -> (out: Option<usize>)
        requires
            self.wf(),
        ensures
            out is Some <==> self.map().contains_key(key),
            out matches Some(i) ==> i < self.entries@.len() && self.entries@[i as int].0 == key
                && self.map()[key] == self.entries@[i as int].1,
    {
        let mut i: usize = 0;
        while i < self.entries.len()
            invariant
                self.wf(),
                i <= self.entries.len(),
                forall|k: int| 0 <= k < i ==> (#[trigger] self.entries@[k]).0 != key,
            decreases self.entries.len() - i,
        {
            if self.entries[i].0 == key {
                proof {
                    self.lemma_at(i as int);
                }
                return Some(i);
            }
            i = i + 1;
        }
        assert(!has_key(self.entries@, key));
        None
    }

    /// What is under a key.
    pub fn get(&self, key: u32) -> (out: Option<&T>)
        requires
            self.wf(),
        ensures
            out is Some <==> self.map().contains_key(key),
            out matches Some(value) ==> *value == self.map()[key],
    {
        match self.find(key) {
            Some(i) => Some(&self.entries[i].1),
            None => None,
        }
    }

    /// Whether there is anything under a key.
    pub fn contains(&self, key: u32) -> (out: bool)
        requires
            self.wf(),
        ensures
            out == self.map().contains_key(key),
    {
        self.find(key).is_some()
    }

    /// Take out what is under a key.
    pub fn remove(&mut self, key: u32) -> (out: Option<T>)
        requires
            old(self).wf(),
        ensures
            final(self).wf(),
            out is Some <==> old(self).map().contains_key(key),
            out matches Some(value) ==> value == old(self).map()[key],
            final(self).map() == old(self).map().remove(key),
            final(self).entries@.len() == old(self).entries@.len() - (if out is Some {
                1int
            } else {
                0
            }),
    {
        match self.find(key) {
            Some(i) => {
                let ghost was = *self;
                let taken = self.entries.remove(i);
                assert forall|a: int, b: int| 0 <= a < b < self.entries@.len() implies (
                #[trigger] self.entries@[a]).0 != (#[trigger] self.entries@[b]).0 by {
                    let a0 = if a < i {
                        a
                    } else {
                        a + 1
                    };
                    let b0 = if b < i {
                        b
                    } else {
                        b + 1
                    };
                    assert(was.entries@[a0].0 != was.entries@[b0].0);
                }
                assert forall|k: u32| self.map().contains_key(k) implies was.map().remove(
                    key,
                ).contains_key(k) && self.map()[k] == was.map().remove(key)[k] by {
                    let at = key_at(self.entries@, k);
                    self.lemma_at(at);
                    let at0 = if at < i {
                        at
                    } else {
                        at + 1
                    };
                    was.lemma_at(at0);
                    assert(was.entries@[at0].0 != was.entries@[i as int].0);
                }
                assert forall|k: u32| was.map().remove(key).contains_key(k) implies self.map().contains_key(
                k) by {
                    let at = key_at(was.entries@, k);
                    assert(at != i);
                    let at1 = if at < i {
                        at
                    } else {
                        at - 1
                    };
                    assert(self.entries@[at1].0 == k);
                }
                assert(self.map() =~= was.map().remove(key));
                Some(taken.1)
            },
            None => {
                assert(self.map() =~= self.map().remove(key));
                None
            },
        }
    }

    /// Put something under a key, in place of what was there.
    pub fn insert(&mut self, key: u32, value: T)
        requires
            old(self).wf(),
        ensures
            final(self).wf(),
            final(self).map() == old(self).map().insert(key, value),
    {
        let ghost before = *self;
        match self.find(key) {
            Some(i) => {
                self.entries.set(i, (key, value));
                assert forall|a: int, b: int| 0 <= a < b < self.entries@.len() implies (
                #[trigger] self.entries@[a]).0 != (#[trigger] self.entries@[b]).0 by {
                    assert(before.entries@[a].0 != before.entries@[b].0);
                }
                assert forall|k: u32|
                    self.map().contains_key(k) == before.map().insert(key, value).contains_key(
                        k,
                    ) by {
                    if has_key(self.entries@, k) {
                        let at = key_at(self.entries@, k);
                        assert(before.entries@[at].0 == k);
                    }
                    if has_key(before.entries@, k) {
                        let at = key_at(before.entries@, k);
                        assert(self.entries@[at].0 == k);
                    }
                    assert(self.entries@[i as int].0 == key);
                }
                assert forall|k: u32| self.map().contains_key(k) implies self.map()[k]
                    == before.map().insert(key, value)[k] by {
                    let at = key_at(self.entries@, k);
                    self.lemma_at(at);
                    before.lemma_at(at);
                }
                assert(self.map() =~= before.map().insert(key, value));
            },
            None => {
                self.entries.push((key, value));
                assert forall|a: int, b: int| 0 <= a < b < self.entries@.len() implies (
                #[trigger] self.entries@[a]).0 != (#[trigger] self.entries@[b]).0 by {
                    if b < before.entries@.len() {
                        assert(before.entries@[a].0 != before.entries@[b].0);
                    } else {
                        before.lemma_at(a);
                    }
                }
                let ghost last = before.entries@.len() as int;
                assert(self.entries@[last] == (key, value));
                assert forall|k: u32|
                    self.map().contains_key(k) == before.map().insert(key, value).contains_key(
                        k,
                    ) by {
                    if has_key(self.entries@, k) {
                        let at = key_at(self.entries@, k);
                        if at < last {
                            assert(before.entries@[at].0 == k);
                        }
                    }
                    if has_key(before.entries@, k) {
                        let at = key_at(before.entries@, k);
                        assert(self.entries@[at].0 == k);
                    }
                }
                assert forall|k: u32| self.map().contains_key(k) implies self.map()[k]
                    == before.map().insert(key, value)[k] by {
                    let at = key_at(self.entries@, k);
                    self.lemma_at(at);
                    if at < last {
                        before.lemma_at(at);
                    }
                }
                assert(self.map() =~= before.map().insert(key, value));
            },
        }
    }
}

} // verus!
