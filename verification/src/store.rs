//! A map from string keys to values, kept as a vector of entries with
//! distinct keys.

use vstd::prelude::*;

verus! {

/// A map from string keys to values.
#[derive(Debug)]
pub struct Store<V> {
    entries: Vec<(String, V)>,
}

impl<V> Store<V> {
    /// No two entries share a key.
    #[verifier::type_invariant]
    spec fn keys_distinct(self) -> bool {
        forall|i: int, j: int|
            0 <= i < j < self.entries@.len() ==> #[trigger] self.entries@[i].0@
                != #[trigger] self.entries@[j].0@
    }

    spec fn has_key(self, k: Seq<char>) -> bool {
        exists|i: int| 0 <= i < self.entries@.len() && #[trigger] self.entries@[i].0@ == k
    }

    spec fn key_index(self, k: Seq<char>) -> int {
        choose|i: int| 0 <= i < self.entries@.len() && #[trigger] self.entries@[i].0@ == k
    }

    /// The map the store holds.
    pub closed spec fn map(self) -> Map<Seq<char>, V> {
        Map::new(|k: Seq<char>| self.has_key(k), |k: Seq<char>| self.entries@[self.key_index(k)].1)
    }

    proof fn lemma_entry(self, i: int)
        requires
            self.keys_distinct(),
            0 <= i < self.entries@.len(),
        ensures
            self.map().contains_key(self.entries@[i].0@),
            self.map()[self.entries@[i].0@] == self.entries@[i].1,
    {
        let k = self.entries@[i].0@;
        assert(self.has_key(k));
        let j = self.key_index(k);
        if j != i {
            if j < i {
                assert(self.entries@[j].0@ != self.entries@[i].0@);
            } else {
                assert(self.entries@[i].0@ != self.entries@[j].0@);
            }
        }
    }

    /// An empty store.
    pub fn new() -> (s: Self)
        ensures
            s.map() == Map::<Seq<char>, V>::empty(),
    {
        let s = Store { entries: Vec::new() };
        assert(s.map() =~= Map::<Seq<char>, V>::empty());
        s
    }

    fn find(entries: &Vec<(String, V)>, key: &String) -> (res: Option<usize>)
        ensures
            res matches Some(i) ==> i < entries@.len() && entries@[i as int].0@ == key@,
            res is None ==> forall|j: int|
                0 <= j < entries@.len() ==> #[trigger] entries@[j].0@ != key@,
    {
        let mut i: usize = 0;
        while i < entries.len()
            invariant
                i <= entries@.len(),
                forall|j: int| 0 <= j < i ==> #[trigger] entries@[j].0@ != key@,
            decreases entries@.len() - i,
        {
            if entries[i].0 == *key {
                return Some(i);
            }
            i = i + 1;
        }
        None
    }

    /// The value under `key`, if any.
    pub fn get(&self, key: &String) -> (res: Option<&V>)
        ensures
            self.map().contains_key(key@) ==> res == Some(&self.map()[key@]),
            !self.map().contains_key(key@) ==> res is None,
    {
        proof {
            use_type_invariant(self);
        }
        match Self::find(&self.entries, key) {
            Some(i) => {
                proof {
                    self.lemma_entry(i as int);
                }
                Some(&self.entries[i].1)
            },
            None => {
                assert(!self.has_key(key@));
                None
            },
        }
    }

    /// Puts `value` under `key`, replacing what was there.
    pub fn insert(&mut self, key: String, value: V)
        ensures
            final(self).map() == old(self).map().insert(key@, value),
    {
        proof {
            use_type_invariant(&*self);
        }
        let ghost before = *self;
        let mut entries: Vec<(String, V)> = Vec::new();
        std::mem::swap(&mut entries, &mut self.entries);
        let ghost e = entries@;
        assert(e == before.entries@);
        match Self::find(&entries, &key) {
            Some(i) => {
                entries.set(i, (key, value));
                proof {
                    assert forall|a: int, b: int|
                        0 <= a < b < entries@.len() implies #[trigger] entries@[a].0@
                        != #[trigger] entries@[b].0@ by {
                        assert(e[a].0@ != e[b].0@);
                    }
                }
                self.entries = entries;
                proof {
                    self.lemma_map_after_update(before, i as int);
                }
            },
            None => {
                entries.push((key, value));
                proof {
                    assert forall|a: int, b: int|
                        0 <= a < b < entries@.len() implies #[trigger] entries@[a].0@
                        != #[trigger] entries@[b].0@ by {
                        if b < e.len() {
                            assert(e[a].0@ != e[b].0@);
                        }
                    }
                }
                self.entries = entries;
                proof {
                    self.lemma_map_after_push(before);
                }
            },
        }
    }

    proof fn lemma_map_after_update(self, before: Self, i: int)
        requires
            before.keys_distinct(),
            self.keys_distinct(),
            0 <= i < before.entries@.len(),
            self.entries@ == before.entries@.update(i, self.entries@[i]),
            self.entries@[i].0@ == before.entries@[i].0@,
        ensures
            self.map() == before.map().insert(self.entries@[i].0@, self.entries@[i].1),
    {
        let k = self.entries@[i].0@;
        self.lemma_entry(i);
        assert forall|k2: Seq<char>| #[trigger] self.has_key(k2) == before.has_key(k2) by {
            if self.has_key(k2) {
                let j = self.key_index(k2);
                assert(before.entries@[j].0@ == k2);
            }
            if before.has_key(k2) {
                let j = before.key_index(k2);
                assert(self.entries@[j].0@ == k2);
            }
        }
        assert forall|k2: Seq<char>|
            #[trigger] self.map().contains_key(k2) && k2 != k implies self.map()[k2]
            == before.map()[k2] by {
            let j = self.key_index(k2);
            assert(j != i);
            self.lemma_entry(j);
            before.lemma_entry(j);
        }
        assert(self.map() =~= before.map().insert(k, self.entries@[i].1));
    }

    proof fn lemma_map_after_push(self, before: Self)
        requires
            before.keys_distinct(),
            self.keys_distinct(),
            self.entries@ == before.entries@.push(self.entries@.last()),
        ensures
            self.map() == before.map().insert(self.entries@.last().0@, self.entries@.last().1),
    {
        let n = before.entries@.len() as int;
        let k = self.entries@[n].0@;
        self.lemma_entry(n);
        assert forall|k2: Seq<char>| k2 != k implies #[trigger] self.has_key(k2) == before.has_key(
            k2,
        ) by {
            if self.has_key(k2) {
                let j = self.key_index(k2);
                assert(j != n);
                assert(before.entries@[j].0@ == k2);
            }
            if before.has_key(k2) {
                let j = before.key_index(k2);
                assert(self.entries@[j].0@ == k2);
            }
        }
        assert forall|k2: Seq<char>|
            #[trigger] self.map().contains_key(k2) && k2 != k implies self.map()[k2]
            == before.map()[k2] by {
            let j = self.key_index(k2);
            assert(j != n);
            self.lemma_entry(j);
            before.lemma_entry(j);
        }
        assert(self.map() =~= before.map().insert(k, self.entries@[n].1));
    }
}

} // verus!
