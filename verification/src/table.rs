//! A map keyed by byte strings, held as a list of entries in which no key
//! occurs twice.

use vstd::prelude::*;
use crate::names::same_bytes;

verus! {

/// A map from byte-string keys to values.
pub struct Table<V> {
    entries: Vec<(Vec<u8>, V)>,
}

impl<V> Table<V> {
    /// The entries, in the order in which their keys were first inserted.
    pub closed spec fn pairs(&self) -> Seq<(Vec<u8>, V)> {
        self.entries@
    }

    /// No key occurs twice.
    #[verifier::type_invariant]
    closed spec fn keys_distinct(&self) -> bool {
        forall|i: int, j: int|
            0 <= i < self.entries@.len() && 0 <= j < self.entries@.len() && i != j
                ==> (#[trigger] self.entries@[i]).0@ != (#[trigger] self.entries@[j]).0@
    }

    /// The entry holding key `k` is at `i`.
    pub open spec fn holds_at(&self, k: Seq<u8>, i: int) -> bool {
        0 <= i < self.pairs().len() && self.pairs()[i].0@ == k
    }
}

impl<V: View> View for Table<V> {
    type V = Map<Seq<u8>, V::V>;

    open spec fn view(&self) -> Map<Seq<u8>, V::V> {
        Map::new(
            |k: Seq<u8>| exists|i: int| self.holds_at(k, i),
            |k: Seq<u8>| self.pairs()[choose|i: int| self.holds_at(k, i)].1@,
        )
    }
}

impl<V: View> Table<V> {
    /// An empty map.
    pub fn new() -> (r: Table<V>)
        ensures
            r@ == Map::<Seq<u8>, V::V>::empty(),
            r.pairs().len() == 0,
    {
        let r = Table { entries: Vec::new() };
        assert(r@ =~= Map::<Seq<u8>, V::V>::empty());
        r
    }

    /// Where the key `k` is held, if anywhere.
    fn find(&self, k: &[u8]) -> (r: Option<usize>)
        ensures
            match r {
                Some(i) => self.holds_at(k@, i as int),
                None => !self@.contains_key(k@),
            },
    {
        let mut i: usize = 0;
        while i < self.entries.len()
            invariant
                i <= self.entries@.len(),
                forall|j: int| 0 <= j < i ==> !self.holds_at(k@, j),
            decreases self.entries@.len() - i,
        {
            if same_bytes(self.entries[i].0.as_slice(), k) {
                return Some(i);
            }
            i = i + 1;
        }
        None
    }

    /// The value held for `k`, if any.
    pub fn get(&self, k: &[u8]) -> (r: Option<&V>)
        ensures
            match r {
                Some(v) => self@.contains_key(k@) && v@ == self@[k@],
                None => !self@.contains_key(k@),
            },
    {
        proof { use_type_invariant(self); }
        match self.find(k) {
            Some(i) => {
                proof {
                    assert(self@.contains_key(k@));
                    let c = choose|j: int| self.holds_at(k@, j);
                    assert(c == i);
                }
                Some(&self.entries[i].1)
            },
            None => None,
        }
    }

    /// Sets the value of `k` to `v`, in place of any value it had.
    pub fn insert(&mut self, k: Vec<u8>, v: V)
        ensures
            final(self)@ == old(self)@.insert(k@, v@),
    {
        proof { use_type_invariant(&*self); }
        let ghost old_pairs = self.entries@;
        match self.find(k.as_slice()) {
            Some(i) => {
                let mut entries: Vec<(Vec<u8>, V)> = Vec::new();
                std::mem::swap(&mut entries, &mut self.entries);
                entries.set(i, (k, v));
                self.entries = entries;
                assert(self@ =~= old(self)@.insert(k@, v@)) by {
                    assert forall|key: Seq<u8>| #[trigger] self@.contains_key(key)
                        <==> old(self)@.insert(k@, v@).contains_key(key) by {
                        if key == k@ {
                            assert(self.holds_at(key, i as int));
                        } else if old(self)@.contains_key(key) {
                            let j = choose|j: int| old(self).holds_at(key, j);
                            assert(self.holds_at(key, j));
                        } else if self@.contains_key(key) {
                            let j = choose|j: int| self.holds_at(key, j);
                            assert(old(self).holds_at(key, j));
                        }
                    }
                    assert forall|key: Seq<u8>| #[trigger] self@.contains_key(key)
                        implies self@[key] == old(self)@.insert(k@, v@)[key] by {
                        let j = choose|j: int| self.holds_at(key, j);
                        if key == k@ {
                            assert(self.holds_at(key, i as int));
                            assert(j == i);
                        } else {
                            assert(old(self).holds_at(key, j));
                            let j2 = choose|j2: int| old(self).holds_at(key, j2);
                            assert(j2 == j);
                        }
                    }
                }
            },
            None => {
                assert forall|j: int| 0 <= j < old_pairs.len() implies old_pairs[j].0@ != k@ by {
                    if old_pairs[j].0@ == k@ {
                        assert(old(self).holds_at(k@, j));
                    }
                }
                let mut entries: Vec<(Vec<u8>, V)> = Vec::new();
                std::mem::swap(&mut entries, &mut self.entries);
                entries.push((k, v));
                self.entries = entries;
                let ghost n: int = old_pairs.len() as int;
                assert(self@ =~= old(self)@.insert(k@, v@)) by {
                    assert forall|key: Seq<u8>| #[trigger] self@.contains_key(key)
                        <==> old(self)@.insert(k@, v@).contains_key(key) by {
                        if key == k@ {
                            assert(self.holds_at(key, n));
                        } else if old(self)@.contains_key(key) {
                            let j = choose|j: int| old(self).holds_at(key, j);
                            assert(self.holds_at(key, j));
                        } else if self@.contains_key(key) {
                            let j = choose|j: int| self.holds_at(key, j);
                            assert(old(self).holds_at(key, j));
                        }
                    }
                    assert forall|key: Seq<u8>| #[trigger] self@.contains_key(key)
                        implies self@[key] == old(self)@.insert(k@, v@)[key] by {
                        let j = choose|j: int| self.holds_at(key, j);
                        if key == k@ {
                            assert(self.holds_at(key, n));
                            assert(j == n);
                        } else {
                            assert(old(self).holds_at(key, j));
                            let j2 = choose|j2: int| old(self).holds_at(key, j2);
                            assert(j2 == j);
                        }
                    }
                }
            },
        }
    }

    /// The entries, each key once.
    pub fn entries(&self) -> (r: &Vec<(Vec<u8>, V)>)
        ensures
            r@ == self.pairs(),
    {
        &self.entries
    }
}

} // verus!
