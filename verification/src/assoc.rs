//! A key-sorted association vector: the verified map both caches
//! (device-type registry, devfs path cache) are built on.

use vstd::prelude::*;

verus! {

/// An association from `u64` keys to values, kept sorted by key with
/// each key held at most once.
pub struct AssocVec<V> {
    entries: Vec<(u64, V)>,
}

impl<V> AssocVec<V> {
    /// The entries, in key order.
    pub closed spec fn spec_entries(self) -> Seq<(u64, V)> {
        self.entries@
    }

    /// Keys strictly increase: sorted, and no key twice.
    pub open spec fn wf(self) -> bool {
        forall|i: int, j: int|
            0 <= i < j < self.spec_entries().len() ==> (#[trigger] self.spec_entries()[i]).0 < (
            #[trigger] self.spec_entries()[j]).0
    }

    /// Is `key` present?
    pub open spec fn contains_key(self, key: u64) -> bool {
        exists|i: int|
            0 <= i < self.spec_entries().len() && (#[trigger] self.spec_entries()[i]).0 == key
    }

    /// The index holding `key` (meaningful only when present).
    pub open spec fn key_index(self, key: u64) -> int {
        choose|i: int|
            0 <= i < self.spec_entries().len() && (#[trigger] self.spec_entries()[i]).0 == key
    }

    /// The value mapped to `key`, if any.
    pub open spec fn spec_get(self, key: u64) -> Option<V> {
        if self.contains_key(key) {
            Some(self.spec_entries()[self.key_index(key)].1)
        } else {
            None
        }
    }

    /// In a well-formed association the index of a key is unique.
    pub proof fn lemma_key_index_is(self, key: u64, i: int)
        requires
            self.wf(),
            0 <= i < self.spec_entries().len(),
            self.spec_entries()[i].0 == key,
        ensures
            self.key_index(key) == i,
            self.contains_key(key),
            self.spec_get(key) == Some(self.spec_entries()[i].1),
    {
        let j = self.key_index(key);
        assert(0 <= j < self.spec_entries().len() && self.spec_entries()[j].0 == key);
        if i < j {
            assert(self.spec_entries()[i].0 < self.spec_entries()[j].0);
        } else if j < i {
            assert(self.spec_entries()[j].0 < self.spec_entries()[i].0);
        }
    }

    /// An empty association.
    pub fn new() -> (r: Self)
        ensures
            r.wf(),
            r.spec_entries() == Seq::<(u64, V)>::empty(),
            forall|key: u64| r.spec_get(key) is None,
    {
        AssocVec { entries: Vec::new() }
    }

    /// How many keys are held.
    pub fn len(&self) -> (r: usize)
        ensures
            r == self.spec_entries().len(),
    {
        self.entries.len()
    }

    /// The entry at an index, in key order.
    pub fn entry_at(&self, i: usize) -> (r: &(u64, V))
        requires
            i < self.spec_entries().len(),
        ensures
            *r == self.spec_entries()[i as int],
    {
        &self.entries[i]
    }

    /// Look `key` up.
    pub fn get(&self, key: u64) -> (r: Option<&V>)
        requires
            self.wf(),
        ensures
            match r {
                Some(v) => self.spec_get(key) == Some(*v),
                None => !self.contains_key(key) && self.spec_get(key) is None,
            },
    {
        let mut i: usize = 0;
        while i < self.entries.len()
            invariant
                0 <= i <= self.entries.len(),
                self.wf(),
                forall|k: int| 0 <= k < i ==> (#[trigger] self.spec_entries()[k]).0 != key,
            decreases self.entries.len() - i,
        {
            if self.entries[i].0 == key {
                proof {
                    self.lemma_key_index_is(key, i as int);
                }
                return Some(&self.entries[i].1);
            }
            i = i + 1;
        }
        None
    }

    /// Map `key` to `value`, replacing any earlier mapping of it.
    pub fn insert(&mut self, key: u64, value: V)
        requires
            old(self).wf(),
        ensures
            final(self).wf(),
            final(self).contains_key(key),
            final(self).spec_get(key) == Some(value),
            forall|q: u64| q != key ==> final(self).spec_get(q) == old(self).spec_get(q),
            forall|k: int|
                0 <= k < final(self).spec_entries().len() ==> (#[trigger] final(self).spec_entries()[k])
                    == (key, value) || old(self).spec_entries().contains(
                    final(self).spec_entries()[k],
                ),
    {
        let ghost olds = self.spec_entries();
        let mut p: usize = 0;
        while p < self.entries.len() && self.entries[p].0 < key
            invariant
                0 <= p <= self.entries.len(),
                self.wf(),
                self.spec_entries() == olds,
                forall|k: int| 0 <= k < p ==> (#[trigger] self.spec_entries()[k]).0 < key,
            decreases self.entries.len() - p,
        {
            p = p + 1;
        }
        if p < self.entries.len() && self.entries[p].0 == key {
            // Replace the existing entry.
            self.entries.remove(p);
            self.entries.insert(p, (key, value));
            proof {
                let news = self.spec_entries();
                assert(news =~= olds.update(p as int, (key, value)));
                assert(final(self).wf());
                assert forall|k: int|
                    0 <= k < news.len() implies (#[trigger] news[k]) == (key, value)
                    || olds.contains(news[k]) by {
                    if k != p {
                        assert(news[k] == olds[k]);
                        assert(olds.contains(olds[k]));
                    }
                }
                final(self).lemma_key_index_is(key, p as int);
                assert forall|q: u64| q != key implies final(self).spec_get(q) == old(
                    self,
                ).spec_get(q) by {
                    if old(self).contains_key(q) {
                        let i = old(self).key_index(q);
                        assert(olds[i].0 == q);
                        assert(i != p);
                        assert(news[i].0 == q);
                        old(self).lemma_key_index_is(q, i);
                        final(self).lemma_key_index_is(q, i);
                    } else {
                        if final(self).contains_key(q) {
                            let i = final(self).key_index(q);
                            assert(news[i].0 == q);
                            assert(i != p);
                            assert(olds[i].0 == q);
                        }
                    }
                }
            }
        } else {
            // Insert a fresh entry, keeping the keys sorted.
            self.entries.insert(p, (key, value));
            proof {
                let news = self.spec_entries();
                assert(news =~= olds.insert(p as int, (key, value)));
                assert(news.len() == olds.len() + 1);
                assert(forall|k: int| 0 <= k < p ==> news[k] == olds[k]);
                assert(news[p as int] == (key, value));
                assert(forall|k: int| p < k < news.len() ==> news[k] == olds[k - 1]);
                assert forall|k: int|
                    0 <= k < news.len() implies (#[trigger] news[k]) == (key, value)
                    || olds.contains(news[k]) by {
                    if k < p {
                        assert(news[k] == olds[k]);
                        assert(olds.contains(olds[k]));
                    } else if k > p {
                        assert(news[k] == olds[k - 1]);
                        assert(olds.contains(olds[k - 1]));
                    }
                }
                assert forall|i: int, j: int|
                    0 <= i < j < news.len() implies (#[trigger] news[i]).0 < (
                #[trigger] news[j]).0 by {
                    if i < p && j == p {
                        assert(olds[i].0 < key);
                    } else if i == p && j > p {
                        assert(olds[j - 1].0 >= key);
                        assert(olds[j - 1].0 != key) by {
                            if olds[j - 1].0 == key && j - 1 > p {
                                assert(olds[p as int].0 < olds[j - 1].0);
                            }
                        }
                    }
                }
                final(self).lemma_key_index_is(key, p as int);
                assert forall|q: u64| q != key implies final(self).spec_get(q) == old(
                    self,
                ).spec_get(q) by {
                    if old(self).contains_key(q) {
                        let i = old(self).key_index(q);
                        old(self).lemma_key_index_is(q, i);
                        if i < p {
                            assert(news[i].0 == q);
                            final(self).lemma_key_index_is(q, i);
                        } else {
                            assert(news[i + 1].0 == q);
                            final(self).lemma_key_index_is(q, i + 1);
                        }
                    } else {
                        if final(self).contains_key(q) {
                            let i = final(self).key_index(q);
                            assert(news[i].0 == q);
                            if i < p {
                                assert(olds[i].0 == q);
                            } else if i > p {
                                assert(olds[i - 1].0 == q);
                            }
                        }
                    }
                }
            }
        }
    }

    /// Drop any mapping of `key`.
    pub fn remove_key(&mut self, key: u64)
        requires
            old(self).wf(),
        ensures
            final(self).wf(),
            !final(self).contains_key(key),
            final(self).spec_get(key) is None,
            forall|q: u64| q != key ==> final(self).spec_get(q) == old(self).spec_get(q),
            forall|k: int|
                0 <= k < final(self).spec_entries().len() ==> old(self).spec_entries().contains(
                    #[trigger] final(self).spec_entries()[k],
                ),
    {
        let ghost olds = self.spec_entries();
        let mut p: usize = 0;
        while p < self.entries.len() && self.entries[p].0 != key
            invariant
                0 <= p <= self.entries.len(),
                self.wf(),
                self.spec_entries() == olds,
                forall|k: int| 0 <= k < p ==> (#[trigger] self.spec_entries()[k]).0 != key,
            decreases self.entries.len() - p,
        {
            p = p + 1;
        }
        if p < self.entries.len() {
            self.entries.remove(p);
            proof {
                let news = self.spec_entries();
                assert(news =~= olds.remove(p as int));
                assert(forall|k: int| 0 <= k < p ==> news[k] == olds[k]);
                assert(forall|k: int| p <= k < news.len() ==> news[k] == olds[k + 1]);
                assert(final(self).wf());
                assert forall|k: int| 0 <= k < news.len() implies olds.contains(
                    #[trigger] news[k],
                ) by {
                    if k < p {
                        assert(news[k] == olds[k]);
                        assert(olds.contains(olds[k]));
                    } else {
                        assert(news[k] == olds[k + 1]);
                        assert(olds.contains(olds[k + 1]));
                    }
                }
                if final(self).contains_key(key) {
                    let i = final(self).key_index(key);
                    assert(news[i].0 == key);
                    if i < p {
                        assert(olds[i].0 == key);
                    } else {
                        assert(olds[i + 1].0 == key);
                        assert(olds[p as int].0 == key);
                        assert(olds[p as int].0 < olds[i + 1].0);
                    }
                }
                assert forall|q: u64| q != key implies final(self).spec_get(q) == old(
                    self,
                ).spec_get(q) by {
                    if old(self).contains_key(q) {
                        let i = old(self).key_index(q);
                        old(self).lemma_key_index_is(q, i);
                        if i < p {
                            assert(news[i].0 == q);
                            final(self).lemma_key_index_is(q, i);
                        } else {
                            assert(i != p);
                            assert(news[i - 1].0 == q);
                            final(self).lemma_key_index_is(q, i - 1);
                        }
                    } else {
                        if final(self).contains_key(q) {
                            let i = final(self).key_index(q);
                            assert(news[i].0 == q);
                            if i < p {
                                assert(olds[i].0 == q);
                            } else {
                                assert(olds[i + 1].0 == q);
                            }
                        }
                    }
                }
            }
        } else {
            proof {
                assert forall|k: int| 0 <= k < olds.len() implies olds.contains(
                    #[trigger] olds[k],
                ) by {
                }
            }
        }
    }
}

} // verus!
