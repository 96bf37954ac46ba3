//! A map keyed by strings (addresses), kept as a list of entries in which each
//! key occurs once.
use vstd::prelude::*;

verus! {

/// A map from strings to values.
#[derive(Clone, Debug)]
pub struct StrMap<V> {
    entries: Vec<(String, V)>,
}

impl<V> StrMap<V> {
    /// The value stored under `k`.
    pub closed spec fn spec_get(&self, k: Seq<char>) -> Option<V> {
        if exists|i: int| 0 <= i < self.entries@.len() && self.entries@[i].0@ == k {
            let i = choose|i: int| 0 <= i < self.entries@.len() && self.entries@[i].0@ == k;
            Some(self.entries@[i].1)
        } else {
            None
        }
    }

    /// Each key occurs once.
    pub closed spec fn wf(&self) -> bool {
        forall|i: int, j: int|
            0 <= i < j < self.entries@.len() ==> #[trigger] self.entries@[i].0@ != #[trigger] self.entries@[j].0@
    }

    proof fn lemma_get_at(&self, i: int)
        requires
            self.wf(),
            0 <= i < self.entries@.len(),
        ensures
            self.spec_get(self.entries@[i].0@) == Some(self.entries@[i].1),
    {
        let k = self.entries@[i].0@;
        let j = choose|j: int| 0 <= j < self.entries@.len() && self.entries@[j].0@ == k;
        if j != i {
            if j < i {
                assert(self.entries@[j].0@ != self.entries@[i].0@);
            } else {
                assert(self.entries@[i].0@ != self.entries@[j].0@);
            }
        }
    }

    /// An empty map.
    pub fn new() -> (m: Self)
        ensures
            m.wf(),
            forall|k: Seq<char>| #[trigger] m.spec_get(k) is None,
    {
        StrMap { entries: Vec::new() }
    }

    fn find(&self, key: &String) -> (r: Option<usize>)
        requires
            self.wf(),
        ensures
            match r {
                Some(i) => i < self.entries@.len() && self.entries@[i as int].0@ == key@,
                None => forall|i: int| 0 <= i < self.entries@.len() ==> #[trigger] self.entries@[i].0@ != key@,
            },
    {
        let mut i: usize = 0;
        while i < self.entries.len()
            invariant
                i <= self.entries@.len(),
                forall|j: int| 0 <= j < i ==> #[trigger] self.entries@[j].0@ != key@,
            decreases self.entries.len() - i,
        {
            if self.entries[i].0 == *key {
                return Some(i);
            }
            i = i + 1;
        }
        None
    }

    /// A copy holding, under each key, a copy of the value there.
    pub fn duplicate(&self) -> (r: Self) where V: crate::bytemap::StoredValue
        requires
            self.wf(),
        ensures
            r.wf(),
            forall|k: Seq<char>| #[trigger] r.spec_get(k) is Some <==> self.spec_get(k) is Some,
            forall|k: Seq<char>| #[trigger] r.spec_get(k) is Some ==> r.spec_get(k)->0@ == self.spec_get(k)->0@,
    {
        let mut entries: Vec<(String, V)> = Vec::new();
        let mut i: usize = 0;
        while i < self.entries.len()
            invariant
                i <= self.entries@.len(),
                entries@.len() == i,
                forall|j: int| 0 <= j < i ==> (#[trigger] entries@[j]).0@ == self.entries@[j].0@
                    && entries@[j].1@ == self.entries@[j].1@,
            decreases self.entries.len() - i,
        {
            let e = (self.entries[i].0.clone(), self.entries[i].1.duplicate());
            entries.push(e);
            i = i + 1;
        }
        let r = StrMap { entries };
        proof {
            assert forall|a: int, b: int| 0 <= a < b < r.entries@.len() implies #[trigger] r.entries@[a].0@
                != #[trigger] r.entries@[b].0@ by {
                assert(self.entries@[a].0@ != self.entries@[b].0@);
            }
            assert forall|k: Seq<char>| #[trigger] r.spec_get(k) is Some <==> self.spec_get(k) is Some by {
                if exists|j: int| 0 <= j < self.entries@.len() && self.entries@[j].0@ == k {
                    let j = choose|j: int| 0 <= j < self.entries@.len() && self.entries@[j].0@ == k;
                    assert(r.entries@[j].0@ == k);
                }
                if exists|j: int| 0 <= j < r.entries@.len() && r.entries@[j].0@ == k {
                    let j = choose|j: int| 0 <= j < r.entries@.len() && r.entries@[j].0@ == k;
                    assert(self.entries@[j].0@ == k);
                }
            }
            assert forall|k: Seq<char>| #[trigger] r.spec_get(k) is Some implies r.spec_get(k)->0@
                == self.spec_get(k)->0@ by {
                let j = choose|j: int| 0 <= j < r.entries@.len() && r.entries@[j].0@ == k;
                r.lemma_get_at(j);
                self.lemma_get_at(j);
            }
        }
        r
    }

    /// The value stored under `key`.
    pub fn get(&self, key: &String) -> (r: Option<&V>)
        requires
            self.wf(),
        ensures
            match r {
                Some(v) => self.spec_get(key@) == Some(*v),
                None => self.spec_get(key@) is None,
            },
    {
        match self.find(key) {
            Some(i) => {
                proof {
                    self.lemma_get_at(i as int);
                }
                Some(&self.entries[i].1)
            },
            None => None,
        }
    }

    /// Stores `value` under `key`, replacing what was there.
    pub fn insert(&mut self, key: String, value: V)
        requires
            old(self).wf(),
        ensures
            final(self).wf(),
            forall|k: Seq<char>| #[trigger] final(self).spec_get(k) == if k == key@ {
                Some(value)
            } else {
                old(self).spec_get(k)
            },
    {
        let ghost old_e = self.entries@;
        let ghost kv = key@;
        let ghost vv = value;
        match self.find(&key) {
            Some(i) => {
                self.entries.remove(i);
                self.entries.insert(i, (key, value));
                proof {
                    assert(self.entries@ =~= old_e.update(i as int, self.entries@[i as int]));
                    assert forall|a: int, b: int| 0 <= a < b < self.entries@.len() implies #[trigger] self.entries@[a].0@
                        != #[trigger] self.entries@[b].0@ by {
                        assert(a != i ==> self.entries@[a] == old_e[a]);
                        assert(b != i ==> self.entries@[b] == old_e[b]);
                    }
                    assert forall|k: Seq<char>| #[trigger] self.spec_get(k) == if k == kv {
                        Some(vv)
                    } else {
                        old(self).spec_get(k)
                    } by {
                        if k == kv {
                            self.lemma_get_at(i as int);
                        } else {
                            if exists|j: int| 0 <= j < old_e.len() && old_e[j].0@ == k {
                                let j = choose|j: int| 0 <= j < old_e.len() && old_e[j].0@ == k;
                                old(self).lemma_get_at(j);
                                assert(self.entries@[j] == old_e[j]);
                                self.lemma_get_at(j);
                            } else {
                                assert forall|j: int| 0 <= j < self.entries@.len() implies self.entries@[j].0@ != k by {
                                    if j != i {
                                        assert(self.entries@[j] == old_e[j]);
                                    }
                                }
                            }
                        }
                    }
                }
            },
            None => {
                self.entries.push((key, value));
                proof {
                    let n = old_e.len() as int;
                    assert forall|a: int, b: int| 0 <= a < b < self.entries@.len() implies #[trigger] self.entries@[a].0@
                        != #[trigger] self.entries@[b].0@ by {
                        assert(self.entries@[a] == old_e[a]);
                        if b < n {
                            assert(self.entries@[b] == old_e[b]);
                        }
                    }
                    assert forall|k: Seq<char>| #[trigger] self.spec_get(k) == if k == kv {
                        Some(vv)
                    } else {
                        old(self).spec_get(k)
                    } by {
                        if k == kv {
                            self.lemma_get_at(n);
                        } else {
                            if exists|j: int| 0 <= j < old_e.len() && old_e[j].0@ == k {
                                let j = choose|j: int| 0 <= j < old_e.len() && old_e[j].0@ == k;
                                old(self).lemma_get_at(j);
                                assert(self.entries@[j] == old_e[j]);
                                self.lemma_get_at(j);
                            } else {
                                assert forall|j: int| 0 <= j < self.entries@.len() implies self.entries@[j].0@ != k by {
                                    if j < n {
                                        assert(self.entries@[j] == old_e[j]);
                                    }
                                }
                            }
                        }
                    }
                }
            },
        }
    }
}

} // verus!
