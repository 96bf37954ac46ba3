//! An ordered map from byte-string keys to values, kept as a vector of entries
//! sorted by key. It stands where an ordered tree map keyed by `Vec<u8>` would
//! stand: each key occurs once, and walking it yields the keys in
//! lexicographic order.
use vstd::prelude::*;

use crate::bytes::{compare_bytes, copy_bytes, key_before, lemma_before_order, lemma_lex_order, lex_lt, sorted_keys, KeyCmp, Order};

verus! {

/// Values that a `ByteMap` can hand out copies of.
pub trait StoredValue: View + Sized {
    /// A copy with the same view.
    fn duplicate(&self) -> (r: Self)
        ensures
            r@ == self@,
    ;
}

impl StoredValue for Vec<u8> {
    fn duplicate(&self) -> (r: Vec<u8>) {
        copy_bytes(self.as_slice())
    }
}

/// The value stored under `k` in a list of entries (the last entry with that
/// key wins; in a map with distinct keys there is at most one).
pub open spec fn lookup<V>(s: Seq<(Seq<u8>, V)>, k: Seq<u8>) -> Option<V>
    decreases s.len(),
{
    if s.len() == 0 {
        None
    } else if s.last().0 == k {
        Some(s.last().1)
    } else {
        lookup(s.drop_last(), k)
    }
}

/// No key occurs twice in `s`.
pub open spec fn distinct_keys<V>(s: Seq<(Seq<u8>, V)>) -> bool {
    forall|i: int, j: int| 0 <= i < j < s.len() ==> #[trigger] s[i].0 != #[trigger] s[j].0
}

/// `k` lies in the half-open range `[start, end)`; a missing bound does not
/// restrict.
pub open spec fn in_range(k: Seq<u8>, start: Option<Seq<u8>>, end: Option<Seq<u8>>) -> bool {
    &&& (match start {
        Some(s) => !lex_lt(k, s),
        None => true,
    })
    &&& (match end {
        Some(e) => lex_lt(k, e),
        None => true,
    })
}

pub open spec fn opt_view(b: Option<&[u8]>) -> Option<Seq<u8>> {
    match b {
        Some(s) => Some(s@),
        None => None,
    }
}

pub proof fn lemma_sorted_distinct<V>(s: Seq<(Seq<u8>, V)>, order: Order)
    requires
        sorted_keys(s, order),
    ensures
        distinct_keys(s),
{
    assert forall|i: int, j: int| 0 <= i < j < s.len() implies #[trigger] s[i].0
        != #[trigger] s[j].0 by {
        lemma_before_order(s[i].0, s[j].0, s[j].0, order);
    }
}

pub proof fn lemma_lookup_index<V>(s: Seq<(Seq<u8>, V)>, i: int)
    requires
        distinct_keys(s),
        0 <= i < s.len(),
    ensures
        lookup(s, s[i].0) == Some(s[i].1),
    decreases s.len(),
{
    if i < s.len() - 1 {
        assert(s[i].0 != s[s.len() - 1].0);
        assert(s.drop_last()[i] == s[i]);
        lemma_lookup_index(s.drop_last(), i);
    }
}

pub proof fn lemma_lookup_absent<V>(s: Seq<(Seq<u8>, V)>, k: Seq<u8>)
    requires
        forall|i: int| 0 <= i < s.len() ==> #[trigger] s[i].0 != k,
    ensures
        lookup(s, k) is None,
    decreases s.len(),
{
    if s.len() > 0 {
        assert forall|i: int| 0 <= i < s.drop_last().len() implies #[trigger] s.drop_last()[i].0
            != k by {
            assert(s.drop_last()[i] == s[i]);
        }
        lemma_lookup_absent(s.drop_last(), k);
    }
}

pub proof fn lemma_lookup_present<V>(s: Seq<(Seq<u8>, V)>, k: Seq<u8>) -> (i: int)
    requires
        lookup(s, k) is Some,
    ensures
        0 <= i < s.len(),
        s[i].0 == k,
        lookup(s, k) == Some(s[i].1),
    decreases s.len(),
{
    if s.last().0 == k {
        s.len() - 1
    } else {
        let j = lemma_lookup_present(s.drop_last(), k);
        assert(s.drop_last()[j] == s[j]);
        j
    }
}

/// Putting an entry in front of a list with distinct keys.
pub proof fn lemma_lookup_prepend<V>(x: (Seq<u8>, V), s: Seq<(Seq<u8>, V)>, k: Seq<u8>)
    requires
        distinct_keys(seq![x] + s),
    ensures
        lookup(seq![x] + s, k) == if x.0 == k {
            Some(x.1)
        } else {
            lookup(s, k)
        },
{
    let t = seq![x] + s;
    assert(t[0] == x);
    if x.0 == k {
        lemma_lookup_index(t, 0);
    } else {
        assert(distinct_keys(s)) by {
            assert forall|i: int, j: int| 0 <= i < j < s.len() implies #[trigger] s[i].0
                != #[trigger] s[j].0 by {
                assert(t[i + 1] == s[i] && t[j + 1] == s[j]);
            }
        }
        match lookup(s, k) {
            Some(v) => {
                let i = lemma_lookup_present(s, k);
                assert(t[i + 1] == s[i]);
                lemma_lookup_index(t, i + 1);
            },
            None => {
                assert forall|i: int| 0 <= i < t.len() implies #[trigger] t[i].0 != k by {
                    if i > 0 {
                        assert(t[i] == s[i - 1]);
                        if s[i - 1].0 == k {
                            lemma_lookup_index(s, i - 1);
                        }
                    }
                }
                lemma_lookup_absent(t, k);
            },
        }
    }
}

/// Adding an entry at the back.
pub proof fn lemma_lookup_push<V>(s: Seq<(Seq<u8>, V)>, x: (Seq<u8>, V), k: Seq<u8>)
    ensures
        lookup(s.push(x), k) == if x.0 == k {
            Some(x.1)
        } else {
            lookup(s, k)
        },
{
    assert(s.push(x).drop_last() =~= s);
}

/// The entries of a prefix, one longer.
pub proof fn lemma_lookup_take<V>(s: Seq<(Seq<u8>, V)>, i: int, k: Seq<u8>)
    requires
        0 <= i < s.len(),
    ensures
        lookup(s.take(i + 1), k) == if s[i].0 == k {
            Some(s[i].1)
        } else {
            lookup(s.take(i), k)
        },
{
    assert(s.take(i + 1).drop_last() =~= s.take(i));
}

/// The opposite walking order.
pub open spec fn reversed_order(order: Order) -> Order {
    match order {
        Order::Ascending => Order::Descending,
        Order::Descending => Order::Ascending,
    }
}

/// In a list with distinct keys, the entry under `k` is found wherever it
/// stands: lookups do not depend on the order of the entries.
proof fn lemma_lookup_distinct_reverse<V>(s: Seq<(Seq<u8>, V)>, k: Seq<u8>)
    requires
        distinct_keys(s),
    ensures
        distinct_keys(s.reverse()),
        lookup(s.reverse(), k) == lookup(s, k),
{
    let r = s.reverse();
    let n = s.len() as int;
    assert forall|i: int, j: int| 0 <= i < j < r.len() implies #[trigger] r[i].0 != #[trigger] r[j].0 by {
        assert(r[i] == s[n - 1 - i] && r[j] == s[n - 1 - j]);
    }
    match lookup(s, k) {
        Some(v) => {
            let i = lemma_lookup_present(s, k);
            lemma_lookup_index(s, i);
            assert(r[n - 1 - i] == s[i]);
            lemma_lookup_index(r, n - 1 - i);
        },
        None => {
            assert forall|i: int| 0 <= i < r.len() implies #[trigger] r[i].0 != k by {
                assert(r[i] == s[n - 1 - i]);
                if s[n - 1 - i].0 == k {
                    lemma_lookup_index(s, n - 1 - i);
                }
            }
            lemma_lookup_absent(r, k);
        },
    }
}

/// Reversing a sorted list sorts it in the opposite order.
proof fn lemma_reverse_sorted<V>(s: Seq<(Seq<u8>, V)>, order: Order)
    requires
        sorted_keys(s, order),
    ensures
        sorted_keys(s.reverse(), reversed_order(order)),
{
    let r = s.reverse();
    let n = s.len() as int;
    assert forall|i: int, j: int| 0 <= i < j < r.len() implies key_before(
        #[trigger] r[i].0,
        #[trigger] r[j].0,
        reversed_order(order),
    ) by {
        assert(r[i] == s[n - 1 - i] && r[j] == s[n - 1 - j]);
        assert(key_before(s[n - 1 - j].0, s[n - 1 - i].0, order));
    }
}

/// Two lists sorted in the same order that hold the same entries are equal.
proof fn lemma_sorted_unique<V>(s1: Seq<(Seq<u8>, V)>, s2: Seq<(Seq<u8>, V)>, order: Order)
    requires
        sorted_keys(s1, order),
        sorted_keys(s2, order),
        forall|k: Seq<u8>| #[trigger] lookup(s1, k) == lookup(s2, k),
    ensures
        s1 == s2,
    decreases s1.len(),
{
    lemma_sorted_distinct(s1, order);
    lemma_sorted_distinct(s2, order);
    if s1.len() == 0 || s2.len() == 0 {
        if s1.len() > 0 {
            lemma_lookup_index(s1, 0);
            assert(lookup(s2, s1[0].0) is None);
        }
        if s2.len() > 0 {
            lemma_lookup_index(s2, 0);
            assert(lookup(s1, s2[0].0) is None);
        }
        assert(s1 =~= s2);
    } else {
        let a = s1[0];
        let b = s2[0];
        lemma_lookup_index(s1, 0);
        lemma_lookup_index(s2, 0);
        assert(lookup(s2, a.0) == Some(a.1));
        assert(lookup(s1, b.0) == Some(b.1));
        let i2 = lemma_lookup_present(s2, a.0);
        let i1 = lemma_lookup_present(s1, b.0);
        if a.0 != b.0 {
            assert(i2 > 0 && i1 > 0);
            assert(key_before(b.0, a.0, order));
            assert(key_before(a.0, b.0, order));
            lemma_before_order(a.0, b.0, a.0, order);
        }
        assert(a == b);
        let t1 = s1.drop_first();
        let t2 = s2.drop_first();
        assert(s1 =~= seq![a] + t1);
        assert(s2 =~= seq![b] + t2);
        assert(sorted_keys(t1, order)) by {
            assert forall|i: int, j: int| 0 <= i < j < t1.len() implies key_before(
                #[trigger] t1[i].0,
                #[trigger] t1[j].0,
                order,
            ) by {
                assert(t1[i] == s1[i + 1] && t1[j] == s1[j + 1]);
            }
        }
        assert(sorted_keys(t2, order)) by {
            assert forall|i: int, j: int| 0 <= i < j < t2.len() implies key_before(
                #[trigger] t2[i].0,
                #[trigger] t2[j].0,
                order,
            ) by {
                assert(t2[i] == s2[i + 1] && t2[j] == s2[j + 1]);
            }
        }
        assert forall|k: Seq<u8>| #[trigger] lookup(t1, k) == lookup(t2, k) by {
            lemma_lookup_prepend(a, t1, k);
            lemma_lookup_prepend(b, t2, k);
            if k == a.0 {
                assert forall|i: int| 0 <= i < t1.len() implies #[trigger] t1[i].0 != k by {
                    assert(t1[i] == s1[i + 1]);
                }
                lemma_lookup_absent(t1, k);
                assert forall|i: int| 0 <= i < t2.len() implies #[trigger] t2[i].0 != k by {
                    assert(t2[i] == s2[i + 1]);
                }
                lemma_lookup_absent(t2, k);
            } else {
                assert(lookup(s1, k) == lookup(s2, k));
            }
        }
        lemma_sorted_unique(t1, t2, order);
    }
}

/// A walk in descending order is the walk in ascending order reversed: two
/// walks over the same entries, one sorted up and one sorted down (as
/// `ByteMap::range`, `PendingOps::merged_range` and `WasmStorage::scan` give
/// them for the two orders), are each other's reverse.
pub proof fn law_descending_walk_reverses_ascending<V>(
    asc: Seq<(Seq<u8>, V)>,
    desc: Seq<(Seq<u8>, V)>,
)
    requires
        sorted_keys(asc, Order::Ascending),
        sorted_keys(desc, Order::Descending),
        forall|k: Seq<u8>| #[trigger] lookup(asc, k) == lookup(desc, k),
    ensures
        desc == asc.reverse(),
{
    lemma_sorted_distinct(asc, Order::Ascending);
    lemma_reverse_sorted(asc, Order::Ascending);
    assert forall|k: Seq<u8>| #[trigger] lookup(asc.reverse(), k) == lookup(desc, k) by {
        lemma_lookup_distinct_reverse(asc, k);
    }
    lemma_sorted_unique(asc.reverse(), desc, Order::Descending);
}

/// Whether `k` lies in the half-open range `[start, end)`.
pub fn key_in_range(k: &[u8], start: Option<&[u8]>, end: Option<&[u8]>) -> (r: bool)
    ensures
        r == in_range(k@, opt_view(start), opt_view(end)),
{
    let above = match start {
        Some(s) => compare_bytes(k, s) != KeyCmp::Less,
        None => true,
    };
    let below = match end {
        Some(e) => compare_bytes(k, e) == KeyCmp::Less,
        None => true,
    };
    above && below
}

/// A map from byte strings to values, kept sorted by key.
#[derive(Clone, Debug)]
pub struct ByteMap<V> {
    entries: Vec<(Vec<u8>, V)>,
}

pub open spec fn entry_view<V: View>(e: (Vec<u8>, V)) -> (Seq<u8>, V::V) {
    (e.0@, e.1@)
}

/// The view of a list of records.
pub open spec fn records_view<V: View>(v: Seq<(Vec<u8>, V)>) -> Seq<(Seq<u8>, V::V)> {
    v.map_values(|e: (Vec<u8>, V)| entry_view(e))
}

impl<V: View> ByteMap<V> {
    /// The entries, in ascending key order.
    pub closed spec fn contents(&self) -> Seq<(Seq<u8>, V::V)> {
        records_view(self.entries@)
    }

    /// The value stored under `k`.
    pub open spec fn spec_get(&self, k: Seq<u8>) -> Option<V::V> {
        lookup(self.contents(), k)
    }

    /// Keys strictly ascend (hence each key occurs once).
    pub closed spec fn wf(&self) -> bool {
        sorted_keys(self.contents(), Order::Ascending)
    }

    pub proof fn lemma_wf(&self)
        requires
            self.wf(),
        ensures
            sorted_keys(self.contents(), Order::Ascending),
            distinct_keys(self.contents()),
    {
        lemma_sorted_distinct(self.contents(), Order::Ascending);
    }

    /// An empty map.
    pub fn new() -> (m: Self)
        ensures
            m.wf(),
            m.contents() == Seq::<(Seq<u8>, V::V)>::empty(),
            forall|k: Seq<u8>| m.spec_get(k) is None,
    {
        let m = ByteMap { entries: Vec::new() };
        assert(m.contents() =~= Seq::<(Seq<u8>, V::V)>::empty());
        m
    }

    /// A map holding exactly the given entries, whose keys must strictly
    /// ascend.
    pub fn from_sorted(entries: Vec<(Vec<u8>, V)>) -> (m: Self)
        requires
            sorted_keys(records_view(entries@), Order::Ascending),
        ensures
            m.wf(),
            m.contents() == records_view(entries@),
    {
        ByteMap { entries }
    }

    /// A copy with the same entries.
    pub fn duplicate(&self) -> (r: Self) where V: StoredValue
        ensures
            r.contents() == self.contents(),
            self.wf() ==> r.wf(),
    {
        let mut entries: Vec<(Vec<u8>, V)> = Vec::new();
        let mut i: usize = 0;
        while i < self.entries.len()
            invariant
                i <= self.entries@.len(),
                records_view(entries@) == records_view(self.entries@).take(i as int),
            decreases self.entries.len() - i,
        {
            let ghost before = records_view(entries@);
            let e = (copy_bytes(self.entries[i].0.as_slice()), self.entries[i].1.duplicate());
            entries.push(e);
            assert(records_view(entries@) =~= before.push(records_view(self.entries@)[i as int]));
            i = i + 1;
            assert(records_view(entries@) =~= records_view(self.entries@).take(i as int));
        }
        assert(records_view(self.entries@).take(i as int) =~= records_view(self.entries@));
        ByteMap { entries }
    }

    /// Two maps with the same entries are both well formed or both not.
    pub proof fn lemma_wf_by_contents(&self, other: &Self)
        requires
            self.wf(),
            other.contents() == self.contents(),
        ensures
            other.wf(),
    {
    }

    /// The entries, in ascending key order.
    pub fn entries(&self) -> (r: &Vec<(Vec<u8>, V)>)
        ensures
            records_view(r@) == self.contents(),
    {
        &self.entries
    }

    /// The number of keys.
    pub fn len(&self) -> (n: usize)
        ensures
            n == self.contents().len(),
    {
        self.entries.len()
    }

    /// The first position whose key is not below `key`, and whether that
    /// key is `key` itself.
    fn find(&self, key: &[u8]) -> (r: (usize, bool))
        requires
            self.wf(),
        ensures
            r.0 <= self.contents().len(),
            forall|j: int| 0 <= j < r.0 ==> lex_lt(#[trigger] self.contents()[j].0, key@),
            r.0 < self.contents().len() ==> !lex_lt(self.contents()[r.0 as int].0, key@),
            r.1 <==> (r.0 < self.contents().len() && self.contents()[r.0 as int].0 == key@),
    {
        let mut i: usize = 0;
        while i < self.entries.len()
            invariant
                i <= self.contents().len(),
                self.contents().len() == self.entries@.len(),
                forall|j: int| 0 <= j < i ==> lex_lt(#[trigger] self.contents()[j].0, key@),
            decreases self.entries.len() - i,
        {
            let c = compare_bytes(self.entries[i].0.as_slice(), key);
            assert(self.contents()[i as int].0 == self.entries@[i as int].0@);
            match c {
                KeyCmp::Less => {
                    i = i + 1;
                },
                KeyCmp::Equal => {
                    return (i, true);
                },
                KeyCmp::Greater => {
                    proof {
                        lemma_lex_order(key@, self.contents()[i as int].0, key@);
                    }
                    return (i, false);
                },
            }
        }
        (i, false)
    }

    /// The value stored under `key`.
    pub fn get(&self, key: &[u8]) -> (r: Option<&V>)
        requires
            self.wf(),
        ensures
            match r {
                Some(v) => self.spec_get(key@) == Some(v@),
                None => self.spec_get(key@) is None,
            },
    {
        proof {
            self.lemma_wf();
        }
        let (i, found) = self.find(key);
        if found {
            proof {
                lemma_lookup_index(self.contents(), i as int);
            }
            Some(&self.entries[i].1)
        } else {
            proof {
                assert forall|j: int| 0 <= j < self.contents().len() implies #[trigger] self.contents()[j].0
                    != key@ by {
                    if j < i {
                        lemma_lex_order(key@, key@, key@);
                    } else if j > i {
                        lemma_lex_order(self.contents()[i as int].0, self.contents()[j].0, key@);
                        lemma_lex_order(key@, self.contents()[i as int].0, self.contents()[j].0);
                    }
                }
                lemma_lookup_absent(self.contents(), key@);
            }
            None
        }
    }

    /// Stores `value` under `key`, replacing what was there.
    pub fn insert(&mut self, key: Vec<u8>, value: V)
        requires
            old(self).wf(),
        ensures
            final(self).wf(),
            forall|k: Seq<u8>| #[trigger] final(self).spec_get(k) == if k == key@ {
                Some(value@)
            } else {
                old(self).spec_get(k)
            },
    {
        proof {
            self.lemma_wf();
        }
        let ghost old_c = self.contents();
        let ghost e = (key@, value@);
        let (i, found) = self.find(key.as_slice());
        if found {
            self.entries.remove(i);
            self.entries.insert(i, (key, value));
            proof {
                assert(self.contents() =~= old_c.update(i as int, e));
                assert(sorted_keys(self.contents(), Order::Ascending));
                lemma_sorted_distinct(self.contents(), Order::Ascending);
                assert forall|k: Seq<u8>| #[trigger] self.spec_get(k) == if k == key@ {
                    Some(value@)
                } else {
                    old(self).spec_get(k)
                } by {
                    Self::lemma_lookup_same_keys(old_c, self.contents(), i as int, k);
                }
            }
        } else {
            self.entries.insert(i, (key, value));
            proof {
                assert(self.contents() =~= old_c.insert(i as int, e));
                assert forall|a: int, b: int| 0 <= a < b < self.contents().len() implies key_before(
                    #[trigger] self.contents()[a].0,
                    #[trigger] self.contents()[b].0,
                    Order::Ascending,
                ) by {
                    let c = self.contents();
                    if b < i {
                    } else if b == i {
                        assert(c[a] == old_c[a]);
                    } else if a == i {
                        assert(c[b] == old_c[b - 1]);
                        assert(!lex_lt(old_c[i as int].0, key@));
                        if b - 1 > i {
                            lemma_lex_order(key@, old_c[i as int].0, old_c[b - 1].0);
                        }
                        lemma_lex_order(key@, old_c[i as int].0, key@);
                    } else if a < i {
                        assert(c[a] == old_c[a]);
                        assert(c[b] == old_c[b - 1]);
                        if a < b - 1 {
                        }
                    } else {
                        assert(c[a] == old_c[a - 1]);
                        assert(c[b] == old_c[b - 1]);
                    }
                }
                lemma_sorted_distinct(self.contents(), Order::Ascending);
                assert forall|k: Seq<u8>| #[trigger] self.spec_get(k) == if k == key@ {
                    Some(value@)
                } else {
                    old(self).spec_get(k)
                } by {
                    Self::lemma_lookup_inserted(old_c, self.contents(), i as int, k);
                }
            }
        }
    }

    /// Removes what is stored under `key`, handing it back.
    pub fn remove(&mut self, key: &[u8]) -> (r: Option<V>)
        requires
            old(self).wf(),
        ensures
            final(self).wf(),
            match r {
                Some(v) => old(self).spec_get(key@) == Some(v@),
                None => old(self).spec_get(key@) is None,
            },
            forall|k: Seq<u8>| #[trigger] final(self).spec_get(k) == if k == key@ {
                None
            } else {
                old(self).spec_get(k)
            },
    {
        proof {
            self.lemma_wf();
        }
        let ghost old_c = self.contents();
        let (i, found) = self.find(key);
        if found {
            proof {
                lemma_lookup_index(old_c, i as int);
            }
            let (_, v) = self.entries.remove(i);
            proof {
                assert(self.contents() =~= old_c.remove(i as int));
                assert forall|a: int, b: int| 0 <= a < b < self.contents().len() implies key_before(
                    #[trigger] self.contents()[a].0,
                    #[trigger] self.contents()[b].0,
                    Order::Ascending,
                ) by {
                    let c = self.contents();
                    if b < i {
                    } else if a < i {
                        assert(c[a] == old_c[a]);
                        assert(c[b] == old_c[b + 1]);
                    } else {
                        assert(c[a] == old_c[a + 1]);
                        assert(c[b] == old_c[b + 1]);
                    }
                }
                lemma_sorted_distinct(self.contents(), Order::Ascending);
                assert forall|k: Seq<u8>| #[trigger] self.spec_get(k) == if k == key@ {
                    None
                } else {
                    old(self).spec_get(k)
                } by {
                    Self::lemma_lookup_inserted(self.contents(), old_c, i as int, k);
                    if k == key@ {
                        assert forall|j: int| 0 <= j < self.contents().len() implies #[trigger] self.contents()[j].0 != k by {
                            if j < i {
                                assert(self.contents()[j] == old_c[j]);
                            } else {
                                assert(self.contents()[j] == old_c[j + 1]);
                            }
                        }
                        lemma_lookup_absent(self.contents(), k);
                    }
                }
            }
            Some(v)
        } else {
            proof {
                assert forall|j: int| 0 <= j < old_c.len() implies #[trigger] old_c[j].0 != key@ by {
                    if j < i {
                        lemma_lex_order(key@, key@, key@);
                    } else if j > i {
                        lemma_lex_order(old_c[i as int].0, old_c[j].0, key@);
                        lemma_lex_order(key@, old_c[i as int].0, old_c[j].0);
                    }
                }
                lemma_lookup_absent(old_c, key@);
            }
            None
        }
    }

    /// Hands out every entry in ascending key order, leaving the map empty.
    pub fn take_all(&mut self) -> (r: Vec<(Vec<u8>, V)>)
        requires
            old(self).wf(),
        ensures
            final(self).wf(),
            records_view(r@) == old(self).contents(),
            final(self).contents() == Seq::<(Seq<u8>, V::V)>::empty(),
            forall|k: Seq<u8>| #[trigger] final(self).spec_get(k) is None,
    {
        let mut r: Vec<(Vec<u8>, V)> = Vec::new();
        std::mem::swap(&mut r, &mut self.entries);
        assert(self.contents() =~= Seq::<(Seq<u8>, V::V)>::empty());
        r
    }

    /// The entries whose keys lie in `[start, end)`, walked in `order`.
    pub fn range(&self, start: Option<&[u8]>, end: Option<&[u8]>, order: Order) -> (r: Vec<
        (Vec<u8>, V),
    >) where V: StoredValue
        requires
            self.wf(),
        ensures
            sorted_keys(records_view(r@), order),
            forall|k: Seq<u8>| #[trigger]
                lookup(records_view(r@), k) == if in_range(k, opt_view(start), opt_view(end)) {
                    self.spec_get(k)
                } else {
                    None
                },
    {
        proof {
            self.lemma_wf();
        }
        let ghost c = self.contents();
        let n = self.entries.len();
        let mut r: Vec<(Vec<u8>, V)> = Vec::new();
        match order {
            Order::Ascending => {
                let mut i: usize = 0;
                while i < n
                    invariant
                        n == c.len(),
                        c == self.contents(),
                        self.entries@.len() == n,
                        sorted_keys(c, Order::Ascending),
                        i <= n,
                        sorted_keys(records_view(r@), Order::Ascending),
                        forall|j: int, m: int|
                            0 <= j < r@.len() && i <= m < n ==> lex_lt(
                                #[trigger] records_view(r@)[j].0,
                                #[trigger] c[m].0,
                            ),
                        forall|k: Seq<u8>| #[trigger]
                            lookup(records_view(r@), k) == if in_range(
                                k,
                                opt_view(start),
                                opt_view(end),
                            ) {
                                lookup(c.take(i as int), k)
                            } else {
                                None
                            },
                    decreases n - i,
                {
                    let ghost rv = records_view(r@);
                    let key = &self.entries[i].0;
                    assert(c[i as int].0 == key@);
                    if key_in_range(key.as_slice(), start, end) {
                        let k2 = copy_bytes(key.as_slice());
                        let v2 = self.entries[i].1.duplicate();
                        r.push((k2, v2));
                        proof {
                            assert(records_view(r@) =~= rv.push(c[i as int]));
                        }
                    }
                    proof {
                        let rv2 = records_view(r@);
                        assert forall|k: Seq<u8>| #[trigger]
                            lookup(rv2, k) == if in_range(k, opt_view(start), opt_view(end)) {
                                lookup(c.take(i + 1), k)
                            } else {
                                None
                            } by {
                            lemma_lookup_take(c, i as int, k);
                            if rv2.len() > rv.len() {
                                lemma_lookup_push(rv, c[i as int], k);
                            }
                        }
                    }
                    i = i + 1;
                }
                assert(c.take(n as int) =~= c);
            },
            Order::Descending => {
                let mut i: usize = n;
                while i > 0
                    invariant
                        n == c.len(),
                        c == self.contents(),
                        self.entries@.len() == n,
                        sorted_keys(c, Order::Ascending),
                        distinct_keys(c),
                        i <= n,
                        sorted_keys(records_view(r@), Order::Descending),
                        forall|j: int, m: int|
                            0 <= j < r@.len() && 0 <= m < i ==> lex_lt(
                                #[trigger] c[m].0,
                                #[trigger] records_view(r@)[j].0,
                            ),
                        forall|k: Seq<u8>| #[trigger]
                            lookup(records_view(r@), k) == if in_range(
                                k,
                                opt_view(start),
                                opt_view(end),
                            ) {
                                lookup(c.subrange(i as int, n as int), k)
                            } else {
                                None
                            },
                    decreases i,
                {
                    i = i - 1;
                    let ghost rv = records_view(r@);
                    let key = &self.entries[i].0;
                    assert(c[i as int].0 == key@);
                    if key_in_range(key.as_slice(), start, end) {
                        let k2 = copy_bytes(key.as_slice());
                        let v2 = self.entries[i].1.duplicate();
                        r.push((k2, v2));
                        proof {
                            assert(records_view(r@) =~= rv.push(c[i as int]));
                        }
                    }
                    proof {
                        let rv2 = records_view(r@);
                        let suf = c.subrange(i as int + 1, n as int);
                        assert(c.subrange(i as int, n as int) =~= seq![c[i as int]] + suf);
                        assert(distinct_keys(seq![c[i as int]] + suf)) by {
                            let t = seq![c[i as int]] + suf;
                            assert forall|a: int, b: int| 0 <= a < b < t.len() implies #[trigger] t[a].0
                                != #[trigger] t[b].0 by {
                                assert(t[a] == c[i + a]);
                                assert(t[b] == c[i + b]);
                            }
                        }
                        assert forall|k: Seq<u8>| #[trigger]
                            lookup(rv2, k) == if in_range(k, opt_view(start), opt_view(end)) {
                                lookup(c.subrange(i as int, n as int), k)
                            } else {
                                None
                            } by {
                            lemma_lookup_prepend(c[i as int], suf, k);
                            if rv2.len() > rv.len() {
                                lemma_lookup_push(rv, c[i as int], k);
                            }
                        }
                    }
                }
                assert(c.subrange(0, n as int) =~= c);
            },
        }
        r
    }

    proof fn lemma_lookup_same_keys(
        old_c: Seq<(Seq<u8>, V::V)>,
        c: Seq<(Seq<u8>, V::V)>,
        i: int,
        k: Seq<u8>,
    )
        requires
            distinct_keys(old_c),
            distinct_keys(c),
            0 <= i < old_c.len(),
            c.len() == old_c.len(),
            c[i].0 == old_c[i].0,
            forall|j: int| 0 <= j < c.len() && j != i ==> c[j] == old_c[j],
        ensures
            lookup(c, k) == if k == c[i].0 {
                Some(c[i].1)
            } else {
                lookup(old_c, k)
            },
    {
        if k == c[i].0 {
            lemma_lookup_index(c, i);
        } else {
            match lookup(old_c, k) {
                Some(v) => {
                    let j = lemma_lookup_present(old_c, k);
                    lemma_lookup_index(c, j);
                },
                None => {
                    assert forall|j: int| 0 <= j < c.len() implies #[trigger] c[j].0 != k by {
                        if j != i && c[j].0 == k {
                            lemma_lookup_index(old_c, j);
                        }
                    }
                    lemma_lookup_absent(c, k);
                },
            }
        }
    }

    proof fn lemma_lookup_inserted(
        old_c: Seq<(Seq<u8>, V::V)>,
        c: Seq<(Seq<u8>, V::V)>,
        i: int,
        k: Seq<u8>,
    )
        requires
            distinct_keys(old_c),
            distinct_keys(c),
            0 <= i <= old_c.len(),
            c.len() == old_c.len() + 1,
            forall|j: int| 0 <= j < i ==> c[j] == old_c[j],
            forall|j: int| i < j < c.len() ==> c[j] == old_c[j - 1],
        ensures
            lookup(c, k) == if k == c[i].0 {
                Some(c[i].1)
            } else {
                lookup(old_c, k)
            },
    {
        if k == c[i].0 {
            lemma_lookup_index(c, i);
        } else {
            match lookup(old_c, k) {
                Some(v) => {
                    let j = lemma_lookup_present(old_c, k);
                    if j < i {
                        lemma_lookup_index(c, j);
                    } else {
                        lemma_lookup_index(c, j + 1);
                    }
                },
                None => {
                    assert forall|j: int| 0 <= j < c.len() implies #[trigger] c[j].0 != k by {
                        if j < i && c[j].0 == k {
                            lemma_lookup_index(old_c, j);
                        } else if j > i && c[j].0 == k {
                            lemma_lookup_index(old_c, j - 1);
                        }
                    }
                    lemma_lookup_absent(c, k);
                },
            }
        }
    }
}

} // verus!
