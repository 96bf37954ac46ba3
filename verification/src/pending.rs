//! The layer of uncommitted writes that sits on top of the committed
//! key-value tree: the pending operations, how a read sees through them, how a
//! range walk merges them with the committed records, and the batch that a
//! commit hands to the tree.
use vstd::prelude::*;

use crate::bytemap::{
    in_range, key_in_range, lemma_lookup_absent, lemma_lookup_present, lemma_lookup_push,
    lemma_lookup_take, lemma_sorted_distinct, lookup, opt_view, records_view, ByteMap, StoredValue,
};
use crate::bytes::{
    compare_bytes, copy_bytes, key_before, lemma_before_order, lemma_lex_order, lex_lt,
    sorted_keys, KeyCmp, Order,
};

verus! {

/// A write that has not been committed yet.
#[derive(Debug)]
pub enum Op {
    Put(Vec<u8>),
    Delete,
}

/// The mathematical value of an `Op`.
pub enum OpView {
    Put(Seq<u8>),
    Delete,
}

impl View for Op {
    type V = OpView;

    open spec fn view(&self) -> OpView {
        match self {
            Op::Put(v) => OpView::Put(v@),
            Op::Delete => OpView::Delete,
        }
    }
}

impl StoredValue for Op {
    fn duplicate(&self) -> (r: Op) {
        match self {
            Op::Put(v) => Op::Put(copy_bytes(v.as_slice())),
            Op::Delete => Op::Delete,
        }
    }
}

/// What a read sees: the pending operation on the key, if there is one,
/// decides; otherwise the committed value does.
pub open spec fn overlay(p: Option<OpView>, base: Option<Seq<u8>>) -> Option<Seq<u8>> {
    match p {
        Some(OpView::Put(v)) => Some(v),
        Some(OpView::Delete) => None,
        None => base,
    }
}

/// The outcome of looking a key up among the pending operations.
#[derive(Debug)]
pub enum PendingRead {
    /// The key was written with this value.
    Written(Vec<u8>),
    /// The key was deleted.
    Deleted,
    /// No pending operation touches the key: the committed value decides.
    Untouched,
}

/// The pending operations, at most one per key, in key order.
pub struct PendingOps {
    ops: ByteMap<Op>,
}

impl PendingOps {
    /// The pending operation on `k`.
    pub closed spec fn spec_op(&self, k: Seq<u8>) -> Option<OpView> {
        self.ops.spec_get(k)
    }

    /// All pending operations in ascending key order.
    pub closed spec fn contents(&self) -> Seq<(Seq<u8>, OpView)> {
        self.ops.contents()
    }

    pub closed spec fn wf(&self) -> bool {
        self.ops.wf()
    }

    pub proof fn lemma_contents(&self)
        requires
            self.wf(),
        ensures
            sorted_keys(self.contents(), Order::Ascending),
            forall|k: Seq<u8>| #[trigger] self.spec_op(k) == lookup(self.contents(), k),
    {
        self.ops.lemma_wf();
    }

    /// No pending operation.
    pub fn new() -> (p: Self)
        ensures
            p.wf(),
            p.contents() == Seq::<(Seq<u8>, OpView)>::empty(),
            forall|k: Seq<u8>| #[trigger] p.spec_op(k) is None,
    {
        PendingOps { ops: ByteMap::new() }
    }

    /// The number of keys with a pending operation.
    pub fn len(&self) -> (n: usize)
        ensures
            n == self.contents().len(),
    {
        self.ops.len()
    }

    /// Records a write of `value` under `key`.
    pub fn set(&mut self, key: &[u8], value: &[u8])
        requires
            old(self).wf(),
        ensures
            final(self).wf(),
            forall|k: Seq<u8>| #[trigger] final(self).spec_op(k) == if k == key@ {
                Some(OpView::Put(value@))
            } else {
                old(self).spec_op(k)
            },
    {
        self.ops.insert(copy_bytes(key), Op::Put(copy_bytes(value)));
    }

    /// Records a deletion of `key`.
    pub fn remove(&mut self, key: &[u8])
        requires
            old(self).wf(),
        ensures
            final(self).wf(),
            forall|k: Seq<u8>| #[trigger] final(self).spec_op(k) == if k == key@ {
                Some(OpView::Delete)
            } else {
                old(self).spec_op(k)
            },
    {
        self.ops.insert(copy_bytes(key), Op::Delete);
    }

    /// What the pending operations say about `key`.
    pub fn read(&self, key: &[u8]) -> (r: PendingRead)
        requires
            self.wf(),
        ensures
            match r {
                PendingRead::Written(v) => self.spec_op(key@) == Some(OpView::Put(v@)),
                PendingRead::Deleted => self.spec_op(key@) == Some(OpView::Delete),
                PendingRead::Untouched => self.spec_op(key@) is None,
            },
    {
        match self.ops.get(key) {
            Some(Op::Put(v)) => PendingRead::Written(copy_bytes(v.as_slice())),
            Some(Op::Delete) => PendingRead::Deleted,
            None => PendingRead::Untouched,
        }
    }

    /// Takes every pending operation, in ascending key order, as the batch to
    /// commit; no operation is pending afterwards.
    pub fn take_batch(&mut self) -> (batch: Vec<(Vec<u8>, Op)>)
        requires
            old(self).wf(),
        ensures
            final(self).wf(),
            records_view(batch@) == old(self).contents(),
            sorted_keys(records_view(batch@), Order::Ascending),
            forall|k: Seq<u8>| #[trigger] final(self).spec_op(k) is None,
    {
        proof {
            self.ops.lemma_wf();
        }
        self.ops.take_all()
    }

    /// The pending operations on keys in `[start, end)`, walked in `order`.
    pub fn range(&self, start: Option<&[u8]>, end: Option<&[u8]>, order: Order) -> (r: Vec<
        (Vec<u8>, Op),
    >)
        requires
            self.wf(),
        ensures
            sorted_keys(records_view(r@), order),
            forall|k: Seq<u8>| #[trigger]
                lookup(records_view(r@), k) == if in_range(k, opt_view(start), opt_view(end)) {
                    self.spec_op(k)
                } else {
                    None
                },
    {
        self.ops.range(start, end, order)
    }

    /// The records in `[start, end)` as the pending view shows them, walked in
    /// `order`, given the committed records `base` of that range in the same
    /// order. An inverted range (`start > end`) holds nothing.
    pub fn merged_range(
        &self,
        base: &Vec<(Vec<u8>, Vec<u8>)>,
        start: Option<&[u8]>,
        end: Option<&[u8]>,
        order: Order,
    ) -> (r: Vec<(Vec<u8>, Vec<u8>)>)
        requires
            self.wf(),
            sorted_keys(records_view(base@), order),
            forall|i: int|
                0 <= i < base@.len() ==> in_range(
                    #[trigger] records_view(base@)[i].0,
                    opt_view(start),
                    opt_view(end),
                ),
        ensures
            range_is_inverted(opt_view(start), opt_view(end)) ==> r@.len() == 0,
            !range_is_inverted(opt_view(start), opt_view(end)) ==> {
                &&& sorted_keys(records_view(r@), order)
                &&& forall|k: Seq<u8>| #[trigger]
                    lookup(records_view(r@), k) == if in_range(
                        k,
                        opt_view(start),
                        opt_view(end),
                    ) {
                        overlay(self.spec_op(k), lookup(records_view(base@), k))
                    } else {
                        None
                    }
            },
    {
        if range_inverted(start, end) {
            return Vec::new();
        }
        let pending = self.range(start, end, order);
        let r = merge_records(base, &pending, order);
        proof {
            assert forall|k: Seq<u8>| #[trigger]
                lookup(records_view(r@), k) == if in_range(k, opt_view(start), opt_view(end)) {
                    overlay(self.spec_op(k), lookup(records_view(base@), k))
                } else {
                    None
                } by {
                if !in_range(k, opt_view(start), opt_view(end)) {
                    assert forall|i: int| 0 <= i < records_view(base@).len() implies #[trigger] records_view(
                        base@,
                    )[i].0 != k by {}
                    lemma_lookup_absent(records_view(base@), k);
                }
            }
        }
        r
    }
}

/// Both bounds are given and the lower one lies above the upper one.
pub open spec fn range_is_inverted(start: Option<Seq<u8>>, end: Option<Seq<u8>>) -> bool {
    match (start, end) {
        (Some(s), Some(e)) => lex_lt(e, s),
        _ => false,
    }
}

/// Whether the range `[start, end)` is inverted (`start > end`).
pub fn range_inverted(start: Option<&[u8]>, end: Option<&[u8]>) -> (r: bool)
    ensures
        r == range_is_inverted(opt_view(start), opt_view(end)),
{
    match (start, end) {
        (Some(s), Some(e)) => compare_bytes(s, e) == KeyCmp::Greater,
        _ => false,
    }
}

/// Merges committed records with pending operations, both walked in `order`:
/// a pending write replaces or adds a record, a pending deletion hides it.
pub fn merge_records(
    base: &Vec<(Vec<u8>, Vec<u8>)>,
    pending: &Vec<(Vec<u8>, Op)>,
    order: Order,
) -> (r: Vec<(Vec<u8>, Vec<u8>)>)
    requires
        sorted_keys(records_view(base@), order),
        sorted_keys(records_view(pending@), order),
    ensures
        sorted_keys(records_view(r@), order),
        forall|k: Seq<u8>| #[trigger]
            lookup(records_view(r@), k) == overlay(
                lookup(records_view(pending@), k),
                lookup(records_view(base@), k),
            ),
{
    let ghost b = records_view(base@);
    let ghost p = records_view(pending@);
    let bn = base.len();
    let pn = pending.len();
    let mut r: Vec<(Vec<u8>, Vec<u8>)> = Vec::new();
    let mut i: usize = 0;
    let mut j: usize = 0;
    while i < bn || j < pn
        invariant
            b == records_view(base@),
            p == records_view(pending@),
            bn == b.len(),
            pn == p.len(),
            sorted_keys(b, order),
            sorted_keys(p, order),
            i <= bn,
            j <= pn,
            sorted_keys(records_view(r@), order),
            forall|a: int, m: int|
                0 <= a < r@.len() && i <= m < bn ==> key_before(
                    #[trigger] records_view(r@)[a].0,
                    #[trigger] b[m].0,
                    order,
                ),
            forall|a: int, m: int|
                0 <= a < r@.len() && j <= m < pn ==> key_before(
                    #[trigger] records_view(r@)[a].0,
                    #[trigger] p[m].0,
                    order,
                ),
            forall|m: int, m2: int|
                0 <= m < j && i <= m2 < bn ==> key_before(#[trigger] p[m].0, #[trigger] b[m2].0, order),
            forall|m: int, m2: int|
                0 <= m < i && j <= m2 < pn ==> key_before(#[trigger] b[m].0, #[trigger] p[m2].0, order),
            forall|k: Seq<u8>| #[trigger]
                lookup(records_view(r@), k) == overlay(
                    lookup(p.take(j as int), k),
                    lookup(b.take(i as int), k),
                ),
        decreases (bn - i) + (pn - j),
    {
        let ghost rv = records_view(r@);
        let ghost i0: int = i as int;
        let ghost j0: int = j as int;
        // 0: take the committed record; 1: take the pending op and drop an
        // equal committed key; 2: take the pending op alone.
        let step: u8 = if i < bn && j < pn {
            match compare_bytes(base[i].0.as_slice(), pending[j].0.as_slice()) {
                KeyCmp::Equal => 1,
                KeyCmp::Less => if order == Order::Ascending {
                    0
                } else {
                    2
                },
                KeyCmp::Greater => if order == Order::Ascending {
                    2
                } else {
                    0
                },
            }
        } else if i < bn {
            0
        } else {
            2
        };
        if step == 0 {
            assert(b[i as int].0 == base@[i as int].0@);
            proof {
                if j < pn {
                    assert(pending@[j as int].0@ == p[j as int].0);
                    assert(key_before(b[i as int].0, p[j as int].0, order));
                }
            }
            let k2 = copy_bytes(base[i].0.as_slice());
            let v2 = copy_bytes(base[i].1.as_slice());
            r.push((k2, v2));
            proof {
                assert(records_view(r@) =~= rv.push(b[i as int]));
            }
            i = i + 1;
            proof {
                merge_step_facts(b, p, rv, records_view(r@), i0, j0, i as int, j as int, order);
            }
        } else {
            assert(p[j as int].0 == pending@[j as int].0@);
            let eq_key = step == 1;
            proof {
                if eq_key {
                    assert(b[i as int].0 == base@[i as int].0@);
                    assert(b[i as int].0 == p[j as int].0);
                } else if i < bn {
                    assert(b[i as int].0 == base@[i as int].0@);
                    assert(key_before(p[j as int].0, b[i as int].0, order));
                }
            }
            match &pending[j].1 {
                Op::Put(v) => {
                    let k2 = copy_bytes(pending[j].0.as_slice());
                    let v2 = copy_bytes(v.as_slice());
                    r.push((k2, v2));
                    proof {
                        assert(records_view(r@) =~= rv.push((p[j as int].0, v@)));
                    }
                },
                Op::Delete => {},
            }
            if eq_key {
                i = i + 1;
            }
            j = j + 1;
            proof {
                merge_step_facts(b, p, rv, records_view(r@), i0, j0, i as int, j as int, order);
            }
        }
    }
    proof {
        assert(b.take(bn as int) =~= b);
        assert(p.take(pn as int) =~= p);
    }
    r
}

/// One step of the merge keeps its invariant.
proof fn merge_step_facts(
    b: Seq<(Seq<u8>, Seq<u8>)>,
    p: Seq<(Seq<u8>, OpView)>,
    rv: Seq<(Seq<u8>, Seq<u8>)>,
    rv2: Seq<(Seq<u8>, Seq<u8>)>,
    i0: int,
    j0: int,
    i: int,
    j: int,
    order: Order,
)
    requires
        sorted_keys(b, order),
        sorted_keys(p, order),
        0 <= i0 <= i <= b.len(),
        0 <= j0 <= j <= p.len(),
        sorted_keys(rv, order),
        forall|a: int, m: int|
            0 <= a < rv.len() && i0 <= m < b.len() ==> key_before(
                #[trigger] rv[a].0,
                #[trigger] b[m].0,
                order,
            ),
        forall|a: int, m: int|
            0 <= a < rv.len() && j0 <= m < p.len() ==> key_before(
                #[trigger] rv[a].0,
                #[trigger] p[m].0,
                order,
            ),
        forall|m: int, m2: int|
            0 <= m < j0 && i0 <= m2 < b.len() ==> key_before(#[trigger] p[m].0, #[trigger] b[m2].0, order),
        forall|m: int, m2: int|
            0 <= m < i0 && j0 <= m2 < p.len() ==> key_before(#[trigger] b[m].0, #[trigger] p[m2].0, order),
        forall|k: Seq<u8>| #[trigger]
            lookup(rv, k) == overlay(lookup(p.take(j0), k), lookup(b.take(i0), k)),
        // the step taken
        ({
            // take the committed record
            ||| (i == i0 + 1 && j == j0 && i0 < b.len() && rv2 == rv.push(b[i0]) && (j0 < p.len()
                ==> key_before(b[i0].0, p[j0].0, order)))
            // take the pending op (dropping an equal committed key)
            ||| (j == j0 + 1 && j0 < p.len() && (i == i0 || i == i0 + 1) && (i == i0 + 1 ==> (i0 < b.len() && b[i0].0 == p[j0].0))
                && (i == i0 ==> (i0 < b.len() ==> key_before(p[j0].0, b[i0].0, order))) && (
            match p[j0].1 {
                OpView::Put(v) => rv2 == rv.push((p[j0].0, v)),
                OpView::Delete => rv2 == rv,
            }))
        }),
    ensures
        sorted_keys(rv2, order),
        forall|a: int, m: int|
            0 <= a < rv2.len() && i <= m < b.len() ==> key_before(
                #[trigger] rv2[a].0,
                #[trigger] b[m].0,
                order,
            ),
        forall|a: int, m: int|
            0 <= a < rv2.len() && j <= m < p.len() ==> key_before(
                #[trigger] rv2[a].0,
                #[trigger] p[m].0,
                order,
            ),
        forall|m: int, m2: int|
            0 <= m < j && i <= m2 < b.len() ==> key_before(#[trigger] p[m].0, #[trigger] b[m2].0, order),
        forall|m: int, m2: int|
            0 <= m < i && j <= m2 < p.len() ==> key_before(#[trigger] b[m].0, #[trigger] p[m2].0, order),
        forall|k: Seq<u8>| #[trigger]
            lookup(rv2, k) == overlay(lookup(p.take(j), k), lookup(b.take(i), k)),
{
    if i == i0 + 1 && j == j0 {
        // took b[i0]
        let x = b[i0];
        // x is after everything in rv and before later b's and all p[j0..]
        assert forall|a: int, m: int| 0 <= a < rv2.len() && i <= m < b.len() implies key_before(
            #[trigger] rv2[a].0,
            #[trigger] b[m].0,
            order,
        ) by {
            if a < rv.len() {
                assert(rv2[a] == rv[a]);
            } else {
                assert(rv2[a] == x);
            }
        }
        assert forall|a: int, m: int| 0 <= a < rv2.len() && j <= m < p.len() implies key_before(
            #[trigger] rv2[a].0,
            #[trigger] p[m].0,
            order,
        ) by {
            if a < rv.len() {
                assert(rv2[a] == rv[a]);
            } else {
                assert(rv2[a] == x);
                if m > j0 {
                    lemma_before_order(x.0, p[j0].0, p[m].0, order);
                }
            }
        }
        assert forall|m: int, m2: int| 0 <= m < i && j <= m2 < p.len() implies key_before(
            #[trigger] b[m].0,
            #[trigger] p[m2].0,
            order,
        ) by {
            if m == i0 && m2 > j0 {
                lemma_before_order(x.0, p[j0].0, p[m2].0, order);
            }
        }
        assert(sorted_keys(rv2, order)) by {
            assert forall|a: int, c: int| 0 <= a < c < rv2.len() implies key_before(
                #[trigger] rv2[a].0,
                #[trigger] rv2[c].0,
                order,
            ) by {
                if c < rv.len() {
                    assert(rv2[a] == rv[a] && rv2[c] == rv[c]);
                } else {
                    assert(rv2[a] == rv[a] && rv2[c] == x);
                }
            }
        }
        assert forall|k: Seq<u8>| #[trigger]
            lookup(rv2, k) == overlay(lookup(p.take(j), k), lookup(b.take(i), k)) by {
            lemma_lookup_push(rv, x, k);
            lemma_lookup_take(b, i0, k);
            if k == x.0 {
                assert forall|m: int| 0 <= m < p.take(j0).len() implies #[trigger] p.take(j0)[m].0
                    != k by {
                    assert(p.take(j0)[m] == p[m]);
                    lemma_before_order(p[m].0, x.0, x.0, order);
                }
                lemma_lookup_absent(p.take(j0), k);
            }
        }
    } else {
        // took p[j0]
        let y = p[j0];
        let took_b = i == i0 + 1;
        assert(rv2.len() == rv.len() || (rv2.len() == rv.len() + 1 && rv2[rv.len() as int].0 == y.0));
        assert(forall|a: int| 0 <= a < rv.len() ==> rv2[a] == rv[a]);
        if took_b {
            assert(b[i0].0 == y.0);
            assert(forall|m: int| i <= m < b.len() ==> key_before(b[i0].0, #[trigger] b[m].0, order));
        } else {
            assert(forall|m: int| i <= m < b.len() ==> key_before(y.0, #[trigger] b[m].0, order)) by {
                assert forall|m: int| i <= m < b.len() implies key_before(y.0, #[trigger] b[m].0, order) by {
                    if m > i0 {
                        lemma_before_order(y.0, b[i0].0, b[m].0, order);
                    }
                }
            }
        }
        assert forall|a: int, m: int| 0 <= a < rv2.len() && i <= m < b.len() implies key_before(
            #[trigger] rv2[a].0,
            #[trigger] b[m].0,
            order,
        ) by {
            if a < rv.len() {
                assert(rv2[a] == rv[a]);
            } else {
                assert(rv2[a].0 == y.0);
                if took_b {
                    assert(b[i0].0 == y.0);
                } else {
                    if m > i0 {
                        lemma_before_order(y.0, b[i0].0, b[m].0, order);
                    }
                }
            }
        }
        assert forall|a: int, m: int| 0 <= a < rv2.len() && j <= m < p.len() implies key_before(
            #[trigger] rv2[a].0,
            #[trigger] p[m].0,
            order,
        ) by {
            if a < rv.len() {
                assert(rv2[a] == rv[a]);
            } else {
                assert(rv2[a].0 == y.0);
            }
        }
        assert forall|m: int, m2: int| 0 <= m < j && i <= m2 < b.len() implies key_before(
            #[trigger] p[m].0,
            #[trigger] b[m2].0,
            order,
        ) by {
            if m == j0 {
                if took_b {
                    assert(b[i0].0 == y.0);
                } else if m2 > i0 {
                    lemma_before_order(y.0, b[i0].0, b[m2].0, order);
                }
            }
        }
        assert forall|m: int, m2: int| 0 <= m < i && j <= m2 < p.len() implies key_before(
            #[trigger] b[m].0,
            #[trigger] p[m2].0,
            order,
        ) by {
            if took_b && m == i0 {
                assert(b[i0].0 == y.0);
            }
        }
        assert(sorted_keys(rv2, order)) by {
            assert forall|a: int, c: int| 0 <= a < c < rv2.len() implies key_before(
                #[trigger] rv2[a].0,
                #[trigger] rv2[c].0,
                order,
            ) by {
                if c < rv.len() {
                    assert(rv2[a] == rv[a] && rv2[c] == rv[c]);
                } else {
                    assert(rv2[a] == rv[a] && rv2[c].0 == y.0);
                }
            }
        }
        assert forall|k: Seq<u8>| #[trigger]
            lookup(rv2, k) == overlay(lookup(p.take(j), k), lookup(b.take(i), k)) by {
            lemma_lookup_take(p, j0, k);
            if took_b {
                lemma_lookup_take(b, i0, k);
            }
            match y.1 {
                OpView::Put(v) => {
                    lemma_lookup_push(rv, (y.0, v), k);
                },
                OpView::Delete => {},
            }
            if k == y.0 {
                // no earlier entry, of either side or of the output, has this key
                assert forall|m: int| 0 <= m < b.take(i0).len() implies #[trigger] b.take(i0)[m].0
                    != k by {
                    assert(b.take(i0)[m] == b[m]);
                    lemma_before_order(b[m].0, y.0, y.0, order);
                }
                lemma_lookup_absent(b.take(i0), k);
                assert forall|m: int| 0 <= m < p.take(j0).len() implies #[trigger] p.take(j0)[m].0
                    != k by {
                    assert(p.take(j0)[m] == p[m]);
                    lemma_before_order(p[m].0, y.0, y.0, order);
                }
                lemma_lookup_absent(p.take(j0), k);
            }
        }
    }
}

/// The committed map after applying one operation.
pub open spec fn apply_op(m: Map<Seq<u8>, Seq<u8>>, e: (Seq<u8>, OpView)) -> Map<Seq<u8>, Seq<u8>> {
    match e.1 {
        OpView::Put(v) => m.insert(e.0, v),
        OpView::Delete => m.remove(e.0),
    }
}

/// The committed map after applying a batch of operations in order.
pub open spec fn apply_batch(m: Map<Seq<u8>, Seq<u8>>, s: Seq<(Seq<u8>, OpView)>) -> Map<
    Seq<u8>,
    Seq<u8>,
>
    decreases s.len(),
{
    if s.len() == 0 {
        m
    } else {
        apply_op(apply_batch(m, s.drop_last()), s.last())
    }
}

/// The value under `k` in a map, if any.
pub open spec fn map_get(m: Map<Seq<u8>, Seq<u8>>, k: Seq<u8>) -> Option<Seq<u8>> {
    if m.contains_key(k) {
        Some(m[k])
    } else {
        None
    }
}

proof fn lemma_apply_batch(m: Map<Seq<u8>, Seq<u8>>, s: Seq<(Seq<u8>, OpView)>, k: Seq<u8>)
    ensures
        map_get(apply_batch(m, s), k) == overlay(lookup(s, k), map_get(m, k)),
    decreases s.len(),
{
    if s.len() > 0 {
        lemma_apply_batch(m, s.drop_last(), k);
    }
}

/// Committing publishes the pending view: applying the batch that
/// `take_batch` hands out to any committed map gives, under every key, what a
/// read through the pending operations showed before the commit.
pub proof fn law_commit_publishes_pending_view(
    pending: PendingOps,
    base: Map<Seq<u8>, Seq<u8>>,
    k: Seq<u8>,
)
    requires
        pending.wf(),
    ensures
        map_get(apply_batch(base, pending.contents()), k) == overlay(
            pending.spec_op(k),
            map_get(base, k),
        ),
{
    pending.lemma_contents();
    lemma_apply_batch(base, pending.contents(), k);
}

/// A walk through the pending operations shows the committed state after the
/// commit: when `base_walk` holds the committed records of `[start, end)` and
/// `merged` is what `merged_range` makes of it, every key of `merged` carries
/// what the committed map holds under it once the pending batch is applied,
/// and no key outside the range occurs.
pub proof fn law_pending_walk_shows_commit(
    pending: PendingOps,
    base: Map<Seq<u8>, Seq<u8>>,
    base_walk: Seq<(Seq<u8>, Seq<u8>)>,
    merged: Seq<(Seq<u8>, Seq<u8>)>,
    start: Option<Seq<u8>>,
    end: Option<Seq<u8>>,
    k: Seq<u8>,
)
    requires
        pending.wf(),
        forall|x: Seq<u8>| in_range(x, start, end) ==> #[trigger] lookup(base_walk, x) == map_get(base, x),
        forall|x: Seq<u8>| #[trigger] lookup(merged, x) == if in_range(x, start, end) {
            overlay(pending.spec_op(x), lookup(base_walk, x))
        } else {
            None
        },
    ensures
        lookup(merged, k) == if in_range(k, start, end) {
            map_get(apply_batch(base, pending.contents()), k)
        } else {
            None
        },
{
    law_commit_publishes_pending_view(pending, base, k);
    if in_range(k, start, end) {
        assert(lookup(base_walk, k) == map_get(base, k));
    }
}

/// Whether a key reached by walking the committed tree in `order` is still
/// inside `[start, end)`: walking up, it must lie below `end`; walking down,
/// not below `start` (the walk starts inside the range).
pub fn walk_key_in_bounds(key: &[u8], start: Option<&[u8]>, end: Option<&[u8]>, order: Order) -> (r:
    bool)
    ensures
        r == match order {
            Order::Ascending => match end {
                Some(e) => lex_lt(key@, e@),
                None => true,
            },
            Order::Descending => match start {
                Some(s) => !lex_lt(key@, s@),
                None => true,
            },
        },
{
    match order {
        Order::Ascending => match end {
            Some(e) => compare_bytes(key, e) == KeyCmp::Less,
            None => true,
        },
        Order::Descending => match start {
            Some(s) => compare_bytes(key, s) != KeyCmp::Less,
            None => true,
        },
    }
}

} // verus!
