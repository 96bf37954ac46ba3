//! The key-value storage of one contract, as the wasm runtime sees it: reads,
//! writes, and range scans handed out as numbered iterators.
use vstd::prelude::*;

use crate::bytemap::{in_range, lookup, opt_view, records_view, ByteMap, StoredValue};
use crate::bytes::{copy_bytes, sorted_keys, Order};
use crate::pending::{range_inverted, range_is_inverted};

verus! {

/// A scan over a snapshot of records, and how far it has been read.
#[derive(Clone, Debug)]
pub struct Iter {
    data: Vec<(Vec<u8>, Vec<u8>)>,
    position: usize,
}

/// Why a storage call was refused.
#[derive(Clone, Debug, PartialEq, Eq, Structural)]
pub enum StorageError {
    /// No iterator was handed out under this id.
    IteratorDoesNotExist { id: u32 },
}

/// The storage of one contract. Iterator ids are handed out as 1, 2, 3, ...
/// in the order of the scans; the iterator with id `n` sits at index `n - 1`.
#[derive(Clone, Debug)]
pub struct WasmStorage {
    data: ByteMap<Vec<u8>>,
    iterators: Vec<Iter>,
}

impl View for WasmStorage {
    type V = (Seq<(Seq<u8>, Seq<u8>)>, Seq<(Seq<(Seq<u8>, Seq<u8>)>, nat)>);

    /// The records, in ascending key order, and the iterators.
    closed spec fn view(&self) -> Self::V {
        (self.data.contents(), self.iterators_view())
    }
}

impl StoredValue for WasmStorage {
    fn duplicate(&self) -> (r: Self) {
        WasmStorage::duplicate(self)
    }
}

impl WasmStorage {
    pub closed spec fn wf(&self) -> bool {
        &&& self.data.wf()
        &&& forall|i: int|
            0 <= i < self.iterators@.len() ==> #[trigger] self.iterators@[i].position
                <= self.iterators@[i].data@.len()
    }

    /// The value stored under `k`.
    pub closed spec fn spec_get(&self, k: Seq<u8>) -> Option<Seq<u8>> {
        self.data.spec_get(k)
    }

    /// The number of iterators handed out so far.
    pub closed spec fn iterator_count(&self) -> nat {
        self.iterators@.len()
    }

    /// The records of the iterator with id `id`.
    pub closed spec fn iterator_records(&self, id: u32) -> Seq<(Seq<u8>, Seq<u8>)> {
        if 1 <= id <= self.iterators@.len() {
            records_view(self.iterators@[id - 1].data@)
        } else {
            Seq::empty()
        }
    }

    /// How many records of the iterator with id `id` have been read.
    pub closed spec fn iterator_position(&self, id: u32) -> nat {
        if 1 <= id <= self.iterators@.len() {
            self.iterators@[id - 1].position as nat
        } else {
            0
        }
    }

    /// The number of iterators handed out so far.
    pub fn num_iterators(&self) -> (n: usize)
        ensures
            n == self.iterator_count(),
    {
        self.iterators.len()
    }

    /// An id names an iterator that was handed out.
    pub open spec fn has_iterator(&self, id: u32) -> bool {
        1 <= id <= self.iterator_count()
    }

    pub proof fn lemma_wf(&self, id: u32)
        requires
            self.wf(),
            self.has_iterator(id),
        ensures
            self.iterator_position(id) <= self.iterator_records(id).len(),
    {
        assert(self.iterators@[id - 1].position <= self.iterators@[id - 1].data@.len());
    }

    /// Empty storage, with no iterators.
    pub fn new() -> (s: Self)
        ensures
            s.wf(),
            forall|k: Seq<u8>| #[trigger] s.spec_get(k) is None,
            s.iterator_count() == 0,
    {
        WasmStorage { data: ByteMap::new(), iterators: Vec::new() }
    }

    /// A copy with the same contents and iterators.
    pub fn duplicate(&self) -> (r: Self)
        ensures
            r@ == self@,
            self.wf() ==> r.wf(),
            forall|k: Seq<u8>| #[trigger] r.spec_get(k) == self.spec_get(k),
            r.iterator_count() == self.iterator_count(),
            forall|id: u32| #[trigger] r.iterator_records(id) == self.iterator_records(id),
            forall|id: u32| #[trigger] r.iterator_position(id) == self.iterator_position(id),
    {
        let data = self.data.duplicate();
        let mut iterators: Vec<Iter> = Vec::new();
        let mut i: usize = 0;
        while i < self.iterators.len()
            invariant
                i <= self.iterators@.len(),
                iterators@.len() == i,
                forall|j: int| 0 <= j < i ==> records_view(#[trigger] iterators@[j].data@) == records_view(self.iterators@[j].data@)
                    && iterators@[j].position == self.iterators@[j].position,
            decreases self.iterators.len() - i,
        {
            let it = &self.iterators[i];
            let mut d: Vec<(Vec<u8>, Vec<u8>)> = Vec::new();
            let mut j: usize = 0;
            while j < it.data.len()
                invariant
                    j <= it.data@.len(),
                    records_view(d@) == records_view(it.data@).take(j as int),
                decreases it.data.len() - j,
            {
                let ghost dv = records_view(d@);
                let rec = (copy_bytes(it.data[j].0.as_slice()), copy_bytes(it.data[j].1.as_slice()));
                assert((rec.0@, rec.1@) == records_view(it.data@)[j as int]);
                d.push(rec);
                assert(records_view(d@) =~= dv.push(records_view(it.data@)[j as int]));
                j = j + 1;
                assert(records_view(d@) =~= records_view(it.data@).take(j as int));
            }
            assert(records_view(it.data@).take(j as int) =~= records_view(it.data@));
            iterators.push(Iter { data: d, position: it.position });
            i = i + 1;
        }
        let r = WasmStorage { data, iterators };
        proof {
            assert(r.iterators_view() =~= self.iterators_view()) by {
                assert forall|i: int| 0 <= i < r.iterators@.len() implies #[trigger] r.iterators_view()[i]
                    == self.iterators_view()[i] by {
                    assert(iterators@[i] == r.iterators@[i]);
                }
            }
            if self.wf() {
                self.data.lemma_wf_by_contents(&r.data);
                self.lemma_view_wf(&r);
            }
        }
        r
    }

    /// The records and positions of the iterators, in id order.
    pub closed spec fn iterators_view(&self) -> Seq<(Seq<(Seq<u8>, Seq<u8>)>, nat)> {
        self.iterators@.map_values(|it: Iter| (records_view(it.data@), it.position as nat))
    }

    /// A storage with the view of a well-formed one is well formed.
    pub proof fn lemma_view_wf(&self, other: &Self)
        requires
            self.wf(),
            other@ == self@,
        ensures
            other.wf(),
    {
        self.data.lemma_wf_by_contents(&other.data);
        assert(other.iterators_view().len() == self.iterators_view().len());
        assert forall|i: int| 0 <= i < other.iterators@.len() implies #[trigger] other.iterators@[i].position
            <= other.iterators@[i].data@.len() by {
            assert(other.iterators_view()[i] == self.iterators_view()[i]);
            assert(other.iterators_view()[i] == (records_view(other.iterators@[i].data@), other.iterators@[i].position as nat));
            assert(self.iterators_view()[i] == (records_view(self.iterators@[i].data@), self.iterators@[i].position as nat));
            assert(self.iterators@[i].position <= self.iterators@[i].data@.len());
            assert(records_view(other.iterators@[i].data@).len() == other.iterators@[i].data@.len());
            assert(records_view(self.iterators@[i].data@).len() == self.iterators@[i].data@.len());
        }
    }

    /// The value stored under `key`.
    pub fn get(&self, key: &[u8]) -> (r: Option<Vec<u8>>)
        requires
            self.wf(),
        ensures
            match r {
                Some(v) => self.spec_get(key@) == Some(v@),
                None => self.spec_get(key@) is None,
            },
    {
        match self.data.get(key) {
            Some(v) => Some(copy_bytes(v.as_slice())),
            None => None,
        }
    }

    /// Stores `value` under `key`.
    pub fn set(&mut self, key: &[u8], value: &[u8])
        requires
            old(self).wf(),
        ensures
            final(self).wf(),
            forall|k: Seq<u8>| #[trigger] final(self).spec_get(k) == if k == key@ {
                Some(value@)
            } else {
                old(self).spec_get(k)
            },
            final(self).iterator_count() == old(self).iterator_count(),
            forall|id: u32| #[trigger] final(self).iterator_records(id) == old(self).iterator_records(id),
            forall|id: u32| #[trigger] final(self).iterator_position(id) == old(self).iterator_position(id),
    {
        self.data.insert(copy_bytes(key), copy_bytes(value));
    }

    /// Removes what is stored under `key`.
    pub fn remove(&mut self, key: &[u8])
        requires
            old(self).wf(),
        ensures
            final(self).wf(),
            forall|k: Seq<u8>| #[trigger] final(self).spec_get(k) == if k == key@ {
                None
            } else {
                old(self).spec_get(k)
            },
            final(self).iterator_count() == old(self).iterator_count(),
            forall|id: u32| #[trigger] final(self).iterator_records(id) == old(self).iterator_records(id),
            forall|id: u32| #[trigger] final(self).iterator_position(id) == old(self).iterator_position(id),
    {
        let _ = self.data.remove(key);
    }

    /// Opens a scan over the records in `[start, end)` walked in `order` (none
    /// when the range is inverted), and hands out its id: one more than the
    /// number of iterators so far.
    pub fn scan(&mut self, start: Option<&[u8]>, end: Option<&[u8]>, order: Order) -> (id: u32)
        requires
            old(self).wf(),
            old(self).iterator_count() < u32::MAX,
        ensures
            final(self).wf(),
            id == old(self).iterator_count() + 1,
            final(self).iterator_count() == id,
            final(self).iterator_position(id) == 0,
            range_is_inverted(opt_view(start), opt_view(end)) ==> final(self).iterator_records(
                id,
            ).len() == 0,
            !range_is_inverted(opt_view(start), opt_view(end)) ==> {
                &&& sorted_keys(final(self).iterator_records(id), order)
                &&& forall|k: Seq<u8>| #[trigger]
                    lookup(final(self).iterator_records(id), k) == if in_range(
                        k,
                        opt_view(start),
                        opt_view(end),
                    ) {
                        old(self).spec_get(k)
                    } else {
                        None
                    }
            },
            forall|k: Seq<u8>| #[trigger] final(self).spec_get(k) == old(self).spec_get(k),
            forall|i: u32|
                1 <= i <= old(self).iterator_count() ==> #[trigger] final(self).iterator_records(i)
                    == old(self).iterator_records(i) && final(self).iterator_position(i)
                    == old(self).iterator_position(i),
    {
        let values = if range_inverted(start, end) {
            Vec::new()
        } else {
            self.data.range(start, end, order)
        };
        let last_id = self.iterators.len() as u32;
        let new_id = last_id + 1;
        let ghost old_its = self.iterators@;
        self.iterators.push(Iter { data: values, position: 0 });
        proof {
            assert forall|i: int| 0 <= i < self.iterators@.len() implies #[trigger] self.iterators@[i].position
                <= self.iterators@[i].data@.len() by {
                if i < old_its.len() {
                    assert(self.iterators@[i] == old_its[i]);
                }
            }
            assert forall|i: u32| 1 <= i <= old(self).iterator_count() implies #[trigger] self.iterator_records(i)
                == old(self).iterator_records(i) && self.iterator_position(i)
                == old(self).iterator_position(i) by {
                assert(self.iterators@[i - 1] == old_its[i - 1]);
            }
        }
        new_id
    }

    /// Reads the next record of the iterator with id `id`, or `None` once all
    /// have been read.
    pub fn next(&mut self, id: u32) -> (r: Result<Option<(Vec<u8>, Vec<u8>)>, StorageError>)
        requires
            old(self).wf(),
        ensures
            final(self).wf(),
            !old(self).has_iterator(id) ==> r == Err::<Option<(Vec<u8>, Vec<u8>)>, StorageError>(
                StorageError::IteratorDoesNotExist { id },
            ) && final(self).iterator_position(id) == old(self).iterator_position(id),
            old(self).has_iterator(id) ==> {
                let pos = old(self).iterator_position(id);
                let recs = old(self).iterator_records(id);
                &&& r is Ok
                &&& if pos < recs.len() {
                    &&& r->Ok_0 matches Some(rec) && (rec.0@, rec.1@) == recs[pos as int]
                    &&& final(self).iterator_position(id) == pos + 1
                } else {
                    &&& r->Ok_0 is None
                    &&& final(self).iterator_position(id) == pos
                }
            },
            forall|k: Seq<u8>| #[trigger] final(self).spec_get(k) == old(self).spec_get(k),
            final(self).iterator_count() == old(self).iterator_count(),
            forall|i: u32| #[trigger] final(self).iterator_records(i) == old(self).iterator_records(i),
            forall|i: u32| i != id ==> #[trigger] final(self).iterator_position(i) == old(self).iterator_position(i),
    {
        if id == 0 || id as usize > self.iterators.len() {
            return Err(StorageError::IteratorDoesNotExist { id });
        }
        let idx = (id - 1) as usize;
        let ghost old_its = self.iterators@;
        if self.iterators[idx].position < self.iterators[idx].data.len() {
            let mut it = self.iterators.remove(idx);
            let rec = (
                copy_bytes(it.data[it.position].0.as_slice()),
                copy_bytes(it.data[it.position].1.as_slice()),
            );
            it.position = it.position + 1;
            self.iterators.insert(idx, it);
            proof {
                assert(self.iterators@ =~= old_its.update(idx as int, self.iterators@[idx as int]));
                assert forall|i: int| 0 <= i < self.iterators@.len() implies #[trigger] self.iterators@[i].position
                    <= self.iterators@[i].data@.len() by {
                    if i != idx {
                        assert(self.iterators@[i] == old_its[i]);
                    }
                }
                assert forall|i: u32| #[trigger] self.iterator_records(i) == old(self).iterator_records(i) by {
                    if 1 <= i <= old_its.len() && i - 1 != idx {
                        assert(self.iterators@[i - 1] == old_its[i - 1]);
                    }
                }
                assert forall|i: u32| i != id implies #[trigger] self.iterator_position(i) == old(self).iterator_position(i) by {
                    if 1 <= i <= old_its.len() {
                        assert(self.iterators@[i - 1] == old_its[i - 1]);
                    }
                }
            }
            Ok(Some(rec))
        } else {
            Ok(None)
        }
    }

    /// Reads all remaining records of the iterator with id `id`.
    pub fn all(&mut self, id: u32) -> (r: Result<Vec<(Vec<u8>, Vec<u8>)>, StorageError>)
        requires
            old(self).wf(),
        ensures
            final(self).wf(),
            !old(self).has_iterator(id) ==> r == Err::<Vec<(Vec<u8>, Vec<u8>)>, StorageError>(
                StorageError::IteratorDoesNotExist { id },
            ),
            old(self).has_iterator(id) ==> {
                &&& r is Ok
                &&& records_view(r->Ok_0@) == old(self).iterator_records(id).skip(
                    old(self).iterator_position(id) as int,
                )
                &&& final(self).iterator_position(id) == old(self).iterator_records(id).len()
            },
            forall|k: Seq<u8>| #[trigger] final(self).spec_get(k) == old(self).spec_get(k),
            final(self).iterator_count() == old(self).iterator_count(),
            forall|i: u32| #[trigger] final(self).iterator_records(i) == old(self).iterator_records(i),
    {
        let mut out: Vec<(Vec<u8>, Vec<u8>)> = Vec::new();
        if !(id >= 1 && (id as usize) <= self.iterators.len()) {
            let e = self.next(id);
            match e {
                Err(err) => return Err(err),
                Ok(_) => {
                    return Ok(out);
                },
            }
        }
        proof {
            old(self).lemma_wf(id);
        }
        let ghost recs = old(self).iterator_records(id);
        let ghost p0: int = old(self).iterator_position(id) as int;
        loop
            invariant_except_break
                self.wf(),
                self.has_iterator(id),
                self.iterator_records(id) == recs,
                0 <= p0 <= self.iterator_position(id) <= recs.len(),
                records_view(out@) == recs.subrange(p0, self.iterator_position(id) as int),
                forall|k: Seq<u8>| #[trigger] self.spec_get(k) == old(self).spec_get(k),
                self.iterator_count() == old(self).iterator_count(),
                forall|i: u32| #[trigger] self.iterator_records(i) == old(self).iterator_records(i),
            ensures
                self.wf(),
                records_view(out@) == recs.skip(p0),
                self.iterator_position(id) == recs.len(),
                forall|k: Seq<u8>| #[trigger] self.spec_get(k) == old(self).spec_get(k),
                self.iterator_count() == old(self).iterator_count(),
                forall|i: u32| #[trigger] self.iterator_records(i) == old(self).iterator_records(i),
            decreases recs.len() - self.iterator_position(id),
        {
            let ghost pos: int = self.iterator_position(id) as int;
            let ghost ov = records_view(out@);
            assert(p0 <= pos);
            match self.next(id) {
                Ok(Some(rec)) => {
                    proof {
                        assert(pos < recs.len());
                        assert(p0 <= pos);
                        assert(ov == recs.subrange(p0, pos));
                        assert((rec.0@, rec.1@) == recs[pos]);
                    }
                    out.push(rec);
                    proof {
                        assert(records_view(out@) =~= ov.push(recs[pos]));
                        assert(records_view(out@) =~= recs.subrange(p0, pos + 1 as int));
                    }
                },
                _ => {
                    proof {
                        assert(recs.subrange(p0, pos as int) =~= recs.skip(p0));
                    }
                    break;
                },
            }
        }
        Ok(out)
    }
}

} // verus!
