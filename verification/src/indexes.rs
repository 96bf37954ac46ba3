//! A secondary index whose key is optional: records without an index key are
//! left out of it, and no two records may share one.
use vstd::prelude::*;

use crate::bytemap::{records_view, ByteMap, StoredValue};
use crate::bytes::{copy_bytes, sorted_keys, Order};
use crate::state::str_to_string;

verus! {

/// An index entry: the primary key of the record and a copy of it.
#[derive(Clone, Debug)]
pub struct UniqueRef<T> {
    pub pk: Vec<u8>,
    pub value: T,
}

impl<T: View> View for UniqueRef<T> {
    type V = (Seq<u8>, T::V);

    open spec fn view(&self) -> (Seq<u8>, T::V) {
        (self.pk@, self.value@)
    }
}

impl<T: StoredValue> StoredValue for UniqueRef<T> {
    fn duplicate(&self) -> (r: Self) {
        UniqueRef { pk: copy_bytes(self.pk.as_slice()), value: self.value.duplicate() }
    }
}

/// Why an index refused a record.
#[derive(Debug, PartialEq, Eq, Structural)]
pub enum IndexError {
    /// Another record already holds the index key.
    UniqueConstraint,
}

impl IndexError {
    /// The text of the error.
    pub fn message(&self) -> (s: String)
        ensures
            s@ == "Violates unique constraint on index"@,
    {
        str_to_string("Violates unique constraint on index")
    }
}

/// An index from index keys to the records that have them. A record's index
/// key is optional; a record without one is not indexed, and each index key
/// belongs to at most one record.
pub struct OptionalUniqueIndex<T> {
    idx_map: ByteMap<UniqueRef<T>>,
}

impl<T: StoredValue> OptionalUniqueIndex<T> {
    /// The primary key and record under an index key.
    pub closed spec fn spec_entry(&self, idx: Seq<u8>) -> Option<(Seq<u8>, T::V)> {
        self.idx_map.spec_get(idx)
    }

    /// The entries in ascending index-key order.
    pub closed spec fn contents(&self) -> Seq<(Seq<u8>, (Seq<u8>, T::V))> {
        self.idx_map.contents()
    }

    pub closed spec fn wf(&self) -> bool {
        self.idx_map.wf()
    }

    /// An empty index.
    pub fn new() -> (r: Self)
        ensures
            r.wf(),
            forall|k: Seq<u8>| #[trigger] r.spec_entry(k) is None,
    {
        OptionalUniqueIndex { idx_map: ByteMap::new() }
    }

    /// Indexes the record `data` stored under primary key `pk`, whose index
    /// key is `idx`. A record without an index key is left out; an index key
    /// that another record holds is refused, and the index is left as it was.
    pub fn save(&mut self, pk: &[u8], data: &T, idx: Option<&[u8]>) -> (r: Result<(), IndexError>)
        requires
            old(self).wf(),
        ensures
            final(self).wf(),
            match idx {
                None => r is Ok && forall|k: Seq<u8>| #[trigger] final(self).spec_entry(k) == old(self).spec_entry(k),
                Some(i) => if old(self).spec_entry(i@) is Some {
                    &&& r == Err::<(), IndexError>(IndexError::UniqueConstraint)
                    &&& forall|k: Seq<u8>| #[trigger] final(self).spec_entry(k) == old(self).spec_entry(k)
                } else {
                    &&& r is Ok
                    &&& forall|k: Seq<u8>| #[trigger] final(self).spec_entry(k) == if k == i@ {
                        Some((pk@, data@))
                    } else {
                        old(self).spec_entry(k)
                    }
                },
            },
    {
        match idx {
            None => Ok(()),
            Some(i) => {
                if self.idx_map.get(i).is_some() {
                    return Err(IndexError::UniqueConstraint);
                }
                self.idx_map.insert(
                    copy_bytes(i),
                    UniqueRef { pk: copy_bytes(pk), value: data.duplicate() },
                );
                Ok(())
            },
        }
    }

    /// Takes the record whose index key was `idx` out of the index.
    pub fn remove(&mut self, idx: Option<&[u8]>)
        requires
            old(self).wf(),
        ensures
            final(self).wf(),
            forall|k: Seq<u8>| #[trigger] final(self).spec_entry(k) == if idx matches Some(i) && k == i@ {
                None
            } else {
                old(self).spec_entry(k)
            },
    {
        match idx {
            None => {},
            Some(i) => {
                let _ = self.idx_map.remove(i);
            },
        }
    }

    /// The primary key and record under an index key.
    pub fn may_load(&self, idx: &[u8]) -> (r: Option<(Vec<u8>, T)>)
        requires
            self.wf(),
        ensures
            match r {
                Some((pk, v)) => self.spec_entry(idx@) == Some((pk@, v@)),
                None => self.spec_entry(idx@) is None,
            },
    {
        match self.idx_map.get(idx) {
            Some(u) => Some((copy_bytes(u.pk.as_slice()), u.value.duplicate())),
            None => None,
        }
    }

    /// The primary keys and records whose index keys lie in `[min, max)`,
    /// walked in `order` of the index keys.
    pub fn range(&self, min: Option<&[u8]>, max: Option<&[u8]>, order: Order) -> (r: Vec<(Vec<u8>, T)>)
        requires
            self.wf(),
        ensures
            exists|walk: Seq<(Seq<u8>, (Seq<u8>, T::V))>|
                #![trigger sorted_keys(walk, order)]
                sorted_keys(walk, order) && (forall|k: Seq<u8>| #[trigger]
                    crate::bytemap::lookup(walk, k) == if crate::bytemap::in_range(
                        k,
                        crate::bytemap::opt_view(min),
                        crate::bytemap::opt_view(max),
                    ) {
                        self.spec_entry(k)
                    } else {
                        None
                    }) && records_view(r@) == walk.map_values(|e: (Seq<u8>, (Seq<u8>, T::V))| e.1),
    {
        let entries = self.idx_map.range(min, max, order);
        let ghost walk = records_view(entries@);
        let mut out: Vec<(Vec<u8>, T)> = Vec::new();
        let mut i: usize = 0;
        while i < entries.len()
            invariant
                walk == records_view(entries@),
                i <= entries@.len(),
                records_view(out@) == walk.take(i as int).map_values(
                    |e: (Seq<u8>, (Seq<u8>, T::V))| e.1,
                ),
            decreases entries.len() - i,
        {
            let ghost before = records_view(out@);
            let u = &entries[i].1;
            out.push((copy_bytes(u.pk.as_slice()), u.value.duplicate()));
            proof {
                assert(walk[i as int] == (entries@[i as int].0@, entries@[i as int].1@));
                assert(records_view(out@) =~= before.push((u.pk@, u.value@)));
                assert(walk.take(i + 1) =~= walk.take(i as int).push(walk[i as int]));
                assert(records_view(out@) =~= walk.take(i + 1).map_values(
                    |e: (Seq<u8>, (Seq<u8>, T::V))| e.1,
                ));
            }
            i = i + 1;
        }
        assert(walk.take(entries@.len() as int) =~= walk);
        out
    }
}

} // verus!
