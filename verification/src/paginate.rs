//! Pages of a map's records in ascending key order: the records from a start
//! bound on, at most a page limit of them.
use vstd::prelude::*;

use crate::bytemap::{records_view, ByteMap, StoredValue};
use crate::bytes::{compare_bytes, lex_lt, KeyCmp};
use crate::helpers::page_limit;
use crate::prefix::trim;

verus! {

/// Where a page starts.
#[derive(Clone, Debug)]
pub enum Bound {
    /// At this key, if present.
    Inclusive(Vec<u8>),
    /// Just after this key.
    Exclusive(Vec<u8>),
}

/// The mathematical value of a `Bound`.
pub enum BoundView {
    Inclusive(Seq<u8>),
    Exclusive(Seq<u8>),
}

impl View for Bound {
    type V = BoundView;

    open spec fn view(&self) -> BoundView {
        match self {
            Bound::Inclusive(k) => BoundView::Inclusive(k@),
            Bound::Exclusive(k) => BoundView::Exclusive(k@),
        }
    }
}

pub open spec fn bound_view(b: Option<Bound>) -> Option<BoundView> {
    match b {
        Some(x) => Some(x@),
        None => None,
    }
}

/// `k` lies at or after the start bound.
pub open spec fn after_start(k: Seq<u8>, start: Option<BoundView>) -> bool {
    match start {
        None => true,
        Some(BoundView::Inclusive(b)) => !lex_lt(k, b),
        Some(BoundView::Exclusive(b)) => lex_lt(b, k),
    }
}

/// The first `n` records of `s` (in their order) whose keys lie at or after
/// the start bound.
pub open spec fn page_of<V>(s: Seq<(Seq<u8>, V)>, start: Option<BoundView>, n: nat) -> Seq<
    (Seq<u8>, V),
>
    decreases s.len(),
{
    if s.len() == 0 || n == 0 {
        Seq::empty()
    } else if after_start(s[0].0, start) {
        seq![s[0]] + page_of(s.drop_first(), start, (n - 1) as nat)
    } else {
        page_of(s.drop_first(), start, n)
    }
}

/// The records of `s` whose keys start with `prefix`, with the prefix
/// stripped from their keys.
pub open spec fn strip_prefix<V>(s: Seq<(Seq<u8>, V)>, prefix: Seq<u8>) -> Seq<(Seq<u8>, V)>
    decreases s.len(),
{
    if s.len() == 0 {
        Seq::empty()
    } else if prefix.is_prefix_of(s.last().0) {
        strip_prefix(s.drop_last(), prefix).push((s.last().0.skip(prefix.len() as int), s.last().1))
    } else {
        strip_prefix(s.drop_last(), prefix)
    }
}

/// The number of records on a page for a requested limit.
pub open spec fn page_size(limit: Option<u32>) -> nat {
    match limit {
        Some(l) => if l < 30 { l as nat } else { 30 },
        None => 10,
    }
}

/// Whether `k` lies at or after the start bound.
pub fn is_after_start(k: &[u8], start: &Option<Bound>) -> (r: bool)
    ensures
        r == after_start(k@, bound_view(*start)),
{
    match start {
        None => true,
        Some(Bound::Inclusive(b)) => compare_bytes(k, b.as_slice()) != KeyCmp::Less,
        Some(Bound::Exclusive(b)) => compare_bytes(b.as_slice(), k) == KeyCmp::Less,
    }
}

/// The first `n` of `records` at or after `start`, copied.
pub fn page<V: StoredValue>(records: &Vec<(Vec<u8>, V)>, start: &Option<Bound>, n: usize) -> (r: Vec<
    (Vec<u8>, V),
>)
    ensures
        records_view(r@) == page_of(records_view(records@), bound_view(*start), n as nat),
{
    let ghost s = records_view(records@);
    let mut out: Vec<(Vec<u8>, V)> = Vec::new();
    let mut i: usize = 0;
    assert(s.skip(0) =~= s);
    assert(records_view(out@) + page_of(s, bound_view(*start), n as nat) =~= page_of(
        s,
        bound_view(*start),
        n as nat,
    ));
    while i < records.len() && out.len() < n
        invariant
            s == records_view(records@),
            i <= records@.len(),
            out@.len() <= n,
            records_view(out@) + page_of(s.skip(i as int), bound_view(*start), (n - out@.len()) as nat)
                == page_of(s, bound_view(*start), n as nat),
        decreases records.len() - i,
    {
        let ghost o = records_view(out@);
        let ghost rest = s.skip(i as int);
        let ghost m: nat = (n - out@.len()) as nat;
        assert(rest.drop_first() =~= s.skip(i + 1));
        assert(rest[0] == s[i as int]);
        if is_after_start(records[i].0.as_slice(), start) {
            let rec = (crate::bytes::copy_bytes(records[i].0.as_slice()), records[i].1.duplicate());
            out.push(rec);
            proof {
                assert(records_view(out@) =~= o.push(s[i as int]));
                assert(o + page_of(rest, bound_view(*start), m) =~= records_view(out@) + page_of(
                    s.skip(i + 1),
                    bound_view(*start),
                    (m - 1) as nat,
                ));
            }
        }
        i = i + 1;
    }
    proof {
        let rest = s.skip(i as int);
        if i == records@.len() {
            assert(rest.len() == 0);
        }
        assert(page_of(rest, bound_view(*start), (n - out@.len()) as nat) =~= Seq::<
            (Seq<u8>, V::V),
        >::empty());
        assert(records_view(out@) =~= records_view(out@) + Seq::<(Seq<u8>, V::V)>::empty());
    }
    out
}

/// What parsing `recs` one after the other comes to: every record parsed,
/// in order; or the error of the first record that failed, all before it
/// having parsed.
pub open spec fn parsed_all<V, R, E, F: Fn(Vec<u8>, V) -> Result<R, E>>(
    f: F,
    recs: Seq<(Vec<u8>, V)>,
    r: Result<Vec<R>, E>,
) -> bool {
    &&& r is Ok ==> parsed_each(f, recs, r->Ok_0@)
    &&& r is Err ==> failed_at_first(f, recs, r->Err_0)
}

/// Each record parsed into the value at its position.
pub open spec fn parsed_each<V, R, E, F: Fn(Vec<u8>, V) -> Result<R, E>>(
    f: F,
    recs: Seq<(Vec<u8>, V)>,
    out: Seq<R>,
) -> bool {
    out.len() == recs.len() && forall|i: int|
        0 <= i < recs.len() ==> #[trigger] f.ensures((recs[i].0, recs[i].1), Ok::<R, E>(out[i]))
}

/// Some record failed with `e`, every record before it having parsed.
pub open spec fn failed_at_first<V, R, E, F: Fn(Vec<u8>, V) -> Result<R, E>>(
    f: F,
    recs: Seq<(Vec<u8>, V)>,
    e: E,
) -> bool {
    exists|j: int|
        0 <= j < recs.len() && #[trigger] f.ensures((recs[j].0, recs[j].1), Err::<R, E>(e)) && (
        forall|i: int| 0 <= i < j ==> #[trigger] parses_ok(f, recs[i]))
}

/// `f` can parse the record into some value.
pub open spec fn parses_ok<V, R, E, F: Fn(Vec<u8>, V) -> Result<R, E>>(f: F, rec: (Vec<u8>, V)) -> bool {
    exists|o: R| #[trigger] f.ensures((rec.0, rec.1), Ok::<R, E>(o))
}

/// Parses records in order with `parse_fn`, stopping at the first error.
pub fn parse_records<V, R, E, F: Fn(Vec<u8>, V) -> Result<R, E>>(
    recs: Vec<(Vec<u8>, V)>,
    parse_fn: F,
) -> (r: Result<Vec<R>, E>)
    requires
        forall|k: Vec<u8>, v: V| #[trigger] parse_fn.requires((k, v)),
    ensures
        parsed_all(parse_fn, recs@, r),
{
    let ghost all = recs@;
    let mut rest = recs;
    let mut out: Vec<R> = Vec::new();
    let mut i: usize = 0;
    let total = rest.len();
    while rest.len() > 0
        invariant
            forall|k: Vec<u8>, v: V| #[trigger] parse_fn.requires((k, v)),
            all.len() == total,
            all == recs@,
            i + rest@.len() == all.len(),
            rest@ == all.skip(i as int),
            out@.len() == i,
            forall|j: int| 0 <= j < i ==> #[trigger] parse_fn.ensures((all[j].0, all[j].1), Ok::<R, E>(out@[j])),
        decreases rest.len(),
    {
        assert(rest@[0] == all[i as int]);
        let (k, v) = rest.remove(0);
        assert(rest@ =~= all.skip(i + 1));
        match parse_fn(k, v) {
            Ok(o) => {
                out.push(o);
                i = i + 1;
            },
            Err(e) => {
                proof {
                    assert(parse_fn.ensures((all[i as int].0, all[i as int].1), Err::<R, E>(e)));
                    assert forall|j: int| 0 <= j < i implies #[trigger] parses_ok(parse_fn, all[j]) by {
                        assert(parse_fn.ensures((all[j].0, all[j].1), Ok::<R, E>(out@[j])));
                    }
                    assert(0 <= i < all.len() && parse_fn.ensures((all[i as int].0, all[i as int].1), Err::<R, E>(e))
                        && (forall|j: int| 0 <= j < i ==> #[trigger] parses_ok(parse_fn, all[j])));
                    assert(failed_at_first(parse_fn, all, e));
                }
                return Err(e);
            },
        }
    }
    assert(parsed_each(parse_fn, all, out@));
    Ok(out)
}

/// A page of a map: its records in ascending key order from `start` on, as
/// many as the limit allows (ten by default, at most thirty), each parsed by
/// `parse_fn`; the first error stops the page.
pub fn paginate_map<V: StoredValue, R, E, F: Fn(Vec<u8>, V) -> Result<R, E>>(
    map: &ByteMap<V>,
    start: Option<Bound>,
    limit: Option<u32>,
    parse_fn: F,
) -> (r: Result<Vec<R>, E>)
    requires
        forall|k: Vec<u8>, v: V| #[trigger] parse_fn.requires((k, v)),
    ensures
        exists|recs: Seq<(Vec<u8>, V)>|
            #![trigger records_view(recs)]
            records_view(recs) == page_of(map.contents(), bound_view(start), page_size(limit))
                && parsed_all(parse_fn, recs, r),
{
    let n = page_limit(limit);
    let recs = page(map.entries(), &start, n);
    let ghost rv = recs@;
    let r = parse_records(recs, parse_fn);
    assert(records_view(rv) == page_of(map.contents(), bound_view(start), page_size(limit)));
    r
}

/// A page of the records of a map whose keys start with `prefix`: keyed by
/// the rest of the key, in ascending order from `start` (a bound on that
/// rest) on, as many as the limit allows, each parsed by `parse_fn`; the
/// first error stops the page.
pub fn paginate_map_prefix<V: StoredValue, R, E, F: Fn(Vec<u8>, V) -> Result<R, E>>(
    map: &ByteMap<V>,
    prefix: &[u8],
    start: Option<Bound>,
    limit: Option<u32>,
    parse_fn: F,
) -> (r: Result<Vec<R>, E>)
    requires
        forall|k: Vec<u8>, v: V| #[trigger] parse_fn.requires((k, v)),
    ensures
        exists|recs: Seq<(Vec<u8>, V)>|
            #![trigger records_view(recs)]
            records_view(recs) == page_of(
                strip_prefix(map.contents(), prefix@),
                bound_view(start),
                page_size(limit),
            ) && parsed_all(parse_fn, recs, r),
{
    let recs = prefix_page(map, prefix, &start, limit);
    let ghost rv = recs@;
    let r = parse_records(recs, parse_fn);
    assert(records_view(rv) == page_of(
        strip_prefix(map.contents(), prefix@),
        bound_view(start),
        page_size(limit),
    ));
    r
}

/// The records of a page of the keys under `prefix`, unparsed.
fn prefix_page<V: StoredValue>(
    map: &ByteMap<V>,
    prefix: &[u8],
    start: &Option<Bound>,
    limit: Option<u32>,
) -> (r: Vec<(Vec<u8>, V)>)
    ensures
        records_view(r@) == page_of(
            strip_prefix(map.contents(), prefix@),
            bound_view(*start),
            page_size(limit),
        ),
{
    let entries = map.entries();
    let ghost s = records_view(entries@);
    let mut stripped: Vec<(Vec<u8>, V)> = Vec::new();
    let mut i: usize = 0;
    while i < entries.len()
        invariant
            s == records_view(entries@),
            i <= entries@.len(),
            records_view(stripped@) == strip_prefix(s.take(i as int), prefix@),
        decreases entries.len() - i,
    {
        let ghost before = records_view(stripped@);
        assert(s.take(i + 1).drop_last() =~= s.take(i as int));
        let key = entries[i].0.as_slice();
        if has_prefix(prefix, key) {
            let rec = (trim(prefix, key), entries[i].1.duplicate());
            stripped.push(rec);
            proof {
                assert(records_view(stripped@) =~= before.push(
                    (s[i as int].0.skip(prefix@.len() as int), s[i as int].1),
                ));
            }
        }
        i = i + 1;
    }
    assert(s.take(entries@.len() as int) =~= s);
    let n = page_limit(limit);
    page(&stripped, start, n)
}

/// Whether `key` starts with `prefix`.
pub fn has_prefix(prefix: &[u8], key: &[u8]) -> (r: bool)
    ensures
        r == prefix@.is_prefix_of(key@),
{
    if prefix.len() > key.len() {
        return false;
    }
    let mut i: usize = 0;
    while i < prefix.len()
        invariant
            prefix@.len() <= key@.len(),
            i <= prefix@.len(),
            forall|j: int| 0 <= j < i ==> prefix@[j] == key@[j],
        decreases prefix.len() - i,
    {
        if prefix[i] != key[i] {
            return false;
        }
        i = i + 1;
    }
    true
}

} // verus!
