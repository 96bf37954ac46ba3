use cw_sdk::bytemap::{key_in_range, ByteMap};
use cw_sdk::bytes::{compare_bytes, copy_bytes, is_before, KeyCmp, Order};
use cw_sdk::pending::{
    merge_records, range_inverted, walk_key_in_bounds, Op, PendingOps, PendingRead,
};
use cw_sdk::prefix::{namespace_upper_bound, trim};
use cw_sdk::storage::{StorageError, WasmStorage};

fn b(s: &str) -> Vec<u8> {
    s.as_bytes().to_vec()
}

fn kv(k: &str, v: &str) -> (Vec<u8>, Vec<u8>) {
    (b(k), b(v))
}

/// The committed records of the store tests: key1..key4 with value1..value4.
fn committed() -> ByteMap<Vec<u8>> {
    let mut m = ByteMap::new();
    m.insert(b("key1"), b("value1"));
    m.insert(b("key2"), b("value2"));
    m.insert(b("key3"), b("value3"));
    m.insert(b("key4"), b("value4"));
    m
}

/// The pending operations of the store tests.
fn pending() -> PendingOps {
    let mut p = PendingOps::new();
    p.set(b"key2", b"value23456");
    p.set(b"key3333", b"value3333");
    p.remove(b"key3");
    p
}

/// A read through the pending operations onto the committed records.
fn read_through(p: &PendingOps, base: &ByteMap<Vec<u8>>, key: &[u8]) -> Option<Vec<u8>> {
    match p.read(key) {
        PendingRead::Written(v) => Some(v),
        PendingRead::Deleted => None,
        PendingRead::Untouched => base.get(key).cloned(),
    }
}

fn merged(
    p: &PendingOps,
    base: &ByteMap<Vec<u8>>,
    start: Option<&[u8]>,
    end: Option<&[u8]>,
    order: Order,
) -> Vec<(Vec<u8>, Vec<u8>)> {
    let committed = if range_inverted(start, end) { Vec::new() } else { base.range(start, end, order) };
    p.merged_range(&committed, start, end, order)
}

#[test]
fn getting() {
    let base = committed();
    let p = pending();

    // the committed records alone
    assert_eq!(base.get(b"key1"), Some(&b("value1")));
    assert_eq!(base.get(b"key2"), Some(&b("value2")));
    assert_eq!(base.get(b"key3"), Some(&b("value3")));
    assert_eq!(base.get(b"key3333"), None);

    // through the pending operations
    assert_eq!(read_through(&p, &base, b"key1"), Some(b("value1")));
    assert_eq!(read_through(&p, &base, b"key2"), Some(b("value23456")));
    assert_eq!(read_through(&p, &base, b"key3"), None);
    assert_eq!(read_through(&p, &base, b"key3333"), Some(b("value3333")));
}

#[test]
fn committing() {
    let mut base = committed();
    let mut p = pending();

    let batch = p.take_batch();
    for (k, op) in batch {
        match op {
            Op::Put(v) => base.insert(k, v),
            Op::Delete => {
                base.remove(&k);
            }
        }
    }

    assert_eq!(base.get(b"key1"), Some(&b("value1")));
    assert_eq!(base.get(b"key2"), Some(&b("value23456")));
    assert_eq!(base.get(b"key3"), None);
    assert_eq!(base.get(b"key3333"), Some(&b("value3333")));

    // after committing, no operation is pending
    assert_eq!(p.len(), 0);
}

#[test]
fn iterating() {
    let base = committed();
    let mut kv_all = vec![
        kv("key1", "value1"),
        kv("key2", "value2"),
        kv("key3", "value3"),
        kv("key4", "value4"),
    ];

    let items = base.range(None, None, Order::Ascending);
    assert_eq!(items, kv_all);

    // the lower bound is inclusive, the upper bound exclusive
    let items = base.range(Some(b"key1234"), Some(b"key4"), Order::Ascending);
    assert_eq!(items, &kv_all[1..3]);

    kv_all.reverse();

    let items = base.range(None, None, Order::Descending);
    assert_eq!(items, kv_all);

    let items = base.range(Some(b"key1234"), Some(b"key4"), Order::Descending);
    assert_eq!(items, &kv_all[1..3]);
}

#[test]
fn iterating_pending() {
    let base = committed();
    let p = pending();
    let mut kv_all = vec![
        kv("key1", "value1"),
        kv("key2", "value23456"),
        kv("key3333", "value3333"),
        kv("key4", "value4"),
    ];

    let items = merged(&p, &base, None, None, Order::Ascending);
    assert_eq!(items, kv_all);

    let items = merged(&p, &base, Some(b"key1234"), Some(b"key4"), Order::Ascending);
    assert_eq!(items, &kv_all[1..3]);

    kv_all.reverse();

    let items = merged(&p, &base, None, None, Order::Descending);
    assert_eq!(items, kv_all);

    let items = merged(&p, &base, Some(b"key1234"), Some(b"key4"), Order::Descending);
    assert_eq!(items, &kv_all[1..3]);
}

#[test]
fn merged_range_of_inverted_bounds_is_empty() {
    let base = committed();
    let p = pending();
    assert!(range_inverted(Some(b"key4"), Some(b"key1")));
    assert!(!range_inverted(Some(b"key1"), Some(b"key1")));
    assert!(!range_inverted(None, Some(b"key1")));
    let items = merged(&p, &base, Some(b"key4"), Some(b"key1"), Order::Ascending);
    assert!(items.is_empty());
}

#[test]
fn merge_records_overlays_pending_on_committed() {
    let base_recs = vec![kv("a", "1"), kv("b", "2"), kv("d", "4")];
    let pend = vec![
        (b("a"), Op::Delete),
        (b("b"), Op::Put(b("20"))),
        (b("c"), Op::Put(b("30"))),
        (b("e"), Op::Delete),
    ];
    let r = merge_records(&base_recs, &pend, Order::Ascending);
    assert_eq!(r, vec![kv("b", "20"), kv("c", "30"), kv("d", "4")]);

    let base_desc = vec![kv("d", "4"), kv("b", "2"), kv("a", "1")];
    let pend_desc = vec![
        (b("e"), Op::Delete),
        (b("c"), Op::Put(b("30"))),
        (b("b"), Op::Put(b("20"))),
        (b("a"), Op::Delete),
    ];
    let r = merge_records(&base_desc, &pend_desc, Order::Descending);
    assert_eq!(r, vec![kv("d", "4"), kv("c", "30"), kv("b", "20")]);
}

#[test]
fn pending_ops_last_write_wins() {
    let mut p = PendingOps::new();
    assert!(matches!(p.read(b"k"), PendingRead::Untouched));
    p.set(b"k", b"v1");
    p.set(b"k", b"v2");
    assert!(matches!(p.read(b"k"), PendingRead::Written(v) if v == b("v2")));
    p.remove(b"k");
    assert!(matches!(p.read(b"k"), PendingRead::Deleted));
    p.set(b"k", b"v3");
    assert!(matches!(p.read(b"k"), PendingRead::Written(v) if v == b("v3")));
    assert_eq!(p.len(), 1);
}

#[test]
fn pending_range_keeps_deletions() {
    let p = pending();
    let r = p.range(None, None, Order::Ascending);
    let keys: Vec<Vec<u8>> = r.iter().map(|(k, _)| k.clone()).collect();
    assert_eq!(keys, vec![b("key2"), b("key3"), b("key3333")]);
    assert!(matches!(r[1].1, Op::Delete));
}

#[test]
fn take_batch_comes_in_ascending_order() {
    let mut p = PendingOps::new();
    p.set(b"z", b"1");
    p.remove(b"a");
    p.set(b"m", b"2");
    let batch = p.take_batch();
    let keys: Vec<Vec<u8>> = batch.iter().map(|(k, _)| k.clone()).collect();
    assert_eq!(keys, vec![b("a"), b("m"), b("z")]);
    assert!(matches!(p.read(b"z"), PendingRead::Untouched));
}

#[test]
fn commit_publishes_pending_view_on_concrete_values() {
    // the batch, applied to the committed records, gives what reads through
    // the pending operations gave before the commit
    let mut base = committed();
    let mut p = pending();
    let keys = ["key1", "key2", "key3", "key3333", "key4", "key5"];
    let before: Vec<Option<Vec<u8>>> =
        keys.iter().map(|k| read_through(&p, &base, k.as_bytes())).collect();
    for (k, op) in p.take_batch() {
        match op {
            Op::Put(v) => base.insert(k, v),
            Op::Delete => {
                base.remove(&k);
            }
        }
    }
    let after: Vec<Option<Vec<u8>>> = keys.iter().map(|k| base.get(k.as_bytes()).cloned()).collect();
    assert_eq!(before, after);
}

#[test]
fn byte_map_insert_get_remove() {
    let mut m: ByteMap<Vec<u8>> = ByteMap::new();
    assert_eq!(m.len(), 0);
    m.insert(b("b"), b("2"));
    m.insert(b("a"), b("1"));
    m.insert(b("c"), b("3"));
    m.insert(b("b"), b("22"));
    assert_eq!(m.len(), 3);
    assert_eq!(m.get(b"b"), Some(&b("22")));
    assert_eq!(m.remove(b"b"), Some(b("22")));
    assert_eq!(m.remove(b"b"), None);
    assert_eq!(m.get(b"b"), None);
    assert_eq!(m.range(None, None, Order::Ascending), vec![kv("a", "1"), kv("c", "3")]);
    let all = m.take_all();
    assert_eq!(all, vec![kv("a", "1"), kv("c", "3")]);
    assert_eq!(m.len(), 0);
}

#[test]
fn byte_map_from_sorted_and_prefix_keys() {
    let m = ByteMap::from_sorted(vec![kv("", "e"), kv("a", "1"), kv("ab", "2"), kv("b", "3")]);
    assert_eq!(m.get(b""), Some(&b("e")));
    assert_eq!(m.get(b"ab"), Some(&b("2")));
    assert_eq!(
        m.range(Some(b"a"), Some(b"b"), Order::Descending),
        vec![kv("ab", "2"), kv("a", "1")]
    );
}

#[test]
fn comparing_keys() {
    assert_eq!(compare_bytes(b"abc", b"abd"), KeyCmp::Less);
    assert_eq!(compare_bytes(b"abc", b"ab"), KeyCmp::Greater);
    assert_eq!(compare_bytes(b"", b""), KeyCmp::Equal);
    assert_eq!(compare_bytes(b"\xff", b"\x00\xff"), KeyCmp::Greater);
    assert!(is_before(b"a", b"b", Order::Ascending));
    assert!(!is_before(b"a", b"b", Order::Descending));
    assert!(is_before(b"b", b"a", Order::Descending));
    assert!(!is_before(b"a", b"a", Order::Ascending));
    assert_eq!(copy_bytes(b"xyz"), b("xyz"));
}

#[test]
fn key_range_bounds() {
    assert!(key_in_range(b"key2", Some(b"key1234"), Some(b"key4")));
    assert!(key_in_range(b"key1234", Some(b"key1234"), Some(b"key4")));
    assert!(!key_in_range(b"key4", Some(b"key1234"), Some(b"key4")));
    assert!(!key_in_range(b"key1", Some(b"key1234"), None));
    assert!(key_in_range(b"anything", None, None));
}

#[test]
fn walking_the_tree_stops_at_the_far_bound() {
    assert!(walk_key_in_bounds(b"key3", None, Some(b"key4"), Order::Ascending));
    assert!(!walk_key_in_bounds(b"key4", None, Some(b"key4"), Order::Ascending));
    assert!(walk_key_in_bounds(b"key9", None, None, Order::Ascending));
    assert!(walk_key_in_bounds(b"key1234", Some(b"key1234"), None, Order::Descending));
    assert!(!walk_key_in_bounds(b"key1", Some(b"key1234"), None, Order::Descending));
}

#[test]
fn prefixing_and_trimming() {
    let ns = b("contract");
    let key = cw_sdk::prefix::concat(&ns, b"counter");
    assert_eq!(key, b("contractcounter"));
    assert_eq!(trim(&ns, &key), b("counter"));
    assert_eq!(cw_sdk::prefix::concat(b"", b""), Vec::<u8>::new());
    assert_eq!(trim(b"abc", b"abc"), Vec::<u8>::new());
}

#[test]
fn trim_undoes_concat_on_concrete_values() {
    for (ns, k) in [(&b"ns"[..], &b"key"[..]), (&b""[..], &b"k"[..]), (&b"\xff\x00"[..], &b""[..])] {
        assert_eq!(trim(ns, &cw_sdk::prefix::concat(ns, k)), k.to_vec());
    }
}

#[test]
fn upper_bound_of_a_namespace() {
    assert_eq!(namespace_upper_bound(&[1, 2, 3]), vec![1, 2, 4]);
    assert_eq!(namespace_upper_bound(&[1, 255]), vec![2, 0]);
    assert_eq!(namespace_upper_bound(&[1, 255, 255]), vec![2, 0, 0]);
    assert_eq!(namespace_upper_bound(&[255, 255]), vec![0, 0]);
    assert_eq!(namespace_upper_bound(&[]), Vec::<u8>::new());
    assert_eq!(namespace_upper_bound(b"contract"), b("contracu"));
}

#[test]
fn upper_bound_bounds_every_key_of_the_namespace() {
    let ns = [7u8, 255, 255];
    let ub = namespace_upper_bound(&ns);
    for key in [vec![7u8, 255, 255], vec![7, 255, 255, 0], vec![7, 255, 255, 255, 255]] {
        assert_ne!(compare_bytes(&key, &ns), KeyCmp::Less);
        assert_eq!(compare_bytes(&key, &ub), KeyCmp::Less);
    }
}

#[test]
fn wasm_storage_reads_and_writes() {
    let mut s = WasmStorage::new();
    assert_eq!(s.get(b"k"), None);
    s.set(b"k", b"v");
    assert_eq!(s.get(b"k"), Some(b("v")));
    s.set(b"k", b"w");
    assert_eq!(s.get(b"k"), Some(b("w")));
    s.remove(b"k");
    assert_eq!(s.get(b"k"), None);
}

#[test]
fn wasm_storage_scans() {
    let mut s = WasmStorage::new();
    s.set(b"key1", b"value1");
    s.set(b"key2", b"value2");
    s.set(b"key3", b"value3");

    let id1 = s.scan(None, None, Order::Ascending);
    assert_eq!(id1, 1);
    let id2 = s.scan(Some(b"key2"), None, Order::Descending);
    assert_eq!(id2, 2);

    // a scan reads a snapshot: later writes do not reach it
    s.set(b"key4", b"value4");
    s.remove(b"key1");

    assert_eq!(s.next(id1), Ok(Some(kv("key1", "value1"))));
    assert_eq!(s.next(id2), Ok(Some(kv("key3", "value3"))));
    assert_eq!(s.all(id1), Ok(vec![kv("key2", "value2"), kv("key3", "value3")]));
    assert_eq!(s.next(id1), Ok(None));
    assert_eq!(s.next(id2), Ok(Some(kv("key2", "value2"))));
    assert_eq!(s.next(id2), Ok(None));

    let id3 = s.scan(Some(b"key9"), Some(b"key0"), Order::Ascending);
    assert_eq!(id3, 3);
    assert_eq!(s.next(id3), Ok(None));
}

#[test]
fn wasm_storage_refuses_unknown_iterators() {
    let mut s = WasmStorage::new();
    assert_eq!(s.next(0), Err(StorageError::IteratorDoesNotExist { id: 0 }));
    assert_eq!(s.next(1), Err(StorageError::IteratorDoesNotExist { id: 1 }));
    assert_eq!(s.all(5), Err(StorageError::IteratorDoesNotExist { id: 5 }));
    let id = s.scan(None, None, Order::Ascending);
    assert_eq!(s.all(id), Ok(vec![]));
}

#[test]
fn wasm_storage_duplicate_is_independent() {
    let mut s = WasmStorage::new();
    s.set(b"a", b"1");
    let mut d = s.duplicate();
    d.set(b"a", b"2");
    assert_eq!(s.get(b"a"), Some(b("1")));
    assert_eq!(d.get(b"a"), Some(b("2")));
}

// ---------------------------------------------------------------------------
// pages and unique indexes
// ---------------------------------------------------------------------------

use cw_sdk::indexes::{IndexError, OptionalUniqueIndex};
use cw_sdk::paginate::{has_prefix, is_after_start, page, paginate_map, paginate_map_prefix, Bound};

fn numbered(n: usize) -> ByteMap<Vec<u8>> {
    let mut m = ByteMap::new();
    for i in 0..n {
        m.insert(format!("k{:02}", i).into_bytes(), format!("v{}", i).into_bytes());
    }
    m
}

fn keep(k: Vec<u8>, v: Vec<u8>) -> Result<(Vec<u8>, Vec<u8>), String> {
    Ok((k, v))
}

#[test]
fn paginating_stops_at_the_first_error() {
    let m = numbered(5);
    let r = paginate_map(&m, None, None, |k: Vec<u8>, v: Vec<u8>| {
        if k == b("k02") { Err(format!("bad {}", String::from_utf8(v).unwrap())) } else { Ok(k.len()) }
    });
    assert_eq!(r, Err("bad v2".to_string()));
    let r = paginate_map(&m, None, Some(2), |k: Vec<u8>, _v: Vec<u8>| -> Result<usize, String> { Ok(k.len()) });
    assert_eq!(r, Ok(vec![3, 3]));
}

#[test]
fn paginating_a_map() {
    let m = numbered(40);
    let p = paginate_map(&m, None, None, keep).unwrap();
    assert_eq!(p.len(), 10);
    assert_eq!(p[0], kv("k00", "v0"));
    assert_eq!(p[9], kv("k09", "v9"));

    let p = paginate_map(&m, Some(Bound::Exclusive(b("k09"))), Some(5), keep).unwrap();
    assert_eq!(p.iter().map(|(k, _)| k.clone()).collect::<Vec<_>>(), vec![b("k10"), b("k11"), b("k12"), b("k13"), b("k14")]);

    let p = paginate_map(&m, Some(Bound::Inclusive(b("k09"))), Some(2), keep).unwrap();
    assert_eq!(p, vec![kv("k09", "v9"), kv("k10", "v10")]);

    // the limit is capped at thirty
    assert_eq!(paginate_map(&m, None, Some(100), keep).unwrap().len(), 30);
    // past the end
    assert!(paginate_map(&m, Some(Bound::Exclusive(b("k39"))), None, keep).unwrap().is_empty());
    assert_eq!(paginate_map(&m, None, Some(0), keep).unwrap().len(), 0);
}

#[test]
fn paginating_a_prefix() {
    let mut m: ByteMap<Vec<u8>> = ByteMap::new();
    m.insert(b("a/1"), b("x"));
    m.insert(b("b/1"), b("one"));
    m.insert(b("b/2"), b("two"));
    m.insert(b("b/3"), b("three"));
    m.insert(b("c/1"), b("y"));
    let p = paginate_map_prefix(&m, b"b/", None, None, keep).unwrap();
    assert_eq!(p, vec![kv("1", "one"), kv("2", "two"), kv("3", "three")]);
    let p = paginate_map_prefix(&m, b"b/", Some(Bound::Exclusive(b("1"))), Some(1), keep).unwrap();
    assert_eq!(p, vec![kv("2", "two")]);
    assert!(paginate_map_prefix(&m, b"d/", None, None, keep).unwrap().is_empty());
}

#[test]
fn page_bounds_and_prefixes() {
    assert!(is_after_start(b"b", &Some(Bound::Inclusive(b("b")))));
    assert!(!is_after_start(b"b", &Some(Bound::Exclusive(b("b")))));
    assert!(is_after_start(b"c", &Some(Bound::Exclusive(b("b")))));
    assert!(is_after_start(b"", &None));
    assert!(has_prefix(b"ab", b"abc"));
    assert!(has_prefix(b"", b"abc"));
    assert!(!has_prefix(b"abcd", b"abc"));
    assert!(!has_prefix(b"ac", b"abc"));
    let recs = vec![kv("a", "1"), kv("c", "3"), kv("b", "2")];
    // a page keeps the order of the records it is given
    assert_eq!(page(&recs, &Some(Bound::Inclusive(b("b"))), 5), vec![kv("c", "3"), kv("b", "2")]);
}

/// An account as the index sees it: a base account, or a contract with a
/// label.
enum TestAccount {
    Base { pubkey: &'static [u8], sequence: u64 },
    Contract { code_id: u64, label: &'static str, admin: Option<&'static str> },
}

/// The index key of an account: a contract's label; base accounts have none.
fn label_index(account: &TestAccount) -> Option<Vec<u8>> {
    match account {
        TestAccount::Base { .. } => None,
        TestAccount::Contract { label, .. } => Some(label.as_bytes().to_vec()),
    }
}

/// The stored bytes of an account.
fn encode_account(account: &TestAccount) -> Vec<u8> {
    match account {
        TestAccount::Base { pubkey, sequence } => format!("base {:?} {}", pubkey, sequence).into_bytes(),
        TestAccount::Contract { code_id, label, admin } => {
            format!("contract {} {} {:?}", code_id, label, admin).into_bytes()
        }
    }
}

#[test]
fn indexing_accounts() {
    let mut idx: OptionalUniqueIndex<Vec<u8>> = OptionalUniqueIndex::new();
    let addresses = ["base1", "base2", "bank", "token-factory"];
    let accounts = [
        TestAccount::Base { pubkey: b"base1pubkey", sequence: 0 },
        TestAccount::Base { pubkey: b"base2pubkey", sequence: 123 },
        TestAccount::Contract { code_id: 234, label: "bank", admin: None },
        TestAccount::Contract { code_id: 345, label: "token-factory", admin: Some("larry") },
    ];
    for (addr, acct) in addresses.iter().zip(accounts.iter()) {
        let key = label_index(acct);
        idx.save(addr.as_bytes(), &encode_account(acct), key.as_deref()).unwrap();
    }

    // the bank contract is indexed
    let (addr, acct) = idx.may_load(b"bank").unwrap();
    assert_eq!(addr, b(addresses[2]));
    assert_eq!(acct, encode_account(&accounts[2]));

    // the token-factory contract is indexed
    let (addr, acct) = idx.may_load(b"token-factory").unwrap();
    assert_eq!(addr, b(addresses[3]));
    assert_eq!(acct, encode_account(&accounts[3]));

    // the base accounts are not: the index holds two entries
    let items = idx.range(None, None, Order::Ascending);
    assert_eq!(items.len(), 2);
}

#[test]
fn rejecting_duplicate_indexes() {
    let mut idx: OptionalUniqueIndex<Vec<u8>> = OptionalUniqueIndex::new();

    // store the account for the first time, should succeed
    idx.save(b"bank", &b("code 234"), Some(b"bank")).unwrap();

    // store another account with the same label, should fail
    let err = idx.save(b"token-factory", &b("code 345"), Some(b"bank")).unwrap_err();
    assert_eq!(err, IndexError::UniqueConstraint);
    assert_eq!(err.message(), "Violates unique constraint on index");

    // the first one stays
    assert_eq!(idx.may_load(b"bank"), Some((b("bank"), b("code 234"))));
}

#[test]
fn removing_from_an_index() {
    let mut idx: OptionalUniqueIndex<Vec<u8>> = OptionalUniqueIndex::new();
    idx.save(b"pk1", &b("a"), Some(b"x")).unwrap();
    idx.save(b"pk2", &b("b"), Some(b"y")).unwrap();
    idx.remove(None);
    idx.remove(Some(b"x"));
    assert_eq!(idx.may_load(b"x"), None);
    // the key is free again
    idx.save(b"pk3", &b("c"), Some(b"x")).unwrap();
    let items = idx.range(None, None, Order::Descending);
    assert_eq!(items, vec![(b("pk2"), b("b")), (b("pk3"), b("c"))]);
    let items = idx.range(Some(b"y"), None, Order::Ascending);
    assert_eq!(items, vec![(b("pk2"), b("b"))]);
}

#[test]
fn descending_walk_is_reversed_ascending() {
    let base = committed();
    let p = pending();
    for (start, end) in [(None, None), (Some(&b"key1234"[..]), Some(&b"key4"[..])), (Some(&b"key2"[..]), None)] {
        let mut asc = base.range(start, end, Order::Ascending);
        asc.reverse();
        assert_eq!(base.range(start, end, Order::Descending), asc);

        let mut asc = merged(&p, &base, start, end, Order::Ascending);
        asc.reverse();
        assert_eq!(merged(&p, &base, start, end, Order::Descending), asc);

        let mut s = WasmStorage::new();
        for (k, v) in base.range(None, None, Order::Ascending) {
            s.set(&k, &v);
        }
        let up = s.scan(start, end, Order::Ascending);
        let down = s.scan(start, end, Order::Descending);
        let mut asc = s.all(up).unwrap();
        asc.reverse();
        assert_eq!(s.all(down).unwrap(), asc);
    }
}

#[test]
fn pending_walk_shows_the_committed_state() {
    let base = committed();
    let p = pending();
    let walk = merged(&p, &base, Some(b"key1234"), None, Order::Ascending);

    let mut after = committed();
    let mut q = pending();
    for (k, op) in q.take_batch() {
        match op {
            Op::Put(v) => after.insert(k, v),
            Op::Delete => {
                after.remove(&k);
            }
        }
    }
    assert_eq!(walk, after.range(Some(b"key1234"), None, Order::Ascending));
}
