//! Namespacing keys: prefixing, stripping a prefix, and the first key above
//! every key of a namespace.
use vstd::prelude::*;

use crate::bytes::{copy_bytes, lex_lt, lex_lt_from};

verus! {

/// Concatenates two byte strings.
pub fn concat(a: &[u8], b: &[u8]) -> (c: Vec<u8>)
    ensures
        c@ == a@ + b@,
{
    let mut c = copy_bytes(a);
    let mut j: usize = 0;
    while j < b.len()
        invariant
            j <= b@.len(),
            c@ == a@ + b@.subrange(0, j as int),
        decreases b.len() - j,
    {
        c.push(b[j]);
        j = j + 1;
        assert(c@ =~= a@ + b@.subrange(0, j as int));
    }
    assert(b@.subrange(0, b@.len() as int) =~= b@);
    c
}

/// Strips the namespace from the front of a key.
pub fn trim(namespace: &[u8], key: &[u8]) -> (r: Vec<u8>)
    requires
        namespace@.len() <= key@.len(),
    ensures
        r@ == key@.skip(namespace@.len() as int),
{
    let mut r: Vec<u8> = Vec::new();
    let mut i: usize = namespace.len();
    while i < key.len()
        invariant
            namespace@.len() <= i <= key@.len(),
            r@ == key@.subrange(namespace@.len() as int, i as int),
        decreases key.len() - i,
    {
        r.push(key[i]);
        i = i + 1;
        assert(r@ =~= key@.subrange(namespace@.len() as int, i as int));
    }
    assert(r@ =~= key@.skip(namespace@.len() as int));
    r
}

/// The byte string read as a big-endian number, plus one, keeping its length:
/// trailing `0xff` bytes become `0x00` and the last other byte goes up by one.
/// A string of `0xff` bytes wraps around to zeros.
pub open spec fn increment(s: Seq<u8>) -> Seq<u8>
    decreases s.len(),
{
    if s.len() == 0 {
        s
    } else if s.last() == 255 {
        increment(s.drop_last()).push(0)
    } else {
        s.drop_last().push((s.last() + 1) as u8)
    }
}

/// Every byte of `s` is `0xff`.
pub open spec fn all_ff(s: Seq<u8>) -> bool {
    forall|i: int| 0 <= i < s.len() ==> s[i] == 255
}

/// The vector of the same length with the last byte incremented by one; if
/// the last bytes are 255, the carry goes up the chain.
pub fn namespace_upper_bound(input: &[u8]) -> (r: Vec<u8>)
    ensures
        r@ == increment(input@),
{
    let mut copy = copy_bytes(input);
    let n = input.len();
    let mut i: usize = n;
    let mut done = false;
    while i > 0 && !done
        invariant
            n == input@.len(),
            i <= n,
            copy@.len() == n,
            done ==> copy@ == increment(input@),
            !done ==> forall|j: int| 0 <= j < i ==> copy@[j] == input@[j],
            !done ==> forall|j: int| i <= j < n ==> copy@[j] == 0 && input@[j] == 255,
        decreases i,
    {
        i = i - 1;
        if copy[i] == 255 {
            copy.set(i, 0);
        } else {
            copy.set(i, copy[i] + 1);
            done = true;
            proof {
                lemma_increment_split(input@, i as int);
                assert(copy@ =~= input@.subrange(0, i as int).push((input@[i as int] + 1) as u8)
                    + input@.subrange(i as int + 1, n as int).map_values(|b: u8| 0u8));
            }
        }
    }
    if !done {
        proof {
            assert(copy@ =~= input@.map_values(|b: u8| 0u8));
            lemma_increment_all_ff(input@);
        }
    }
    copy
}

/// Incrementing at the last byte below 0xff, at position `i`.
proof fn lemma_increment_split(s: Seq<u8>, i: int)
    requires
        0 <= i < s.len(),
        s[i] != 255,
        forall|j: int| i < j < s.len() ==> s[j] == 255,
    ensures
        increment(s) == s.subrange(0, i).push((s[i] + 1) as u8) + s.subrange(i + 1, s.len() as int).map_values(|b: u8| 0u8),
    decreases s.len(),
{
    if i == s.len() - 1 {
        assert(s.drop_last() =~= s.subrange(0, i));
        assert(s.subrange(i + 1, s.len() as int).map_values(|b: u8| 0u8) =~= Seq::<u8>::empty());
        assert(increment(s) =~= s.subrange(0, i).push((s[i] + 1) as u8) + s.subrange(i + 1, s.len() as int).map_values(|b: u8| 0u8));
    } else {
        lemma_increment_split(s.drop_last(), i);
        assert(s.drop_last().subrange(0, i) =~= s.subrange(0, i));
        assert(s.subrange(i + 1, s.len() as int).map_values(|b: u8| 0u8) =~= s.drop_last().subrange(i + 1, s.len() - 1).map_values(|b: u8| 0u8).push(0));
        assert(increment(s) =~= s.subrange(0, i).push((s[i] + 1) as u8) + s.subrange(i + 1, s.len() as int).map_values(|b: u8| 0u8));
    }
}

proof fn lemma_increment_all_ff(s: Seq<u8>)
    requires
        all_ff(s),
    ensures
        increment(s) == s.map_values(|b: u8| 0u8),
    decreases s.len(),
{
    if s.len() > 0 {
        lemma_increment_all_ff(s.drop_last());
        assert(increment(s) =~= s.map_values(|b: u8| 0u8));
    }
}

proof fn lemma_lt_at_difference(a: Seq<u8>, b: Seq<u8>, i: nat, d: nat)
    requires
        i <= d,
        d < a.len(),
        d < b.len(),
        forall|j: int| i <= j < d ==> a[j] == b[j],
        a[d as int] < b[d as int],
    ensures
        lex_lt_from(a, b, i),
    decreases d - i,
{
    if i < d {
        lemma_lt_at_difference(a, b, i + 1, d);
    }
}

proof fn lemma_not_lt_extension(k: Seq<u8>, ns: Seq<u8>, i: nat)
    requires
        i <= ns.len() <= k.len(),
        forall|j: int| 0 <= j < ns.len() ==> k[j] == ns[j],
    ensures
        !lex_lt_from(k, ns, i),
    decreases ns.len() - i,
{
    if i < ns.len() {
        lemma_not_lt_extension(k, ns, i + 1);
    }
}

/// For a namespace that is not all `0xff`, every key in it (every extension
/// of it) lies at or above the namespace and strictly below
/// `namespace_upper_bound(namespace)`.
pub proof fn law_upper_bound_bounds_namespace(namespace: Seq<u8>, key: Seq<u8>)
    requires
        !all_ff(namespace),
        namespace.is_prefix_of(key),
    ensures
        !lex_lt(key, namespace),
        lex_lt(key, increment(namespace)),
{
    lemma_not_lt_extension(key, namespace, 0);
    let d = choose|d: int| 0 <= d < namespace.len() && namespace[d] != 255 && forall|j: int|
        d < j < namespace.len() ==> namespace[j] == 255;
    assert(exists|d: int| 0 <= d < namespace.len() && namespace[d] != 255 && forall|j: int|
        d < j < namespace.len() ==> namespace[j] == 255) by {
        lemma_last_non_ff(namespace);
    }
    lemma_increment_split(namespace, d);
    let u = increment(namespace);
    assert(u[d] == (namespace[d] + 1) as u8);
    assert(forall|j: int| 0 <= j < d ==> u[j] == namespace[j]);
    lemma_lt_at_difference(key, u, 0, d as nat);
}

proof fn lemma_last_non_ff(s: Seq<u8>)
    requires
        !all_ff(s),
    ensures
        exists|d: int| 0 <= d < s.len() && s[d] != 255 && forall|j: int| d < j < s.len() ==> s[j]
            == 255,
    decreases s.len(),
{
    if s.last() != 255 {
        assert(0 <= s.len() - 1 < s.len() && s[s.len() - 1] != 255 && forall|j: int|
            s.len() - 1 < j < s.len() ==> s[j] == 255);
    } else {
        let t = s.drop_last();
        assert(!all_ff(t)) by {
            let i = choose|i: int| 0 <= i < s.len() && s[i] != 255;
            assert(t[i] == s[i]);
        }
        lemma_last_non_ff(t);
        let d = choose|d: int| 0 <= d < t.len() && t[d] != 255 && forall|j: int| d < j < t.len() ==> t[j]
            == 255;
        assert(s[d] == t[d]);
        assert(forall|j: int| d < j < s.len() ==> s[j] == 255) by {
            assert forall|j: int| d < j < s.len() implies s[j] == 255 by {
                if j < t.len() {
                    assert(t[j] == s[j]);
                }
            }
        }
    }
}

/// Stripping a namespace undoes prefixing with it: `trim(ns, concat(ns, k))`
/// gives `k` back.
pub proof fn law_trim_undoes_concat(namespace: Seq<u8>, key: Seq<u8>)
    ensures
        namespace.len() <= (namespace + key).len(),
        (namespace + key).skip(namespace.len() as int) == key,
{
    assert((namespace + key).skip(namespace.len() as int) =~= key);
}

} // verus!
