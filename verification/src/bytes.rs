//! Byte strings as keys: their lexicographic order, and the iteration order
//! (ascending or descending) in which the stores hand them out.
use vstd::prelude::*;

verus! {

/// The direction in which a range of keys is walked.
#[derive(Clone, Copy, Debug, PartialEq, Eq, Structural)]
pub enum Order {
    Ascending,
    Descending,
}

/// Lexicographic "strictly less than" on byte strings, compared from
/// position `i` onwards. A proper prefix is smaller than its extensions.
pub open spec fn lex_lt_from(a: Seq<u8>, b: Seq<u8>, i: nat) -> bool
    decreases a.len() - i,
{
    if i >= a.len() {
        i < b.len()
    } else if i >= b.len() {
        false
    } else if a[i as int] < b[i as int] {
        true
    } else if a[i as int] > b[i as int] {
        false
    } else {
        lex_lt_from(a, b, i + 1)
    }
}

/// Lexicographic order on byte strings (the order of `Vec<u8>` in Rust).
pub open spec fn lex_lt(a: Seq<u8>, b: Seq<u8>) -> bool {
    lex_lt_from(a, b, 0)
}

/// `a` comes strictly before `b` when walking keys in `order`.
pub open spec fn key_before(a: Seq<u8>, b: Seq<u8>, order: Order) -> bool {
    match order {
        Order::Ascending => lex_lt(a, b),
        Order::Descending => lex_lt(b, a),
    }
}

/// The keys of `s` strictly increase in the walking `order`.
pub open spec fn sorted_keys<V>(s: Seq<(Seq<u8>, V)>, order: Order) -> bool {
    forall|i: int, j: int| 0 <= i < j < s.len() ==> key_before(#[trigger] s[i].0, #[trigger] s[j].0, order)
}

proof fn lemma_lex_irrefl_from(a: Seq<u8>, i: nat)
    ensures
        !lex_lt_from(a, a, i),
    decreases a.len() - i,
{
    if i < a.len() {
        lemma_lex_irrefl_from(a, i + 1);
    }
}

proof fn lemma_lex_asym_from(a: Seq<u8>, b: Seq<u8>, i: nat)
    ensures
        !(lex_lt_from(a, b, i) && lex_lt_from(b, a, i)),
    decreases a.len() - i,
{
    if i < a.len() && i < b.len() && a[i as int] == b[i as int] {
        lemma_lex_asym_from(a, b, i + 1);
    }
}

proof fn lemma_lex_trans_from(a: Seq<u8>, b: Seq<u8>, c: Seq<u8>, i: nat)
    requires
        lex_lt_from(a, b, i),
        lex_lt_from(b, c, i),
    ensures
        lex_lt_from(a, c, i),
    decreases a.len() - i,
{
    if i < a.len() && i < b.len() && i < c.len() && a[i as int] == b[i as int] && b[i as int]
        == c[i as int] {
        lemma_lex_trans_from(a, b, c, i + 1);
    }
}

proof fn lemma_lex_total_from(a: Seq<u8>, b: Seq<u8>, i: nat)
    requires
        i <= a.len(),
        i <= b.len(),
        forall|j: int| 0 <= j < i ==> a[j] == b[j],
        !lex_lt_from(a, b, i),
        !lex_lt_from(b, a, i),
    ensures
        a == b,
    decreases a.len() - i,
{
    if i < a.len() && i < b.len() {
        lemma_lex_total_from(a, b, i + 1);
    } else {
        assert(a =~= b);
    }
}

/// The lexicographic order is a strict total order.
pub proof fn lemma_lex_order(a: Seq<u8>, b: Seq<u8>, c: Seq<u8>)
    ensures
        !lex_lt(a, a),
        !(lex_lt(a, b) && lex_lt(b, a)),
        lex_lt(a, b) && lex_lt(b, c) ==> lex_lt(a, c),
        a != b ==> lex_lt(a, b) || lex_lt(b, a),
{
    lemma_lex_irrefl_from(a, 0);
    lemma_lex_asym_from(a, b, 0);
    if lex_lt(a, b) && lex_lt(b, c) {
        lemma_lex_trans_from(a, b, c, 0);
    }
    if !lex_lt(a, b) && !lex_lt(b, a) {
        lemma_lex_total_from(a, b, 0);
    }
}

/// `key_before` is a strict total order for either walking order.
pub proof fn lemma_before_order(a: Seq<u8>, b: Seq<u8>, c: Seq<u8>, order: Order)
    ensures
        !key_before(a, a, order),
        !(key_before(a, b, order) && key_before(b, a, order)),
        key_before(a, b, order) && key_before(b, c, order) ==> key_before(a, c, order),
        a != b ==> key_before(a, b, order) || key_before(b, a, order),
{
    lemma_lex_order(a, b, c);
    lemma_lex_order(c, b, a);
    lemma_lex_order(b, a, c);
}

/// The three-way outcome of comparing two keys.
#[derive(Clone, Copy, Debug, PartialEq, Eq, Structural)]
pub enum KeyCmp {
    Less,
    Equal,
    Greater,
}

/// Compares two byte strings lexicographically.
pub fn compare_bytes(a: &[u8], b: &[u8]) -> (r: KeyCmp)
    ensures
        r == KeyCmp::Less <==> lex_lt(a@, b@),
        r == KeyCmp::Greater <==> lex_lt(b@, a@),
        r == KeyCmp::Equal <==> a@ == b@,
{
    proof {
        lemma_lex_order(a@, b@, b@);
    }
    let mut i: usize = 0;
    while i < a.len() && i < b.len() && a[i] == b[i]
        invariant
            i <= a@.len(),
            i <= b@.len(),
            forall|j: int| 0 <= j < i ==> a@[j] == b@[j],
            lex_lt(a@, b@) == lex_lt_from(a@, b@, i as nat),
            lex_lt(b@, a@) == lex_lt_from(b@, a@, i as nat),
        decreases a.len() - i,
    {
        i = i + 1;
    }
    if i == a.len() && i == b.len() {
        assert(a@ =~= b@);
        KeyCmp::Equal
    } else if i == a.len() {
        KeyCmp::Less
    } else if i == b.len() {
        KeyCmp::Greater
    } else if a[i] < b[i] {
        KeyCmp::Less
    } else {
        KeyCmp::Greater
    }
}

/// Whether `a` comes strictly before `b` in the walking `order`.
pub fn is_before(a: &[u8], b: &[u8], order: Order) -> (r: bool)
    ensures
        r == key_before(a@, b@, order),
{
    let c = compare_bytes(a, b);
    match order {
        Order::Ascending => c == KeyCmp::Less,
        Order::Descending => c == KeyCmp::Greater,
    }
}

/// Copies a byte slice into a new vector.
pub fn copy_bytes(a: &[u8]) -> (r: Vec<u8>)
    ensures
        r@ == a@,
{
    let mut r: Vec<u8> = Vec::new();
    let mut i: usize = 0;
    while i < a.len()
        invariant
            i <= a@.len(),
            r@ == a@.subrange(0, i as int),
        decreases a.len() - i,
    {
        r.push(a[i]);
        i = i + 1;
    }
    assert(r@ =~= a@);
    r
}

} // verus!
