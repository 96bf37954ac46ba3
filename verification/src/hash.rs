//! Hashing and text encodings of bytes and numbers.
use vstd::prelude::*;

use sha2::{Digest, Sha256};

verus! {

/// The SHA-256 digest of `data`.
pub uninterp spec fn sha256_digest(data: Seq<u8>) -> Seq<u8>;

/// Performs a SHA-256 hash of the given bytes.
///
/// Trusted: calls `sha2::Sha256::digest`; claims that the result is the
/// SHA-256 digest of the input (a function of the input alone, named
/// `sha256_digest`) and is 32 bytes long, as SHA-256 outputs are.
#[verifier::external_body]
pub fn sha256(bytes: &[u8]) -> (r: Vec<u8>)
    ensures
        r@ == sha256_digest(bytes@),
        r@.len() == 32,
{
    Sha256::digest(bytes).to_vec()
}

/// Performs a SHA-256 hash, and truncates the output to the given length.
pub fn sha256_truncate(bytes: &[u8], length: usize) -> (r: Vec<u8>)
    ensures
        r@ == sha256_digest(bytes@).take(if length < 32 { length as int } else { 32 }),
{
    let mut h = sha256(bytes);
    h.truncate(length);
    proof {
        assert(h@ =~= sha256_digest(bytes@).take(if length < 32 { length as int } else { 32 }));
    }
    h
}

/// The lower-case hexadecimal digit for a value below 16.
pub open spec fn hex_digit(n: int) -> char {
    if n < 10 {
        (48 + n) as char
    } else {
        (87 + n) as char
    }
}

/// Lower-case hexadecimal text of a byte string, two digits per byte.
pub open spec fn hex_lower(b: Seq<u8>) -> Seq<char>
    decreases b.len(),
{
    if b.len() == 0 {
        Seq::empty()
    } else {
        seq![hex_digit((b[0] / 16) as int), hex_digit((b[0] % 16) as int)] + hex_lower(b.drop_first())
    }
}

/// Hex-encodes bytes in lower case.
///
/// Trusted: calls `hex::encode`, which writes each byte as two lower-case
/// hexadecimal digits, high nibble first; the contract states exactly that.
#[verifier::external_body]
pub(crate) fn hex_encode(bytes: &[u8]) -> (s: String)
    ensures
        s@ == hex_lower(bytes@),
{
    hex::encode(bytes)
}

/// The decimal digit character for a value below 10.
pub open spec fn decimal_digit(n: int) -> char {
    (48 + n) as char
}

/// Decimal text of a number, without leading zeros.
pub open spec fn decimal(n: nat) -> Seq<char>
    decreases n,
{
    if n < 10 {
        seq![decimal_digit(n as int)]
    } else {
        decimal(n / 10).push(decimal_digit((n % 10) as int))
    }
}

/// Writes a number in decimal.
///
/// Trusted: calls `ToString::to_string` on a `u64`, whose `Display` writes
/// the decimal digits without sign, padding or leading zeros.
#[verifier::external_body]
pub(crate) fn u64_to_string(n: u64) -> (s: String)
    ensures
        s@ == decimal(n as nat),
{
    n.to_string()
}

/// Writes a `usize` in decimal.
///
/// Trusted: calls `ToString::to_string` on a `usize`, whose `Display` writes
/// the decimal digits without sign, padding or leading zeros.
#[verifier::external_body]
pub(crate) fn usize_to_string(n: usize) -> (s: String)
    ensures
        s@ == decimal(n as nat),
{
    n.to_string()
}

/// Writes a 128-bit number in decimal.
///
/// Trusted: calls `ToString::to_string` on a `u128`, whose `Display` writes
/// the decimal digits without sign, padding or leading zeros.
#[verifier::external_body]
pub(crate) fn u128_to_string(n: u128) -> (s: String)
    ensures
        s@ == decimal(n as nat),
{
    n.to_string()
}

/// The big-endian bytes of a number, eight of them.
pub open spec fn be_bytes(n: u64) -> Seq<u8> {
    Seq::new(8, |i: int| ((n as int / pow256(7 - i)) % 256) as u8)
}

/// 256 to the power `e`.
pub open spec fn pow256(e: int) -> int
    decreases e,
{
    if e <= 0 {
        1
    } else {
        256 * pow256(e - 1)
    }
}

/// The big-endian bytes of a number.
///
/// Trusted: calls `u64::to_be_bytes`, whose byte `i` is the number's digit
/// of weight `256^(7-i)`.
#[verifier::external_body]
pub(crate) fn u64_be_bytes(n: u64) -> (r: Vec<u8>)
    ensures
        r@ == be_bytes(n),
{
    n.to_be_bytes().to_vec()
}

} // verus!
