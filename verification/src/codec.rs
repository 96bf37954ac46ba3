//! Bech32 text: decoding it into a prefix and 5-bit data, regrouping 5-bit
//! data into bytes and back, and encoding it.
use vstd::prelude::*;

use bech32::{FromBase32, ToBase32};

verus! {

/// The checksum flavour of a bech32 string.
#[derive(Clone, Copy, Debug, PartialEq, Eq, Structural)]
pub enum Variant {
    /// BIP-0173.
    Bech32,
    /// BIP-0350.
    Bech32m,
}

/// Why bech32 text or data was refused.
#[verifier::external_type_specification]
#[verifier::external_body]
pub struct ExBech32Error(bech32::Error);

/// What decoding the text `s` gives: the lower-cased prefix, the 5-bit data
/// with the checksum removed, and the checksum flavour; `None` when the text
/// is refused.
pub uninterp spec fn bech32_decoding(s: Seq<char>) -> Option<(Seq<char>, Seq<u8>, Variant)>;

/// Regrouping 5-bit values into bytes (padding bits must be zero); `None`
/// when the padding is refused.
pub uninterp spec fn base32_to_bytes(data: Seq<u8>) -> Option<Seq<u8>>;

/// Regrouping bytes into 5-bit values, zero-padded.
pub uninterp spec fn bytes_to_base32(data: Seq<u8>) -> Seq<u8>;

/// What encoding the prefix and 5-bit data with a checksum gives; `None`
/// when the prefix is refused.
pub uninterp spec fn bech32_encoding(hrp: Seq<char>, data: Seq<u8>, variant: Variant) -> Option<
    Seq<char>,
>;

/// No character is an upper-case ASCII letter.
pub open spec fn no_upper_ascii(s: Seq<char>) -> bool {
    forall|i: int| 0 <= i < s.len() ==> !('A' <= #[trigger] s[i] && s[i] <= 'Z')
}

/// A prefix that bech32 text can carry: 1 to 83 printable ASCII characters
/// (`!` to `~`), not mixing lower- and upper-case letters.
pub open spec fn valid_hrp(hrp: Seq<char>) -> bool {
    &&& 1 <= hrp.len() <= 83
    &&& forall|i: int| 0 <= i < hrp.len() ==> '!' <= #[trigger] hrp[i] && hrp[i] <= '~'
    &&& !((exists|i: int| 0 <= i < hrp.len() && 'a' <= #[trigger] hrp[i] && hrp[i] <= 'z') && (exists|
        j: int,
    | 0 <= j < hrp.len() && 'A' <= #[trigger] hrp[j] && hrp[j] <= 'Z'))
}

/// All values fit in 5 bits.
pub open spec fn all_five_bit(d: Seq<u8>) -> bool {
    forall|i: int| 0 <= i < d.len() ==> d[i] < 32
}

pub open spec fn decode_view(r: Result<(String, Vec<u8>, Variant), bech32::Error>) -> Option<
    (Seq<char>, Seq<u8>, Variant),
> {
    match r {
        Ok((h, d, v)) => Some((h@, d@, v)),
        Err(_) => None,
    }
}

/// Decodes bech32 text.
///
/// Trusted: calls `bech32::decode`. Claims that whether it succeeds, and what
/// it gives, is a function of the text alone (named `bech32_decoding`), and
/// that every data value fits in 5 bits (the crate hands them out as `u5`).
/// Which error comes back on a refusal is not stated.
#[verifier::external_body]
pub(crate) fn bech32_decode(s: &str) -> (r: Result<(String, Vec<u8>, Variant), bech32::Error>)
    ensures
        decode_view(r) == bech32_decoding(s@),
        r matches Ok((_, d, _)) ==> all_five_bit(d@),
{
    let (hrp, data, variant) = bech32::decode(s)?;
    let data: Vec<u8> = data.into_iter().map(|x| x.to_u8()).collect();
    let variant = match variant {
        bech32::Variant::Bech32 => Variant::Bech32,
        bech32::Variant::Bech32m => Variant::Bech32m,
    };
    Ok((hrp, data, variant))
}

/// Regroups 5-bit values into bytes.
///
/// Trusted: calls `Vec::<u8>::from_base32`. Claims that whether it succeeds,
/// and what it gives, is a function of the values alone (named
/// `base32_to_bytes`). Which error comes back on a refusal is not stated.
#[verifier::external_body]
pub(crate) fn from_base32(data: &[u8]) -> (r: Result<Vec<u8>, bech32::Error>)
    requires
        all_five_bit(data@),
    ensures
        match r {
            Ok(b) => base32_to_bytes(data@) == Some(b@),
            Err(_) => base32_to_bytes(data@) is None,
        },
{
    let five: Vec<bech32::u5> = data.iter().map(|x| bech32::u5::try_from_u8(*x).unwrap()).collect();
    Vec::<u8>::from_base32(&five)
}

/// Regroups bytes into 5-bit values.
///
/// Trusted: calls `ToBase32::to_base32` on a byte slice. Claims that the
/// result is a function of the bytes alone (named `bytes_to_base32`), that
/// every value fits in 5 bits, and that regrouping the result back into bytes
/// gives the input: the source pads the last group with fewer than five zero
/// bits, which `Vec::<u8>::from_base32` accepts and drops.
#[verifier::external_body]
pub(crate) fn to_base32(data: &[u8]) -> (r: Vec<u8>)
    ensures
        r@ == bytes_to_base32(data@),
        all_five_bit(r@),
        base32_to_bytes(r@) == Some(data@),
{
    data.to_base32().into_iter().map(|x| x.to_u8()).collect()
}

/// Encodes a prefix and 5-bit data as bech32 text.
///
/// Trusted: calls `bech32::encode`. Claims that whether it succeeds, and what
/// it gives, is a function of the prefix, the data and the flavour alone
/// (named `bech32_encoding`), and that decoding the text gives the prefix,
/// the data and the flavour back when the prefix has no upper-case letter:
/// the source writes the prefix, the separator `1` (absent from the data
/// alphabet, so `bech32::decode` splits there) and lower-case data followed
/// by the checksum of the flavour, which `bech32::decode` verifies and strips.
/// It fails exactly when the prefix is refused (the source's `check_hrp`:
/// empty or longer than 83 bytes, a byte outside `!`..`~`, or mixed case);
/// writing to a `String` cannot fail. Which error comes back on a refusal is
/// not stated.
#[verifier::external_body]
pub(crate) fn bech32_encode(hrp: &str, data: &[u8], variant: Variant) -> (r: Result<String, bech32::Error>)
    requires
        all_five_bit(data@),
    ensures
        match r {
            Ok(s) => bech32_encoding(hrp@, data@, variant) == Some(s@),
            Err(_) => bech32_encoding(hrp@, data@, variant) is None,
        },
        r matches Ok(s) ==> (no_upper_ascii(hrp@) ==> bech32_decoding(s@) == Some((hrp@, data@, variant))),
        r is Ok <==> valid_hrp(hrp@),
{
    let five: Vec<bech32::u5> = data.iter().map(|x| bech32::u5::try_from_u8(*x).unwrap()).collect();
    let v = match variant {
        Variant::Bech32 => bech32::Variant::Bech32,
        Variant::Bech32m => bech32::Variant::Bech32m,
    };
    bech32::encode(hrp, five, v)
}

} // verus!
