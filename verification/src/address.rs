//! Account addresses: bech32 text with the `cw` prefix over 32 bytes, and
//! their derivation from public keys, labels and ids.
use vstd::prelude::*;

use crate::codec::{
    base32_to_bytes, bech32_decode, bech32_decoding, bech32_encode, bech32_encoding,
    bytes_to_base32, from_base32, no_upper_ascii, to_base32, valid_hrp, Variant,
};
use crate::hash::{be_bytes, decimal, sha256, sha256_digest, u64_be_bytes, usize_to_string};
use crate::state::str_to_string;
use crate::prefix::concat;
use vstd::utf8::encode_utf8;

verus! {

/// The length in bytes of an address (ADR-028).
pub const ADDRESS_LENGTH: usize = 32;

/// The human-readable prefix of addresses.
pub open spec fn address_prefix() -> Seq<char> {
    seq!['c', 'w']
}

/// The public key scheme of basic accounts.
pub open spec fn pubkey_type() -> Seq<char> {
    "cosmos.crypto.secp256k1.PubKey"@
}

/// Why an address was refused.
#[derive(Debug)]
pub enum AddressError {
    Bech32(bech32::Error),
    IncorrectVariant,
    IncorrectPrefix { expect: String, found: String },
    IncorrectLength { expect: usize, found: usize },
    RecoveredMismatch { input: String, recovered: String },
}

/// The mathematical value of an `AddressError` (the bech32 cause is left
/// out).
pub enum AddressErrorView {
    Bech32,
    IncorrectVariant,
    IncorrectPrefix { expect: Seq<char>, found: Seq<char> },
    IncorrectLength { expect: nat, found: nat },
    RecoveredMismatch { input: Seq<char>, recovered: Seq<char> },
}

impl View for AddressError {
    type V = AddressErrorView;

    open spec fn view(&self) -> AddressErrorView {
        match self {
            AddressError::Bech32(_) => AddressErrorView::Bech32,
            AddressError::IncorrectVariant => AddressErrorView::IncorrectVariant,
            AddressError::IncorrectPrefix { expect, found } => AddressErrorView::IncorrectPrefix {
                expect: expect@,
                found: found@,
            },
            AddressError::IncorrectLength { expect, found } => AddressErrorView::IncorrectLength {
                expect: *expect as nat,
                found: *found as nat,
            },
            AddressError::RecoveredMismatch { input, recovered } =>
                AddressErrorView::RecoveredMismatch { input: input@, recovered: recovered@ },
        }
    }
}

impl AddressError {
    /// The prefix was not `cw`.
    pub fn incorrect_prefix(found: String) -> (e: Self)
        ensures
            e@ == (AddressErrorView::IncorrectPrefix { expect: address_prefix(), found: found@ }),
    {
        let expect = prefix_string();
        AddressError::IncorrectPrefix { expect, found }
    }

    /// The address bytes did not number 32.
    pub fn incorrect_length(found: usize) -> (e: Self)
        ensures
            e@ == (AddressErrorView::IncorrectLength { expect: 32, found: found as nat }),
    {
        AddressError::IncorrectLength { expect: ADDRESS_LENGTH, found }
    }

    /// The address did not survive a round trip.
    pub fn recovered_mismatch(input: String, recovered: String) -> (e: Self)
        ensures
            e@ == (AddressErrorView::RecoveredMismatch { input: input@, recovered: recovered@ }),
    {
        AddressError::RecoveredMismatch { input, recovered }
    }

    /// The text of the error. That of a bech32 error is the bech32 library's
    /// own text, of which nothing is stated.
    pub fn message(&self) -> (s: String)
        ensures
            self@ !is Bech32 ==> s@ == address_error_text(self@),
    {
        match self {
            AddressError::Bech32(e) => bech32_error_text(e),
            AddressError::IncorrectVariant => str_to_string(
                "incorrect address variant: expecting bech32, found bech32m",
            ),
            AddressError::IncorrectPrefix { expect, found } => {
                let mut s = str_to_string("incorrect address prefix: expecting ");
                s.append(expect.as_str());
                s.append(", found ");
                s.append(found.as_str());
                s
            },
            AddressError::IncorrectLength { expect, found } => {
                let mut s = str_to_string("incorrect address length: expecting ");
                s.append(usize_to_string(*expect).as_str());
                s.append(" bytes, found ");
                s.append(usize_to_string(*found).as_str());
                s
            },
            AddressError::RecoveredMismatch { input, recovered } => {
                let mut s = str_to_string("address verification failed: input ");
                s.append(input.as_str());
                s.append(", recovered ");
                s.append(recovered.as_str());
                s
            },
        }
    }
}

/// The text of an address error other than a bech32 one.
pub open spec fn address_error_text(e: AddressErrorView) -> Seq<char> {
    match e {
        AddressErrorView::Bech32 => Seq::empty(),
        AddressErrorView::IncorrectVariant => "incorrect address variant: expecting bech32, found bech32m"@,
        AddressErrorView::IncorrectPrefix { expect, found } => "incorrect address prefix: expecting "@
            + expect + ", found "@ + found,
        AddressErrorView::IncorrectLength { expect, found } => "incorrect address length: expecting "@
            + decimal(expect) + " bytes, found "@ + decimal(found),
        AddressErrorView::RecoveredMismatch { input, recovered } =>
            "address verification failed: input "@ + input + ", recovered "@ + recovered,
    }
}

/// The text of a bech32 error.
///
/// Trusted: formats the error with its `Display` impl; nothing is claimed of
/// the text.
#[verifier::external_body]
fn bech32_error_text(e: &bech32::Error) -> String {
    format!("{}", e)
}

fn prefix_string() -> (s: String)
    ensures
        s@ == address_prefix(),
{
    let s = "cw".to_owned();
    proof {
        reveal_strlit("cw");
        assert(s@ =~= address_prefix());
    }
    s
}

/// What `canonicalize` gives for the text `human`.
pub open spec fn spec_canonicalize(human: Seq<char>) -> Result<Seq<u8>, AddressErrorView> {
    match bech32_decoding(human) {
        None => Err(AddressErrorView::Bech32),
        Some((prefix, data, variant)) => match base32_to_bytes(data) {
            None => Err(AddressErrorView::Bech32),
            Some(bytes) => if variant != Variant::Bech32 {
                Err(AddressErrorView::IncorrectVariant)
            } else if prefix != address_prefix() {
                Err(AddressErrorView::IncorrectPrefix { expect: address_prefix(), found: prefix })
            } else if bytes.len() != 32 {
                Err(AddressErrorView::IncorrectLength { expect: 32, found: bytes.len() })
            } else {
                Ok(bytes)
            },
        },
    }
}

/// Canonical addresses are 32 bytes long: text canonicalizes only when it is
/// plain bech32 under the `cw` prefix whose data spell exactly 32 bytes, and
/// the bytes it gives are those.
pub proof fn law_canonical_address_is_32_bytes(human: Seq<char>)
    requires
        spec_canonicalize(human) is Ok,
    ensures
        spec_canonicalize(human)->Ok_0.len() == 32,
        bech32_decoding(human) matches Some((prefix, data, variant)) && prefix == seq!['c', 'w']
            && variant == Variant::Bech32 && base32_to_bytes(data) == Some(
            spec_canonicalize(human)->Ok_0,
        ),
{
}

/// Plain bech32 text under the `cw` prefix whose data spell a number of bytes
/// other than 32, fewer or more, is refused with the length it has.
pub proof fn law_wrong_length_refused(human: Seq<char>, data: Seq<u8>, bytes: Seq<u8>)
    requires
        bech32_decoding(human) == Some((seq!['c', 'w'], data, Variant::Bech32)),
        base32_to_bytes(data) == Some(bytes),
        bytes.len() != 32,
    ensures
        spec_canonicalize(human) == Err::<Seq<u8>, AddressErrorView>(
            AddressErrorView::IncorrectLength { expect: 32, found: bytes.len() },
        ),
        spec_validate(human) is Err,
{
}

/// A valid address stands for 32 bytes, and encoding those bytes gives the
/// address back.
pub proof fn law_valid_address_is_32_bytes(input: Seq<char>)
    requires
        spec_validate(input) is Ok,
    ensures
        spec_canonicalize(input) is Ok,
        spec_canonicalize(input)->Ok_0.len() == 32,
        spec_humanize(spec_canonicalize(input)->Ok_0) == Ok::<Seq<char>, AddressErrorView>(input),
        spec_validate(input) == Ok::<Seq<char>, AddressErrorView>(input),
{
}

/// What `humanize` gives for the address bytes `canonical`.
pub open spec fn spec_humanize(canonical: Seq<u8>) -> Result<Seq<char>, AddressErrorView> {
    match bech32_encoding(address_prefix(), bytes_to_base32(canonical), Variant::Bech32) {
        Some(s) => Ok(s),
        None => Err(AddressErrorView::Bech32),
    }
}

/// What `validate` gives for the text `input`.
pub open spec fn spec_validate(input: Seq<char>) -> Result<Seq<char>, AddressErrorView> {
    match spec_canonicalize(input) {
        Err(e) => Err(e),
        Ok(c) => match spec_humanize(c) {
            Err(e) => Err(e),
            Ok(h) => if input == h {
                Ok(h)
            } else {
                Err(AddressErrorView::RecoveredMismatch { input, recovered: h })
            },
        },
    }
}

pub open spec fn bytes_result_view(r: Result<Vec<u8>, AddressError>) -> Result<
    Seq<u8>,
    AddressErrorView,
> {
    match r {
        Ok(v) => Ok(v@),
        Err(e) => Err(e@),
    }
}

pub open spec fn text_result_view(r: Result<String, AddressError>) -> Result<
    Seq<char>,
    AddressErrorView,
> {
    match r {
        Ok(v) => Ok(v@),
        Err(e) => Err(e@),
    }
}

/// Takes a human readable address and returns its canonical bytes.
pub fn canonicalize(human: &str) -> (r: Result<Vec<u8>, AddressError>)
    ensures
        bytes_result_view(r) == spec_canonicalize(human@),
{
    let (prefix, data, variant) = match bech32_decode(human) {
        Ok(t) => t,
        Err(e) => return Err(AddressError::Bech32(e)),
    };
    let addr_bytes = match from_base32(data.as_slice()) {
        Ok(b) => b,
        Err(e) => return Err(AddressError::Bech32(e)),
    };
    let addr_len = addr_bytes.len();
    let expected_prefix = prefix_string();
    if variant != Variant::Bech32 {
        Err(AddressError::IncorrectVariant)
    } else if prefix != expected_prefix {
        Err(AddressError::incorrect_prefix(prefix))
    } else if addr_len != ADDRESS_LENGTH {
        Err(AddressError::incorrect_length(addr_len))
    } else {
        Ok(addr_bytes)
    }
}

/// Takes canonical address bytes and returns the human readable address
/// (encoding under `cw` always succeeds). An
/// address made from 32 bytes is valid: canonicalizing it gives the bytes
/// back, and validating it gives it back.
pub fn humanize(canonical: &[u8]) -> (r: Result<String, AddressError>)
    ensures
        r is Ok,
        text_result_view(r) == spec_humanize(canonical@),
        r matches Ok(h) ==> (canonical@.len() == 32 ==> spec_canonicalize(h@) == Ok::<
            Seq<u8>,
            AddressErrorView,
        >(canonical@) && spec_validate(h@) == Ok::<Seq<char>, AddressErrorView>(h@)),
{
    let data = to_base32(canonical);
    let hrp = "cw";
    proof {
        reveal_strlit("cw");
        assert(hrp@ =~= address_prefix());
        assert(no_upper_ascii(hrp@));
        assert(valid_hrp(hrp@));
    }
    match bech32_encode(hrp, data.as_slice(), Variant::Bech32) {
        Ok(s) => Ok(s),
        Err(e) => Err(AddressError::Bech32(e)),
    }
}

/// Validates a human readable address: it must decode, and encode back to
/// exactly the same text. The address is handed back.
pub fn validate(input: &str) -> (r: Result<String, AddressError>)
    ensures
        text_result_view(r) == spec_validate(input@),
        r matches Ok(a) ==> a@ == input@,
{
    let canonical = canonicalize(input)?;
    let human = humanize(canonical.as_slice())?;
    let input_string = input.to_owned();
    if input_string == human {
        Ok(human)
    } else {
        Err(AddressError::recovered_mismatch(input_string, human))
    }
}

/// The address whose bytes are the first 32 bytes of the SHA-256 digest of
/// `preimage`.
pub open spec fn spec_humanize_prehash(preimage: Seq<u8>) -> Result<Seq<char>, AddressErrorView> {
    spec_humanize(sha256_digest(preimage).take(32))
}

/// Takes the hash, truncates it to the standard length, and humanizes.
fn humanize_prehash(preimage: &[u8]) -> (r: Result<String, AddressError>)
    ensures
        r is Ok,
        text_result_view(r) == spec_humanize_prehash(preimage@),
        r matches Ok(a) ==> spec_validate(a@) == Ok::<Seq<char>, AddressErrorView>(a@),
{
    let mut bytes = sha256(preimage);
    bytes.truncate(ADDRESS_LENGTH);
    proof {
        assert(bytes@ =~= sha256_digest(preimage@).take(32));
    }
    humanize(bytes.as_slice())
}

/// Derives an account address from a public key (a valid address):
/// `sha256(PUBKEY_TYPE | sha256(pubkey_bytes))[:32]`.
pub fn derive_from_pubkey(pubkey_bytes: &[u8]) -> (r: Result<String, AddressError>)
    ensures
        r is Ok,
        text_result_view(r) == spec_humanize_prehash(
            encode_utf8(pubkey_type()) + sha256_digest(pubkey_bytes@),
        ),
        r matches Ok(a) ==> spec_validate(a@) == Ok::<Seq<char>, AddressErrorView>(a@),
{
    let t = "cosmos.crypto.secp256k1.PubKey";
    let h = sha256(pubkey_bytes);
    let bytes = concat(t.as_bytes(), h.as_slice());
    humanize_prehash(bytes.as_slice())
}

/// Derives a contract address (a valid one) from a label: `sha256("label" | label)[:32]`.
pub fn derive_from_label(label: &str) -> (r: Result<String, AddressError>)
    ensures
        r is Ok,
        text_result_view(r) == spec_humanize_prehash(
            encode_utf8("label"@) + encode_utf8(label@),
        ),
        r matches Ok(a) ==> spec_validate(a@) == Ok::<Seq<char>, AddressErrorView>(a@),
{
    let t = "label";
    let bytes = concat(t.as_bytes(), label.as_bytes());
    humanize_prehash(bytes.as_slice())
}

/// Derives a contract address (a valid one) from a code id and an instance id:
/// `sha256(code_id | instance_id)[:32]`, both as 8 big-endian bytes.
pub fn derive_from_ids(code_id: u64, instance_id: u64) -> (r: Result<String, AddressError>)
    ensures
        r is Ok,
        text_result_view(r) == spec_humanize_prehash(be_bytes(code_id) + be_bytes(instance_id)),
        r matches Ok(a) ==> spec_validate(a@) == Ok::<Seq<char>, AddressErrorView>(a@),
{
    let a = u64_be_bytes(code_id);
    let b = u64_be_bytes(instance_id);
    let bytes = concat(a.as_slice(), b.as_slice());
    humanize_prehash(bytes.as_slice())
}

} // verus!
