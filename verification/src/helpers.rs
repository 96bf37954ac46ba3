//! Small text helpers and the pieces of the wasm runtime's host interface that
//! are pure rules.
use vstd::prelude::*;

use crate::address::{spec_validate, validate, AddressError};
use crate::hash::{decimal, u128_to_string};
use crate::msg::Coin;
use crate::state::str_to_string;

verus! {

/// The text of a coin: its amount in decimal followed by its denomination.
pub open spec fn coin_text(c: Coin) -> Seq<char> {
    decimal(c.amount as nat) + c.denom@
}

/// Texts joined with commas.
pub open spec fn comma_joined(s: Seq<Seq<char>>) -> Seq<char>
    decreases s.len(),
{
    if s.len() == 0 {
        Seq::empty()
    } else if s.len() == 1 {
        s[0]
    } else {
        comma_joined(s.drop_last()) + seq![','] + s.last()
    }
}

/// The coins written one after the other, separated by commas.
pub fn stringify_coins(coins: &[Coin]) -> (r: String)
    ensures
        r@ == comma_joined(coins@.map_values(|c: Coin| coin_text(c))),
{
    let ghost texts = coins@.map_values(|c: Coin| coin_text(c));
    let mut r = String::new();
    let mut i: usize = 0;
    while i < coins.len()
        invariant
            i <= coins@.len(),
            texts == coins@.map_values(|c: Coin| coin_text(c)),
            r@ == comma_joined(texts.take(i as int)),
        decreases coins.len() - i,
    {
        let ghost before = r@;
        if i > 0 {
            let comma = ",";
            proof {
                reveal_strlit(",");
            }
            r.append(comma);
        }
        let amount = u128_to_string(coins[i].amount);
        r.append(amount.as_str());
        r.append(coins[i].denom.as_str());
        proof {
            assert(texts.take(i + 1).drop_last() =~= texts.take(i as int));
            assert(texts[i as int] == coin_text(coins@[i as int]));
            if i == 0 {
                assert(r@ =~= texts.take(1)[0]);
            } else {
                assert(r@ =~= comma_joined(texts.take(i as int)) + seq![','] + texts.take(i + 1).last());
            }
        }
        i = i + 1;
    }
    assert(texts.take(coins@.len() as int) =~= texts);
    r
}

/// Validates an optional address: none stays none, one must be valid.
pub fn validate_optional_addr(opt: Option<&String>) -> (r: Result<Option<String>, AddressError>)
    ensures
        match opt {
            None => r matches Ok(None),
            Some(a) => match spec_validate(a@) {
                Ok(v) => r matches Ok(Some(x)) && x@ == v,
                Err(e) => r matches Err(x) && x@ == e,
            },
        },
{
    match opt {
        None => Ok(None),
        Some(a) => match validate(a.as_str()) {
            Ok(v) => Ok(Some(v)),
            Err(e) => Err(e),
        },
    }
}

/// The text of an optional value: the value, or `null`.
pub fn stringify_option(opt: Option<String>) -> (r: String)
    ensures
        r@ == match opt {
            Some(s) => s@,
            None => "null"@,
        },
{
    match opt {
        Some(s) => s,
        None => str_to_string("null"),
    }
}

/// Why the wasm runtime refused a contract.
#[derive(Debug)]
pub enum WasmError {
    /// The contract uses a feature that is not implemented yet.
    Unimplemented { feature: String },
}

impl WasmError {
    pub fn unimplemented(feature: String) -> (e: Self)
        ensures
            e matches WasmError::Unimplemented { feature: f } && f@ == feature@,
    {
        WasmError::Unimplemented { feature }
    }

    /// The text of the error.
    pub fn message(&self) -> (s: String)
        ensures
            match self {
                WasmError::Unimplemented { feature } => s@
                    == "contract uses a feature that is not yet implemented: "@ + feature@,
            },
    {
        match self {
            WasmError::Unimplemented { feature } => {
                let mut s = str_to_string("contract uses a feature that is not yet implemented: ");
                s.append(feature.as_str());
                s
            },
        }
    }
}

/// Why the host refused a request of the wasm runtime.
#[derive(Debug)]
pub enum HostError {
    /// A request the contract made was refused (the message).
    UserErr(String),
}

/// Address conversion for the wasm runtime: for now the canonical form of an
/// address is simply its UTF-8 bytes.
#[derive(Clone, Copy, Debug)]
pub struct WasmApi;

impl WasmApi {
    /// The canonical address: the UTF-8 bytes of the text.
    pub fn canonical_address(&self, human: &str) -> (r: Vec<u8>)
        ensures
            r@ == vstd::utf8::encode_utf8(human@),
    {
        crate::bytes::copy_bytes(human.as_bytes())
    }

    /// The human readable address: the text of the bytes, which must be
    /// valid UTF-8.
    pub fn human_address(&self, canonical: &[u8]) -> (r: Result<String, HostError>)
        ensures
            match r {
                Ok(s) => vstd::utf8::encode_utf8(s@) == canonical@,
                Err(HostError::UserErr(m)) => !vstd::utf8::valid_utf8(canonical@) && m@ == "invalid utf8"@,
            },
    {
        match utf8_text(canonical) {
            Some(s) => Ok(s),
            None => Err(HostError::UserErr(str_to_string("invalid utf8"))),
        }
    }
}

/// The text of UTF-8 bytes.
///
/// Trusted: calls `String::from_utf8`, which accepts exactly the valid UTF-8
/// byte strings and keeps their characters.
#[verifier::external_body]
fn utf8_text(bytes: &[u8]) -> (r: Option<String>)
    ensures
        match r {
            Some(s) => vstd::utf8::encode_utf8(s@) == bytes@ && vstd::utf8::valid_utf8(bytes@),
            None => !vstd::utf8::valid_utf8(bytes@),
        },
{
    String::from_utf8(bytes.to_vec()).ok()
}

/// Queries from contracts to the chain, which are not served yet.
#[derive(Debug)]
pub struct WasmQuerier;

impl WasmQuerier {
    /// Every raw query is refused.
    pub fn query_raw(&self, request: &[u8], gas_limit: u64) -> (r: HostError)
        ensures
            r matches HostError::UserErr(m) && m@ == "`querier.query_raw` is not yet implemented"@,
    {
        HostError::UserErr(str_to_string("`querier.query_raw` is not yet implemented"))
    }
}

/// The address conversion of the second state machine, which follows the
/// same rule as [`WasmApi`]: the canonical form is the UTF-8 bytes.
#[derive(Clone, Copy, Debug)]
pub struct BackendApi;

impl BackendApi {
    /// The canonical address: the UTF-8 bytes of the text.
    pub fn canonical_address(&self, human: &str) -> (r: Vec<u8>)
        ensures
            r@ == vstd::utf8::encode_utf8(human@),
    {
        WasmApi.canonical_address(human)
    }

    /// The human readable address: the text of the bytes, which must be
    /// valid UTF-8.
    pub fn human_address(&self, canonical: &[u8]) -> (r: Result<String, HostError>)
        ensures
            match r {
                Ok(s) => vstd::utf8::encode_utf8(s@) == canonical@,
                Err(HostError::UserErr(m)) => !vstd::utf8::valid_utf8(canonical@) && m@ == "invalid utf8"@,
            },
    {
        WasmApi.human_address(canonical)
    }
}

/// The querier of the second state machine: it refuses every raw query, as
/// [`WasmQuerier`] does.
#[derive(Debug)]
pub struct BackendQuerier;

impl BackendQuerier {
    /// Every raw query is refused.
    pub fn query_raw(&self, request: &[u8], gas_limit: u64) -> (r: HostError)
        ensures
            r matches HostError::UserErr(m) && m@ == "`querier.query_raw` is not yet implemented"@,
    {
        WasmQuerier.query_raw(request, gas_limit)
    }
}

/// A marker for the types that hold addresses.
pub trait AddressLike {}

impl AddressLike for String {}

/// The namespace of a contract's keys in the chain's store: `contract`
/// followed by the address text.
pub fn contract_namespace(contract_addr: &String) -> (r: Vec<u8>)
    ensures
        r@ == vstd::utf8::encode_utf8("contract"@) + vstd::utf8::encode_utf8(contract_addr@),
{
    crate::prefix::concat("contract".as_bytes(), contract_addr.as_str().as_bytes())
}

/// The number of items a page holds when no limit is given.
pub const DEFAULT_LIMIT: u32 = 10;

/// The most items a page holds.
pub const MAX_LIMIT: u32 = 30;

/// The number of items on a page: the limit asked for (ten by default), at
/// most thirty.
pub fn page_limit(limit: Option<u32>) -> (n: usize)
    ensures
        n == match limit {
            Some(l) => if l < 30 { l as int } else { 30 },
            None => 10,
        },
{
    let l = match limit {
        Some(l) => l,
        None => DEFAULT_LIMIT,
    };
    if l < MAX_LIMIT {
        l as usize
    } else {
        MAX_LIMIT as usize
    }
}

} // verus!
