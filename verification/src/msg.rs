//! The values the chain stores, and the transactions, messages, queries and
//! responses that it exchanges.
use vstd::prelude::*;

use crate::bytemap::StoredValue;
use crate::bytes::copy_bytes;
use crate::hash::{decimal, u64_to_string};
use crate::state::clone_opt_string;

verus! {

/// Tokens: a denomination and an amount.
#[derive(Clone, Debug)]
pub struct Coin {
    pub denom: String,
    pub amount: u128,
}

/// A key-value attribute of an event.
#[derive(Clone, Debug)]
pub struct Attribute {
    pub key: String,
    pub value: String,
}

/// An event emitted while executing a transaction.
#[derive(Clone, Debug)]
pub struct Event {
    pub ty: String,
    pub attributes: Vec<Attribute>,
}

/// The mathematical value of an `Event`.
pub struct EventView {
    pub ty: Seq<char>,
    pub attributes: Seq<(Seq<char>, Seq<char>)>,
}

pub open spec fn attribute_view(a: Attribute) -> (Seq<char>, Seq<char>) {
    (a.key@, a.value@)
}

pub open spec fn attributes_view(s: Seq<Attribute>) -> Seq<(Seq<char>, Seq<char>)> {
    s.map_values(|a: Attribute| attribute_view(a))
}

impl View for Event {
    type V = EventView;

    open spec fn view(&self) -> EventView {
        EventView { ty: self.ty@, attributes: attributes_view(self.attributes@) }
    }
}

pub open spec fn events_view(s: Seq<Event>) -> Seq<EventView> {
    s.map_values(|e: Event| e@)
}

impl Event {
    /// An event of type `ty` without attributes.
    pub fn new(ty: String) -> (e: Self)
        ensures
            e@ == (EventView { ty: ty@, attributes: Seq::empty() }),
    {
        let e = Event { ty, attributes: Vec::new() };
        assert(e@.attributes =~= Seq::<(Seq<char>, Seq<char>)>::empty());
        e
    }

    /// The event with one more attribute at the end.
    pub fn add_attribute(self, key: String, value: String) -> (e: Self)
        ensures
            e@ == (EventView { ty: self@.ty, attributes: self@.attributes.push((key@, value@)) }),
    {
        let mut e = self;
        let ghost a = e.attributes@;
        e.attributes.push(Attribute { key, value });
        assert(attributes_view(e.attributes@) =~= attributes_view(a).push((key@, value@)));
        e
    }

    /// The event with more attributes at the end.
    pub fn add_attributes(self, attrs: Vec<Attribute>) -> (e: Self)
        ensures
            e@ == (EventView { ty: self@.ty, attributes: self@.attributes + attributes_view(attrs@) }),
    {
        let mut e = self;
        let ghost a = e.attributes@;
        let mut rest = attrs;
        let ghost r0 = rest@;
        e.attributes.append(&mut rest);
        assert(attributes_view(e.attributes@) =~= attributes_view(a) + attributes_view(r0));
        e
    }
}

/// Inserts an event at the front of a list of events.
pub fn prepend(event: Event, events: Vec<Event>) -> (r: Vec<Event>)
    ensures
        events_view(r@) == seq![event@] + events_view(events@),
{
    let mut r: Vec<Event> = Vec::new();
    let ghost ev = event@;
    r.push(event);
    let mut rest = events;
    let ghost r0 = rest@;
    r.append(&mut rest);
    assert(events_view(r@) =~= seq![ev] + events_view(r0));
    r
}

/// An attribute whose value is a number in decimal.
pub fn number_text(n: u64) -> (s: String)
    ensures
        s@ == decimal(n as nat),
{
    u64_to_string(n)
}

/// An account stored on chain.
#[derive(Clone, Debug)]
pub struct Account {
    /// The account's secp256k1 public key.
    pub pubkey: Vec<u8>,
    /// The account's sequence number; the first transaction of an account
    /// carries the sequence number 1.
    pub sequence: u64,
}

pub struct AccountView {
    pub pubkey: Seq<u8>,
    pub sequence: u64,
}

impl View for Account {
    type V = AccountView;

    open spec fn view(&self) -> AccountView {
        AccountView { pubkey: self.pubkey@, sequence: self.sequence }
    }
}

impl StoredValue for Account {
    fn duplicate(&self) -> (r: Self) {
        Account { pubkey: copy_bytes(self.pubkey.as_slice()), sequence: self.sequence }
    }
}

/// A wasm byte code stored on chain.
#[derive(Clone, Debug)]
pub struct Code {
    /// The account that stored the code.
    pub creator: String,
    pub wasm_byte_code: Vec<u8>,
}

pub struct CodeView {
    pub creator: Seq<char>,
    pub wasm_byte_code: Seq<u8>,
}

impl View for Code {
    type V = CodeView;

    open spec fn view(&self) -> CodeView {
        CodeView { creator: self.creator@, wasm_byte_code: self.wasm_byte_code@ }
    }
}

impl StoredValue for Code {
    fn duplicate(&self) -> (r: Self) {
        Code { creator: self.creator.clone(), wasm_byte_code: copy_bytes(self.wasm_byte_code.as_slice()) }
    }
}

/// A contract instance stored on chain.
#[derive(Clone, Debug)]
pub struct Contract {
    pub code_id: u64,
    /// A human readable name for the contract.
    pub label: String,
    /// The account allowed to migrate the contract.
    pub admin: Option<String>,
}

pub struct ContractView {
    pub code_id: u64,
    pub label: Seq<char>,
    pub admin: Option<Seq<char>>,
}

pub open spec fn opt_text(o: Option<String>) -> Option<Seq<char>> {
    match o {
        Some(s) => Some(s@),
        None => None,
    }
}

impl View for Contract {
    type V = ContractView;

    open spec fn view(&self) -> ContractView {
        ContractView { code_id: self.code_id, label: self.label@, admin: opt_text(self.admin) }
    }
}

impl StoredValue for Contract {
    fn duplicate(&self) -> (r: Self) {
        Contract { code_id: self.code_id, label: self.label.clone(), admin: clone_opt_string(&self.admin) }
    }
}

/// A message of a transaction.
#[derive(Clone, Debug)]
pub enum SdkMsg {
    StoreCode { wasm_byte_code: Vec<u8> },
    Instantiate {
        code_id: u64,
        msg: Vec<u8>,
        funds: Vec<Coin>,
        label: String,
        admin: Option<String>,
    },
    Execute { contract: String, msg: Vec<u8>, funds: Vec<Coin> },
    Migrate { contract: String, code_id: u64, msg: Vec<u8> },
}

/// The body of a transaction: what the sender signs.
#[derive(Clone, Debug)]
pub struct TxBody {
    pub sender: String,
    pub msgs: Vec<SdkMsg>,
    pub chain_id: String,
    pub sequence: u64,
}

/// A transaction.
#[derive(Clone, Debug)]
pub struct Tx {
    pub body: TxBody,
    /// The sender's secp256k1 public key; optional once the account exists.
    pub pubkey: Option<Vec<u8>>,
    /// The secp256k1 signature of the SHA-256 hash of the serialized body.
    pub signature: Vec<u8>,
}

/// The genesis state: the deployer and the messages run at genesis.
#[derive(Clone, Debug)]
pub struct GenesisState {
    pub deployer: String,
    pub gen_msgs: Vec<SdkMsg>,
}

/// A query.
#[derive(Clone, Debug)]
pub enum SdkQuery {
    Account { address: String },
    Code { code_id: u64 },
    Contract { contract: String },
    WasmRaw { contract: String, key: Vec<u8> },
    WasmSmart { contract: String, msg: Vec<u8> },
}

#[derive(Clone, Debug)]
pub struct AccountResponse {
    /// The account's address.
    pub address: String,
    /// The account's pubkey; empty if no account is found.
    pub pubkey: Vec<u8>,
    /// The account's sequence number; zero if no account is found.
    pub sequence: u64,
}

#[derive(Clone, Debug)]
pub struct CodeResponse {
    /// The account that stored the code.
    pub creator: String,
    /// SHA-256 hash of the wasm byte code.
    pub hash: Vec<u8>,
    pub wasm_byte_code: Vec<u8>,
}

#[derive(Clone, Debug)]
pub struct ContractResponse {
    pub code_id: u64,
    pub label: String,
    pub admin: Option<String>,
}

#[derive(Clone, Debug)]
pub struct WasmRawResponse {
    /// The raw value under the key in the contract's storage, if any.
    pub value: Option<Vec<u8>>,
}

/// What a contract answers: a value or an error message.
#[derive(Clone, Debug)]
pub enum ContractResult {
    Answer(Vec<u8>),
    Failure(String),
}

#[derive(Clone, Debug)]
pub struct WasmSmartResponse {
    pub result: ContractResult,
}

} // verus!
