//! The application state of the chain: accounts, wasm codes, contracts and
//! their storages, and the rules by which transactions and queries read and
//! change it.
use vstd::prelude::*;

use std::collections::HashMap;

use crate::address::{
    address_error_text, derive_from_ids, derive_from_label, spec_humanize_prehash, spec_validate, validate,
    AddressError, AddressErrorView,
};
use crate::auth::{auth_error_text, authenticate_tx, sequence_overflows, signature_holds, sender_sequence_fits, spec_check_tx, AuthError, AuthErrorView};
use crate::bytemap::StoredValue;
use crate::bytes::copy_bytes;
use crate::hash::{be_bytes, decimal, hex_lower, sha256, sha256_digest, u64_be_bytes};
use crate::msg::{
    attributes_view, events_view, number_text, opt_text, prepend, Account, AccountResponse,
    AccountView, Attribute, Code, CodeResponse, CodeView, Coin, Contract, ContractResponse,
    ContractView, Event, EventView, GenesisState, SdkMsg, SdkQuery, Tx, WasmRawResponse,
};
use vstd::utf8::encode_utf8;
use crate::storage::WasmStorage;
use crate::strmap::StrMap;

verus! {

broadcast use vstd::std_specs::hash::group_hash_axioms;

/// Why a transaction, a message or a query failed.
#[derive(Debug)]
pub enum StateError {
    /// The storage backend of the wasm runtime failed (its message).
    Backend(String),
    /// The wasm runtime failed (its message).
    Vm(String),
    /// Bytes could not be read as, or written from, a value (the message).
    Serde(String),
    Address(AddressError),
    Auth(AuthError),
    /// The contract answered with an error.
    Contract(String),
    AccountNotFound { address: String },
    /// An account or a contract already sits at the address of a new
    /// contract.
    AccountFound { address: String },
    CodeNotFound { code_id: u64 },
    ContractNotFound { address: String },
    SubmessagesUnsupported,
    FundsUnsupported,
    MigrationUnsupported,
}

impl StateError {
    pub fn account_not_found(address: String) -> (e: Self)
        ensures
            e matches StateError::AccountNotFound { address: a } && a@ == address@,
    {
        StateError::AccountNotFound { address }
    }

    pub fn account_found(address: String) -> (e: Self)
        ensures
            e matches StateError::AccountFound { address: a } && a@ == address@,
    {
        StateError::AccountFound { address }
    }

    pub fn code_not_found(code_id: u64) -> (e: Self)
        ensures
            e matches StateError::CodeNotFound { code_id: c } && c == code_id,
    {
        StateError::CodeNotFound { code_id }
    }

    pub fn contract_not_found(address: String) -> (e: Self)
        ensures
            e matches StateError::ContractNotFound { address: a } && a@ == address@,
    {
        StateError::ContractNotFound { address }
    }

    /// The text of the error. The texts of the wasm runtime's, the storage
    /// backend's and the (de)serializer's errors are handed through; that of
    /// a bech32 or secp256k1 error is the outside library's own text, of
    /// which nothing is stated.
    pub fn message(&self) -> (s: String)
        ensures
            state_error_text(self) matches Some(t) ==> s@ == t,
    {
        match self {
            StateError::Backend(m) => m.clone(),
            StateError::Vm(m) => m.clone(),
            StateError::Serde(m) => m.clone(),
            StateError::Address(e) => e.message(),
            StateError::Auth(e) => e.message(),
            StateError::Contract(m) => {
                let mut s = str_to_string("contract emitted error: ");
                s.append(m.as_str());
                s
            },
            StateError::AccountNotFound { address } => {
                let mut s = str_to_string("no account found with address ");
                s.append(address.as_str());
                s
            },
            StateError::AccountFound { address } => {
                let mut s = str_to_string("an account already exists at address ");
                s.append(address.as_str());
                s
            },
            StateError::CodeNotFound { code_id } => {
                let mut s = str_to_string("no wasm binary code found with id ");
                s.append(number_text(*code_id).as_str());
                s
            },
            StateError::ContractNotFound { address } => {
                let mut s = str_to_string("no contract found with address ");
                s.append(address.as_str());
                s
            },
            StateError::SubmessagesUnsupported => str_to_string(
                "contract response includes submessages, which is not supported yet",
            ),
            StateError::FundsUnsupported => str_to_string(
                "sending funds when instantiating or executing contracts is not supported yet",
            ),
            StateError::MigrationUnsupported => str_to_string(
                "migrating contracts is not supported yet",
            ),
        }
    }
}

/// The text of a state error, where this library writes it (not for a bech32
/// or secp256k1 error inside an address or authentication error).
pub open spec fn state_error_text(e: &StateError) -> Option<Seq<char>> {
    match e {
        StateError::Backend(m) => Some(m@),
        StateError::Vm(m) => Some(m@),
        StateError::Serde(m) => Some(m@),
        StateError::Address(a) => if a@ is Bech32 {
            None
        } else {
            Some(address_error_text(a@))
        },
        StateError::Auth(a) => auth_error_text(a@),
        StateError::Contract(m) => Some("contract emitted error: "@ + m@),
        StateError::AccountNotFound { address } => Some("no account found with address "@ + address@),
        StateError::AccountFound { address } => Some("an account already exists at address "@ + address@),
        StateError::CodeNotFound { code_id } => Some(
            "no wasm binary code found with id "@ + decimal(*code_id as nat),
        ),
        StateError::ContractNotFound { address } => Some("no contract found with address "@ + address@),
        StateError::SubmessagesUnsupported => Some(
            "contract response includes submessages, which is not supported yet"@,
        ),
        StateError::FundsUnsupported => Some(
            "sending funds when instantiating or executing contracts is not supported yet"@,
        ),
        StateError::MigrationUnsupported => Some("migrating contracts is not supported yet"@),
    }
}

/// The application state.
#[derive(Debug)]
pub struct State {
    /// Identifier of the chain.
    chain_id: String,
    /// Current block height.
    height: u64,
    /// The number of wasm byte codes stored.
    code_count: u64,
    /// The number of contracts instantiated.
    contract_count: u64,
    accounts: StrMap<Account>,
    codes: HashMap<u64, Code>,
    contracts: StrMap<Contract>,
    stores: StrMap<WasmStorage>,
}

impl State {
    /// The chain id.
    pub closed spec fn spec_chain_id(&self) -> Seq<char> {
        self.chain_id@
    }

    /// The block height.
    pub closed spec fn spec_height(&self) -> u64 {
        self.height
    }

    /// The number of codes stored so far.
    pub closed spec fn spec_code_count(&self) -> u64 {
        self.code_count
    }

    /// The number of contracts instantiated so far.
    pub closed spec fn spec_contract_count(&self) -> u64 {
        self.contract_count
    }

    /// The chain id.
    pub fn chain_id(&self) -> (r: &String)
        ensures
            r@ == self.spec_chain_id(),
    {
        &self.chain_id
    }

    /// Sets the chain id.
    pub fn set_chain_id(&mut self, chain_id: String)
        ensures
            final(self).spec_chain_id() == chain_id@,
            final(self).spec_height() == old(self).spec_height(),
            final(self).spec_code_count() == old(self).spec_code_count(),
            final(self).spec_contract_count() == old(self).spec_contract_count(),
            forall|a: Seq<char>| #[trigger] final(self).spec_account(a) == old(self).spec_account(a),
            forall|id: u64| #[trigger] final(self).spec_code(id) == old(self).spec_code(id),
            forall|a: Seq<char>| #[trigger] final(self).spec_contract(a) == old(self).spec_contract(a),
            forall|a: Seq<char>| #[trigger] final(self).spec_store(a) == old(self).spec_store(a),
            old(self).wf() ==> final(self).wf(),
    {
        self.chain_id = chain_id;
        proof {
            if old(self).wf() {
                old(self).lemma_wf_frame(*self);
            }
        }
    }

    /// The block height.
    pub fn height(&self) -> (r: u64)
        ensures
            r == self.spec_height(),
    {
        self.height
    }

    /// The number of codes stored so far.
    pub fn code_count(&self) -> (r: u64)
        ensures
            r == self.spec_code_count(),
    {
        self.code_count
    }

    /// The number of contracts instantiated so far.
    pub fn contract_count(&self) -> (r: u64)
        ensures
            r == self.spec_contract_count(),
    {
        self.contract_count
    }

    /// The account at `address`.
    pub closed spec fn spec_account(&self, address: Seq<char>) -> Option<AccountView> {
        match self.accounts.spec_get(address) {
            Some(a) => Some(a@),
            None => None,
        }
    }

    /// The code with id `code_id`.
    pub closed spec fn spec_code(&self, code_id: u64) -> Option<CodeView> {
        if self.codes@.contains_key(code_id) {
            Some(self.codes@[code_id]@)
        } else {
            None
        }
    }

    /// The contract at `address`.
    pub closed spec fn spec_contract(&self, address: Seq<char>) -> Option<ContractView> {
        match self.contracts.spec_get(address) {
            Some(c) => Some(c@),
            None => None,
        }
    }

    /// The storage of the contract at `address`.
    pub closed spec fn spec_store(&self, address: Seq<char>) -> Option<WasmStorage> {
        self.stores.spec_get(address)
    }

    /// The maps are well formed; the codes carry the ids 1 to the code count;
    /// every storage belongs to a contract, and every contract's code is
    /// stored.
    pub closed spec fn wf(&self) -> bool {
        &&& forall|id: u64| #[trigger] self.codes@.contains_key(id) <==> 1 <= id <= self.code_count
        &&& self.accounts.wf()
        &&& self.contracts.wf()
        &&& self.stores.wf()
        &&& forall|a: Seq<char>| #[trigger] self.spec_store(a) is Some ==> self.spec_store(a)->0.wf() && self.spec_contract(a) is Some
        &&& forall|a: Seq<char>| #[trigger] self.spec_contract(a) is Some ==> self.spec_code(self.spec_contract(a)->0.code_id) is Some
    }

    /// `wf` only depends on the maps: a state with the same maps (and
    /// well-formed string maps) is well formed too.
    proof fn lemma_wf_frame(&self, other: State)
        requires
            self.wf(),
            other.accounts.wf(),
            other.codes == self.codes,
            other.code_count == self.code_count,
            other.contracts == self.contracts,
            other.stores == self.stores,
        ensures
            other.wf(),
    {
        assert forall|a: Seq<char>| #[trigger] other.spec_store(a) is Some implies other.spec_store(a)->0.wf()
            && other.spec_contract(a) is Some by {
            assert(self.spec_store(a) is Some);
        }
        assert forall|a: Seq<char>| #[trigger] other.spec_contract(a) is Some implies other.spec_code(
            other.spec_contract(a)->0.code_id,
        ) is Some by {
            assert(self.spec_contract(a) is Some);
        }
    }

    /// A copy of the state: the same chain id, height, counters, accounts,
    /// codes and contracts, and storages with the same records and
    /// iterators.
    pub fn duplicate(&self) -> (r: State)
        requires
            self.wf(),
        ensures
            r.wf(),
            same_views(&r, self),
    {
        let mut codes: HashMap<u64, Code> = HashMap::new();
        let mut i: u64 = 0;
        while i < self.code_count
            invariant
                i <= self.code_count,
                forall|id: u64| #[trigger] self.codes@.contains_key(id) <==> 1 <= id <= self.code_count,
                forall|id: u64| #[trigger] codes@.contains_key(id) <==> 1 <= id <= i,
                forall|id: u64| #[trigger] codes@.contains_key(id) ==> codes@[id]@ == self.codes@[id]@,
            decreases self.code_count - i,
        {
            let id = i + 1;
            match self.codes.get(&id) {
                Some(c) => {
                    codes.insert(id, c.duplicate());
                },
                None => {
                    assert(false);
                },
            }
            i = id;
        }
        let r = State {
            chain_id: self.chain_id.clone(),
            height: self.height,
            code_count: self.code_count,
            contract_count: self.contract_count,
            accounts: self.accounts.duplicate(),
            codes,
            contracts: self.contracts.duplicate(),
            stores: self.stores.duplicate(),
        };
        proof {
            assert forall|a: Seq<char>| #[trigger] r.spec_account(a) == self.spec_account(a) by {
                if r.accounts.spec_get(a) is Some {
                    assert(r.accounts.spec_get(a)->0@ == self.accounts.spec_get(a)->0@);
                }
            }
            assert forall|a: Seq<char>| #[trigger] r.spec_contract(a) == self.spec_contract(a) by {
                if r.contracts.spec_get(a) is Some {
                    assert(r.contracts.spec_get(a)->0@ == self.contracts.spec_get(a)->0@);
                }
            }
            assert forall|id: u64| #[trigger] r.spec_code(id) == self.spec_code(id) by {
                if r.codes@.contains_key(id) {
                    assert(r.codes@[id]@ == self.codes@[id]@);
                }
            }
            assert forall|a: Seq<char>| #[trigger] r.spec_store(a) is Some implies r.spec_store(a)->0.wf()
                && r.spec_contract(a) is Some by {
                assert(self.spec_store(a) is Some);
                self.spec_store(a)->0.lemma_view_wf(&r.spec_store(a)->0);
                assert(r.spec_contract(a) == self.spec_contract(a));
            }
            assert forall|a: Seq<char>| #[trigger] r.spec_contract(a) is Some implies r.spec_code(
                r.spec_contract(a)->0.code_id,
            ) is Some by {
                assert(r.spec_contract(a) == self.spec_contract(a));
                assert(self.spec_contract(a) is Some);
                assert(r.spec_code(self.spec_contract(a)->0.code_id) == self.spec_code(self.spec_contract(a)->0.code_id));
            }
        }
        r
    }

    /// Sets the state aside as a checkpoint and goes on with a copy of it
    /// (as `duplicate` makes it), so that a transaction can be undone.
    pub fn checkpoint(&mut self) -> (c: TxCheckpoint)
        requires
            old(self).wf(),
        ensures
            final(self).wf(),
            same_views(final(self), old(self)),
            c.state() == *old(self),
    {
        let mut saved = self.duplicate();
        std::mem::swap(self, &mut saved);
        TxCheckpoint { saved }
    }

    /// Ends a transaction all or nothing: a finished run keeps the state and
    /// answers its events; a failed one puts back the state of the checkpoint
    /// (the sender's account included) and answers the error.
    pub fn end_tx(&mut self, checkpoint: TxCheckpoint, action: RunAction) -> (r: Result<
        Vec<Event>,
        StateError,
    >)
        requires
            old(self).wf(),
            checkpoint.state().wf(),
            action is Finished || action is Failed,
        ensures
            final(self).wf(),
            action matches RunAction::Finished(evs) ==> r == Ok::<Vec<Event>, StateError>(evs) && *final(self) == *old(self),
            action matches RunAction::Failed(e) ==> r == Err::<Vec<Event>, StateError>(e) && *final(self) == checkpoint.state(),
    {
        match action {
            RunAction::Finished(evs) => Ok(evs),
            RunAction::Failed(e) => {
                *self = checkpoint.saved;
                Err(e)
            },
            _ => {
                assert(false);
                Ok(Vec::new())
            },
        }
    }

    /// The state before any block: an empty chain id, height zero, nothing
    /// stored.
    pub fn new() -> (s: Self)
        ensures
            s.wf(),
            s.spec_chain_id() == Seq::<char>::empty(),
            s.spec_height() == 0,
            s.spec_code_count() == 0,
            s.spec_contract_count() == 0,
            forall|a: Seq<char>| #[trigger] s.spec_account(a) is None,
            forall|id: u64| #[trigger] s.spec_code(id) is None,
            forall|a: Seq<char>| #[trigger] s.spec_contract(a) is None,
            forall|a: Seq<char>| #[trigger] s.spec_store(a) is None,
    {
        State {
            chain_id: String::new(),
            height: 0,
            code_count: 0,
            contract_count: 0,
            accounts: StrMap::new(),
            codes: HashMap::new(),
            contracts: StrMap::new(),
            stores: StrMap::new(),
        }
    }

    /// The block height and the app hash, `sha256(height)` over the height's
    /// eight big-endian bytes.
    pub fn info(&self) -> (r: (u64, Vec<u8>))
        ensures
            r.0 == self.spec_height(),
            r.1@ == sha256_digest(be_bytes(self.spec_height())),
    {
        let h = u64_be_bytes(self.height);
        (self.height, sha256(h.as_slice()))
    }

    /// Advances the block height by one and returns the new height and app
    /// hash.
    pub fn commit(&mut self) -> (r: (u64, Vec<u8>))
        requires
            old(self).spec_height() < u64::MAX,
        ensures
            final(self).spec_height() == old(self).spec_height() + 1,
            r.0 == final(self).spec_height(),
            r.1@ == sha256_digest(be_bytes(final(self).spec_height())),
            final(self).spec_chain_id() == old(self).spec_chain_id(),
            final(self).spec_code_count() == old(self).spec_code_count(),
            final(self).spec_contract_count() == old(self).spec_contract_count(),
            forall|a: Seq<char>| #[trigger] final(self).spec_account(a) == old(self).spec_account(a),
            forall|id: u64| #[trigger] final(self).spec_code(id) == old(self).spec_code(id),
            forall|a: Seq<char>| #[trigger] final(self).spec_contract(a) == old(self).spec_contract(a),
            forall|a: Seq<char>| #[trigger] final(self).spec_store(a) == old(self).spec_store(a),
            old(self).wf() ==> final(self).wf(),
    {
        self.height = self.height + 1;
        proof {
            if old(self).wf() {
                old(self).lemma_wf_frame(*self);
            }
        }
        self.info()
    }

    /// The account at `address` (a clone).
    pub fn account(&self, address: &String) -> (r: Option<Account>)
        requires
            self.wf(),
        ensures
            match r {
                Some(a) => self.spec_account(address@) == Some(a@),
                None => self.spec_account(address@) is None,
            },
    {
        match self.accounts.get(address) {
            Some(a) => Some(Account { pubkey: a.pubkey.clone(), sequence: a.sequence }),
            None => None,
        }
    }

    /// Stores the account at `address`.
    pub fn set_account(&mut self, address: String, account: Account)
        requires
            old(self).wf(),
        ensures
            final(self).wf(),
            forall|a: Seq<char>| #[trigger] final(self).spec_account(a) == if a == address@ {
                Some(account@)
            } else {
                old(self).spec_account(a)
            },
            forall|id: u64| #[trigger] final(self).spec_code(id) == old(self).spec_code(id),
            forall|a: Seq<char>| #[trigger] final(self).spec_contract(a) == old(self).spec_contract(a),
            forall|a: Seq<char>| #[trigger] final(self).spec_store(a) == old(self).spec_store(a),
            final(self).spec_chain_id() == old(self).spec_chain_id(),
            final(self).spec_height() == old(self).spec_height(),
            final(self).spec_code_count() == old(self).spec_code_count(),
            final(self).spec_contract_count() == old(self).spec_contract_count(),
    {
        self.accounts.insert(address, account);
        proof {
            old(self).lemma_wf_frame(*self);
        }
    }

    /// The code with id `code_id`.
    pub fn code(&self, code_id: u64) -> (r: Option<&Code>)
        ensures
            match r {
                Some(c) => self.spec_code(code_id) == Some(c@),
                None => self.spec_code(code_id) is None,
            },
    {
        self.codes.get(&code_id)
    }

    /// The storage of the contract at `address`.
    pub fn contract_storage(&self, address: &String) -> (r: Option<&WasmStorage>)
        requires
            self.wf(),
        ensures
            match r {
                Some(s) => self.spec_store(address@) == Some(*s) && s.wf(),
                None => self.spec_store(address@) is None,
            },
    {
        self.stores.get(address)
    }

    /// The wasm byte code of the contract at `address`, which every contract
    /// with a storage has.
    pub fn contract_code(&self, address: &String) -> (r: Option<&Vec<u8>>)
        requires
            self.wf(),
        ensures
            match r {
                Some(c) => {
                    &&& self.spec_contract(address@) is Some
                    &&& self.spec_code(self.spec_contract(address@)->0.code_id) matches Some(cv)
                        && cv.wasm_byte_code == c@
                },
                None => self.spec_contract(address@) is None,
            },
    {
        match self.contracts.get(address) {
            Some(contract) => {
                let code_id = contract.code_id;
                match self.codes.get(&code_id) {
                    Some(code) => Some(&code.wasm_byte_code),
                    None => None,
                }
            },
            None => None,
        }
    }

    /// Stores a wasm byte code under the next code id and returns the
    /// `store_code` event: `code_id`, `sender` and `hash` (hex of the code's
    /// SHA-256 digest).
    pub fn store_code(&mut self, sender: &String, wasm_byte_code: Vec<u8>) -> (e: crate::msg::Event)
        requires
            old(self).wf(),
            old(self).spec_code_count() < u64::MAX,
        ensures
            final(self).wf(),
            final(self).spec_code_count() == old(self).spec_code_count() + 1,
            final(self).spec_code(final(self).spec_code_count()) == Some(
                CodeView { creator: sender@, wasm_byte_code: wasm_byte_code@ },
            ),
            forall|id: u64| id != final(self).spec_code_count() ==> #[trigger] final(self).spec_code(id) == old(self).spec_code(id),
            e@ == store_code_event(final(self).spec_code_count(), sender@, wasm_byte_code@),
            forall|a: Seq<char>| #[trigger] final(self).spec_account(a) == old(self).spec_account(a),
            forall|a: Seq<char>| #[trigger] final(self).spec_contract(a) == old(self).spec_contract(a),
            forall|a: Seq<char>| #[trigger] final(self).spec_store(a) == old(self).spec_store(a),
            final(self).spec_chain_id() == old(self).spec_chain_id(),
            final(self).spec_height() == old(self).spec_height(),
            final(self).spec_contract_count() == old(self).spec_contract_count(),
    {
        let hash = sha256(wasm_byte_code.as_slice());
        let hash_str = crate::hash::hex_encode(hash.as_slice());
        self.code_count = self.code_count + 1;
        let code_id = self.code_count;
        self.codes.insert(code_id, Code { creator: sender.clone(), wasm_byte_code });
        proof {
            assert forall|a: Seq<char>| #[trigger] self.spec_contract(a) is Some implies self.spec_code(
                self.spec_contract(a)->0.code_id,
            ) is Some by {
                assert(old(self).spec_contract(a) is Some);
            }
            assert forall|a: Seq<char>| #[trigger] self.spec_store(a) is Some implies self.spec_store(a)->0.wf()
                && self.spec_contract(a) is Some by {
                assert(old(self).spec_store(a) is Some);
            }
        }
        let ev = crate::msg::Event::new(str_to_string("store_code"));
        let ev = ev.add_attribute(str_to_string("code_id"), crate::msg::number_text(code_id));
        let ev = ev.add_attribute(str_to_string("sender"), sender.clone());
        let ev = ev.add_attribute(str_to_string("hash"), hash_str);
        assert(ev@.attributes =~= store_code_event(code_id, sender@, wasm_byte_code@).attributes);
        ev
    }

    /// The account at `address`; an address with no account is answered
    /// with an empty pubkey and sequence number zero.
    pub fn query_account(&self, address: &String) -> (r: Result<AccountResponse, StateError>)
        requires
            self.wf(),
        ensures
            account_query_result(self, address@, r),
    {
        match self.accounts.get(address) {
            Some(account) => Ok(
                AccountResponse {
                    address: address.clone(),
                    pubkey: account.pubkey.clone(),
                    sequence: account.sequence,
                },
            ),
            None => Ok(AccountResponse { address: address.clone(), pubkey: Vec::new(), sequence: 0 }),
        }
    }

    /// The code with id `code_id`, with its creator and hash.
    pub fn query_code(&self, code_id: u64) -> (r: Result<CodeResponse, StateError>)
        ensures
            code_query_result(self, code_id, r),
    {
        match self.codes.get(&code_id) {
            Some(code) => Ok(
                CodeResponse {
                    creator: code.creator.clone(),
                    hash: sha256(code.wasm_byte_code.as_slice()),
                    wasm_byte_code: code.wasm_byte_code.clone(),
                },
            ),
            None => Err(StateError::code_not_found(code_id)),
        }
    }

    /// The contract at `address`.
    pub fn query_contract(&self, address: &String) -> (r: Result<ContractResponse, StateError>)
        requires
            self.wf(),
        ensures
            contract_query_result(self, address@, r),
    {
        match self.contracts.get(address) {
            Some(contract) => Ok(
                ContractResponse {
                    code_id: contract.code_id,
                    label: contract.label.clone(),
                    admin: clone_opt_string(&contract.admin),
                },
            ),
            None => Err(StateError::contract_not_found(address.clone())),
        }
    }

    /// The raw value under `key` in the storage of the contract at `address`.
    pub fn query_wasm_raw(&self, address: &String, key: &[u8]) -> (r: Result<
        WasmRawResponse,
        StateError,
    >)
        requires
            self.wf(),
        ensures
            wasm_raw_query_result(self, address@, key@, r),
    {
        match self.stores.get(address) {
            Some(storage) => {
                assert(self.spec_store(address@) is Some);
                Ok(WasmRawResponse { value: storage.get(key) })
            },
            None => Err(StateError::contract_not_found(address.clone())),
        }
    }
}

/// The attributes of the `store_code` event.
pub open spec fn store_code_event(code_id: u64, sender: Seq<char>, code: Seq<u8>) -> crate::msg::EventView {
    crate::msg::EventView {
        ty: "store_code"@,
        attributes: seq![
            ("code_id"@, crate::hash::decimal(code_id as nat)),
            ("sender"@, sender),
            ("hash"@, hex_lower(sha256_digest(code))),
        ],
    }
}

/// A string with the text of a literal.
pub fn str_to_string(s: &str) -> (r: String)
    ensures
        r@ == s@,
{
    s.to_owned()
}

pub fn clone_opt_string(o: &Option<String>) -> (r: Option<String>)
    ensures
        r == *o,
{
    match o {
        Some(s) => Some(s.clone()),
        None => None,
    }
}


/// How the address of a new contract is derived.
#[derive(Clone, Copy, Debug, PartialEq, Eq, Structural)]
pub enum AddressGenerator {
    /// From the label (at genesis).
    ByLabel,
    /// From the code id and the instance number (after genesis).
    ByIds,
}

/// What a successful contract call hands back.
#[derive(Debug)]
pub struct ContractOutput {
    /// Whether the response carries submessages.
    pub has_messages: bool,
    pub attributes: Vec<Attribute>,
    pub events: Vec<Event>,
    /// The contract's storage after the call.
    pub storage: WasmStorage,
}

/// How a contract call that the wasm runtime ran came out.
#[derive(Debug)]
pub enum VmOutcome {
    /// The runtime itself failed.
    VmFailed(StateError),
    /// The contract answered with an error.
    ContractFailed(String),
    /// The contract succeeded.
    Succeeded(ContractOutput),
}

/// The storage of a successful outcome is well formed.
pub open spec fn outcome_wf(o: &VmOutcome) -> bool {
    o matches VmOutcome::Succeeded(out) ==> out.storage.wf()
}

/// The address of a new contract.
pub open spec fn spec_contract_address(
    generator: AddressGenerator,
    label: Seq<char>,
    code_id: u64,
    instance_id: u64,
) -> Result<Seq<char>, AddressErrorView> {
    match generator {
        AddressGenerator::ByLabel => spec_humanize_prehash(encode_utf8("label"@) + encode_utf8(label)),
        AddressGenerator::ByIds => spec_humanize_prehash(be_bytes(code_id) + be_bytes(instance_id)),
    }
}

/// The `instantiate_contract` event.
pub open spec fn instantiate_event(
    sender: Seq<char>,
    code_id: u64,
    contract: Seq<char>,
    attrs: Seq<(Seq<char>, Seq<char>)>,
) -> EventView {
    EventView {
        ty: "instantiate_contract"@,
        attributes: seq![
            ("sender"@, sender),
            ("code_id"@, crate::hash::decimal(code_id as nat)),
            ("contract"@, contract),
        ] + attrs,
    }
}

/// The `execute_contract` event.
pub open spec fn execute_event(
    sender: Seq<char>,
    contract: Seq<char>,
    attrs: Seq<(Seq<char>, Seq<char>)>,
) -> EventView {
    EventView {
        ty: "execute_contract"@,
        attributes: seq![("sender"@, sender), ("contract"@, contract)] + attrs,
    }
}

/// An account or a contract already sits at `address`.
pub open spec fn address_taken(s: &State, address: Seq<char>) -> bool {
    s.spec_account(address) is Some || s.spec_contract(address) is Some
}

/// Two states hold the same values: the same scalars, accounts, codes and
/// contracts, and storages with the same records and iterators.
pub open spec fn same_views(a: &State, b: &State) -> bool {
    &&& same_scalars(a, b)
    &&& same_accounts(a, b)
    &&& same_codes(a, b)
    &&& forall|x: Seq<char>| #[trigger] a.spec_contract(x) == b.spec_contract(x)
    &&& forall|x: Seq<char>| #[trigger] a.spec_store(x) is Some <==> b.spec_store(x) is Some
    &&& forall|x: Seq<char>| #[trigger] a.spec_store(x) is Some ==> a.spec_store(x)->0@ == b.spec_store(x)->0@
}

/// A state set aside while a transaction runs.
pub struct TxCheckpoint {
    saved: State,
}

impl TxCheckpoint {
    /// The state set aside.
    pub closed spec fn state(&self) -> State {
        self.saved
    }
}

/// Two states hold the same accounts.
pub open spec fn same_accounts(a: &State, b: &State) -> bool {
    forall|x: Seq<char>| #[trigger] a.spec_account(x) == b.spec_account(x)
}

/// Two states hold the same codes.
pub open spec fn same_codes(a: &State, b: &State) -> bool {
    forall|id: u64| #[trigger] a.spec_code(id) == b.spec_code(id)
}

/// Two states hold the same contracts and storages, except perhaps at `except`.
pub open spec fn same_contracts_except(a: &State, b: &State, except: Option<Seq<char>>) -> bool {
    &&& forall|x: Seq<char>| Some(x) != except ==> #[trigger] a.spec_contract(x) == b.spec_contract(x)
    &&& forall|x: Seq<char>| Some(x) != except ==> #[trigger] a.spec_store(x) == b.spec_store(x)
}

/// Two states agree on the chain id, the height and both counters.
pub open spec fn same_scalars(a: &State, b: &State) -> bool {
    &&& a.spec_chain_id() == b.spec_chain_id()
    &&& a.spec_height() == b.spec_height()
    &&& a.spec_code_count() == b.spec_code_count()
    &&& a.spec_contract_count() == b.spec_contract_count()
}

/// Two states hold the same values.
pub open spec fn same_state(a: &State, b: &State) -> bool {
    &&& same_scalars(a, b)
    &&& same_accounts(a, b)
    &&& same_codes(a, b)
    &&& same_contracts_except(a, b, None)
}

impl State {
    /// Applies what the instantiate entry point of code `code_id` came out
    /// with. On success the new contract, with the storage the call left, is
    /// stored under the derived address and the contract counter goes up by
    /// one; the events are the `instantiate_contract` event followed by the
    /// contract's own. An address that an account or a contract already holds
    /// is refused, and nothing changes.
    pub fn finish_instantiate(
        &mut self,
        sender: &String,
        code_id: u64,
        label: String,
        admin: Option<String>,
        generator: AddressGenerator,
        outcome: VmOutcome,
    ) -> (r: Result<Vec<Event>, StateError>)
        requires
            old(self).wf(),
            old(self).spec_code(code_id) is Some,
            outcome matches VmOutcome::Succeeded(out) ==> (out.has_messages
                || old(self).spec_contract_count() < u64::MAX),
            outcome_wf(&outcome),
        ensures
            final(self).wf(),
            same_accounts(final(self), old(self)),
            same_codes(final(self), old(self)),
            match outcome {
                VmOutcome::VmFailed(e) => r == Err::<Vec<Event>, StateError>(e) && same_state(final(self), old(self)),
                VmOutcome::ContractFailed(m) => (r matches Err(StateError::Contract(x)) && x@ == m@)
                    && same_state(final(self), old(self)),
                VmOutcome::Succeeded(out) => if out.has_messages {
                    r matches Err(StateError::SubmessagesUnsupported) && same_state(final(self), old(self))
                } else {
                    &&& spec_contract_address(
                        generator,
                        label@,
                        code_id,
                        (old(self).spec_contract_count() + 1) as u64,
                    ) is Ok
                    &&& match spec_contract_address(
                        generator,
                        label@,
                        code_id,
                        (old(self).spec_contract_count() + 1) as u64,
                    ) {
                        Err(e) => (r matches Err(StateError::Address(x)) && x@ == e)
                            && same_state(final(self), old(self)),
                        Ok(a) => if address_taken(old(self), a) {
                            (r matches Err(StateError::AccountFound { address: x }) && x@ == a)
                                && same_state(final(self), old(self))
                        } else {
                            &&& final(self).spec_contract_count() == old(self).spec_contract_count() + 1
                            &&& final(self).spec_chain_id() == old(self).spec_chain_id()
                            &&& final(self).spec_height() == old(self).spec_height()
                            &&& final(self).spec_code_count() == old(self).spec_code_count()
                            &&& r matches Ok(evs) && events_view(evs@) == seq![
                                instantiate_event(sender@, code_id, a, attributes_view(out.attributes@)),
                            ] + events_view(out.events@)
                            &&& final(self).spec_contract(a) == Some(
                                ContractView { code_id, label: label@, admin: opt_text(admin) },
                            )
                            &&& final(self).spec_store(a) == Some(out.storage)
                            &&& same_contracts_except(final(self), old(self), Some(a))
                        },
                    }
                },
            },
    {
        match outcome {
            VmOutcome::VmFailed(e) => Err(e),
            VmOutcome::ContractFailed(m) => Err(StateError::Contract(m)),
            VmOutcome::Succeeded(out) => {
                if out.has_messages {
                    return Err(StateError::SubmessagesUnsupported);
                }
                let instance_id = self.contract_count + 1;
                let derived = match generator {
                    AddressGenerator::ByLabel => derive_from_label(label.as_str()),
                    AddressGenerator::ByIds => derive_from_ids(code_id, instance_id),
                };
                let contract_addr = match derived {
                    Ok(a) => a,
                    Err(e) => {
                        return Err(StateError::Address(e));
                    },
                };
                if self.accounts.get(&contract_addr).is_some() || self.contracts.get(&contract_addr).is_some() {
                    return Err(StateError::account_found(contract_addr));
                }
                self.contract_count = instance_id;
                let ghost cv = ContractView { code_id, label: label@, admin: opt_text(admin) };
                self.contracts.insert(contract_addr.clone(), Contract { code_id, label, admin });
                self.stores.insert(contract_addr.clone(), out.storage);
                proof {
                    assert forall|a: Seq<char>| #[trigger] self.spec_store(a) is Some implies self.spec_store(a)->0.wf()
                        && self.spec_contract(a) is Some by {
                        if a != contract_addr@ {
                            assert(old(self).spec_store(a) is Some);
                        }
                    }
                    assert forall|a: Seq<char>| #[trigger] self.spec_contract(a) is Some implies self.spec_code(
                        self.spec_contract(a)->0.code_id,
                    ) is Some by {
                        if a != contract_addr@ {
                            assert(old(self).spec_contract(a) is Some);
                        }
                    }
                }
                let event = Event::new(str_to_string("instantiate_contract"));
                let event = event.add_attribute(str_to_string("sender"), sender.clone());
                let event = event.add_attribute(str_to_string("code_id"), number_text(code_id));
                let event = event.add_attribute(str_to_string("contract"), contract_addr);
                let ghost attrs = attributes_view(out.attributes@);
                let event = event.add_attributes(out.attributes);
                assert(event@.attributes =~= instantiate_event(sender@, code_id, contract_addr@, attrs).attributes);
                Ok(prepend(event, out.events))
            },
        }
    }

    /// Applies what the execute entry point of the contract at `contract`
    /// came out with. On success the contract's storage becomes the one the
    /// call left; the events are the `execute_contract` event followed by the
    /// contract's own.
    pub fn finish_execute(&mut self, sender: &String, contract: String, outcome: VmOutcome) -> (r:
        Result<Vec<Event>, StateError>)
        requires
            old(self).wf(),
            old(self).spec_store(contract@) is Some,
            outcome_wf(&outcome),
        ensures
            final(self).wf(),
            same_scalars(final(self), old(self)),
            same_accounts(final(self), old(self)),
            same_codes(final(self), old(self)),
            match outcome {
                VmOutcome::VmFailed(e) => r == Err::<Vec<Event>, StateError>(e) && same_state(final(self), old(self)),
                VmOutcome::ContractFailed(m) => (r matches Err(StateError::Contract(x)) && x@ == m@)
                    && same_state(final(self), old(self)),
                VmOutcome::Succeeded(out) => if out.has_messages {
                    r matches Err(StateError::SubmessagesUnsupported) && same_state(final(self), old(self))
                } else {
                    &&& r matches Ok(evs) && events_view(evs@) == seq![
                        execute_event(sender@, contract@, attributes_view(out.attributes@)),
                    ] + events_view(out.events@)
                    &&& final(self).spec_store(contract@) == Some(out.storage)
                    &&& final(self).spec_contract(contract@) == old(self).spec_contract(contract@)
                    &&& same_contracts_except(final(self), old(self), Some(contract@))
                },
            },
    {
        match outcome {
            VmOutcome::VmFailed(e) => Err(e),
            VmOutcome::ContractFailed(m) => Err(StateError::Contract(m)),
            VmOutcome::Succeeded(out) => {
                if out.has_messages {
                    return Err(StateError::SubmessagesUnsupported);
                }
                self.stores.insert(contract.clone(), out.storage);
                proof {
                    assert forall|a: Seq<char>| #[trigger] self.spec_store(a) is Some implies self.spec_store(a)->0.wf()
                        && self.spec_contract(a) is Some by {
                        if a != contract@ {
                            assert(old(self).spec_store(a) is Some);
                        }
                    }
                    assert forall|a: Seq<char>| #[trigger] self.spec_contract(a) is Some implies self.spec_code(
                        self.spec_contract(a)->0.code_id,
                    ) is Some by {
                        assert(old(self).spec_contract(a) is Some);
                    }
                }
                let event = Event::new(str_to_string("execute_contract"));
                let event = event.add_attribute(str_to_string("sender"), sender.clone());
                let event = event.add_attribute(str_to_string("contract"), contract);
                let ghost attrs = attributes_view(out.attributes@);
                let event = event.add_attributes(out.attributes);
                assert(event@.attributes =~= execute_event(sender@, contract@, attrs).attributes);
                Ok(prepend(event, out.events))
            },
        }
    }
}

/// A call the transaction is waiting on.
#[derive(Debug)]
enum PendingCall {
    Instantiate { code_id: u64, label: String, admin: Option<String> },
    Execute { contract: String },
}

/// The messages of a transaction (or of genesis) being run in order, and the
/// events they emitted so far.
#[derive(Debug)]
pub struct MsgRun {
    sender: String,
    msgs: Vec<SdkMsg>,
    next: usize,
    events: Vec<Event>,
    generator: AddressGenerator,
    pending: Option<PendingCall>,
}

/// What the runner of a transaction asks for next.
#[derive(Debug)]
pub enum RunAction {
    /// A message ran; step again.
    Continue,
    /// Every message ran; these are all the events, in order.
    Finished(Vec<Event>),
    /// A message failed; the transaction stops here.
    Failed(StateError),
    /// Run the instantiate entry point of code `code_id` on fresh storage, as
    /// `sender`, with `msg`; then resume with the outcome.
    Instantiate { code_id: u64, sender: String, msg: Vec<u8> },
    /// Run the execute entry point of the contract at `contract`, on (a copy
    /// of) its storage, as `sender`, with `msg`; then resume with the
    /// outcome.
    Execute { contract: String, sender: String, msg: Vec<u8> },
}

impl MsgRun {
    pub closed spec fn spec_sender(&self) -> Seq<char> {
        self.sender@
    }

    pub closed spec fn spec_msgs(&self) -> Seq<SdkMsg> {
        self.msgs@
    }

    /// How many messages ran.
    pub closed spec fn spec_next(&self) -> nat {
        self.next as nat
    }

    pub closed spec fn spec_events(&self) -> Seq<EventView> {
        events_view(self.events@)
    }

    pub closed spec fn spec_generator(&self) -> AddressGenerator {
        self.generator
    }

    /// The run waits for the outcome of a contract call.
    pub closed spec fn is_waiting(&self) -> bool {
        self.pending is Some
    }

    /// The code id of the instantiation the run waits for, if it waits for
    /// one.
    pub closed spec fn waiting_code(&self) -> Option<u64> {
        match self.pending {
            Some(PendingCall::Instantiate { code_id, .. }) => Some(code_id),
            _ => None,
        }
    }

    /// The label of the instantiation the run waits for.
    pub closed spec fn waiting_label(&self) -> Seq<char> {
        match self.pending {
            Some(PendingCall::Instantiate { label, .. }) => label@,
            _ => Seq::empty(),
        }
    }

    /// The (validated) admin of the instantiation the run waits for.
    pub closed spec fn waiting_admin(&self) -> Option<Seq<char>> {
        match self.pending {
            Some(PendingCall::Instantiate { admin, .. }) => opt_text(admin),
            _ => None,
        }
    }

    /// The contract whose execution the run waits for, if it waits for one.
    pub closed spec fn waiting_contract(&self) -> Option<Seq<char>> {
        match self.pending {
            Some(PendingCall::Execute { contract }) => Some(contract@),
            _ => None,
        }
    }

    /// The message the run comes to next, if any is left.
    pub fn next_msg(&self) -> (r: Option<&SdkMsg>)
        ensures
            match r {
                Some(m) => self.spec_next() < self.spec_msgs().len() && *m == self.spec_msgs()[self.spec_next() as int],
                None => self.spec_next() >= self.spec_msgs().len(),
            },
    {
        if self.next < self.msgs.len() {
            Some(&self.msgs[self.next])
        } else {
            None
        }
    }

    pub closed spec fn wf(&self) -> bool {
        &&& self.next <= self.msgs@.len()
        &&& (self.pending is Some ==> (self.waiting_code() is Some <==> self.waiting_contract() is None))
        &&& self.pending is Some ==> self.next < self.msgs@.len()
    }
}

/// What starting a transaction does: the checks of `spec_check_tx` decide
/// (with the signature over `body_bytes`); on success the sender's account
/// holds the advanced sequence number and the run starts at the first message;
/// nothing else changes.
pub open spec fn begin_tx_effect(
    old_s: &State,
    new_s: &State,
    tx: &Tx,
    body_bytes: Seq<u8>,
    r: &Result<MsgRun, StateError>,
) -> bool {
    &&& same_scalars(new_s, old_s)
    &&& same_codes(new_s, old_s)
    &&& same_contracts_except(new_s, old_s, None)
    &&& match spec_check_tx(old_s, tx) {
            Err(e) => (r matches Err(StateError::Auth(x)) && x@ == e) && same_accounts(new_s, old_s),
            Ok(a) => (r is Ok <==> signature_holds(a.pubkey, tx.signature@, body_bytes)) && match r {
                Ok(run) => {
                    &&& run.wf()
                    &&& !run.is_waiting()
                    &&& run.spec_sender() == tx.body.sender@
                    &&& run.spec_msgs() == tx.body.msgs@
                    &&& run.spec_next() == 0
                    &&& run.spec_events() == Seq::<EventView>::empty()
                    &&& run.spec_generator() == AddressGenerator::ByIds
                    &&& new_s.spec_account(tx.body.sender@) == Some(a)
                    &&& forall|x: Seq<char>| x != tx.body.sender@ ==> #[trigger] new_s.spec_account(x) == old_s.spec_account(x)
                },
                Err(err) => (err matches StateError::Auth(x) && x@ == AuthErrorView::Secp256k1) && same_accounts(new_s, old_s),
            },
        }
}

/// No coins are sent along with a message.
pub open spec fn funds_empty(funds: Seq<Coin>) -> bool {
    funds.len() == 0
}

impl State {
    /// Authenticates a transaction (given its serialized body, whose SHA-256
    /// digest the signature must sign under the account's pubkey), saves the
    /// sender's account with the advanced sequence number, and starts running
    /// its messages.
    pub fn begin_tx(&mut self, tx: Tx, body_bytes: &[u8]) -> (r: Result<MsgRun, StateError>)
        requires
            old(self).wf(),
            sender_sequence_fits(old(self), &tx),
        ensures
            final(self).wf(),
            begin_tx_effect(old(self), final(self), &tx, body_bytes@, &r),
    {
        let (sender_addr, account) = match authenticate_tx(&tx, self, body_bytes) {
            Ok(t) => t,
            Err(e) => return Err(StateError::Auth(e)),
        };
        self.set_account(sender_addr, account);
        let run = MsgRun {
            sender: tx.body.sender,
            msgs: tx.body.msgs,
            next: 0,
            events: Vec::new(),
            generator: AddressGenerator::ByIds,
            pending: None,
        };
        assert(run.spec_events() =~= Seq::<EventView>::empty());
        Ok(run)
    }

    /// Starts a transaction as `begin_tx` does, unless its checks would
    /// advance a sequence number that is already the largest `u64`: then
    /// nothing changes and the answer is `None`.
    pub fn begin_tx_checked(&mut self, tx: Tx, body_bytes: &[u8]) -> (r: Option<
        Result<MsgRun, StateError>,
    >)
        requires
            old(self).wf(),
        ensures
            final(self).wf(),
            r is None <==> !sender_sequence_fits(old(self), &tx),
            r is None ==> *final(self) == *old(self),
            r matches Some(res) ==> begin_tx_effect(old(self), final(self), &tx, body_bytes@, &res),
    {
        if sequence_overflows(&tx, self) {
            return None;
        }
        Some(self.begin_tx(tx, body_bytes))
    }

    /// Starts running the genesis messages, sent by the deployer (whose
    /// address must be valid); contracts get addresses derived from labels.
    pub fn begin_genesis(&self, genesis: GenesisState) -> (r: Result<MsgRun, StateError>)
        ensures
            match spec_validate(genesis.deployer@) {
                Err(e) => r matches Err(StateError::Address(x)) && x@ == e,
                Ok(_) => r matches Ok(run) && run.wf() && !run.is_waiting() && run.spec_sender()
                    == genesis.deployer@ && run.spec_msgs() == genesis.gen_msgs@ && run.spec_next() == 0
                    && run.spec_events() == Seq::<EventView>::empty() && run.spec_generator()
                    == AddressGenerator::ByLabel,
            },
    {
        let deployer = match validate(genesis.deployer.as_str()) {
            Ok(a) => a,
            Err(e) => return Err(StateError::Address(e)),
        };
        let run = MsgRun {
            sender: deployer,
            msgs: genesis.gen_msgs,
            next: 0,
            events: Vec::new(),
            generator: AddressGenerator::ByLabel,
            pending: None,
        };
        assert(run.spec_events() =~= Seq::<EventView>::empty());
        Ok(run)
    }

    /// Runs the next message of `run`, or asks for the contract call it
    /// needs. A store-code message stores the code; a migrate message fails
    /// (after its contract address is validated); an instantiate message
    /// validates its admin and refuses funds, then asks for the call; an
    /// execute message validates its contract address, refuses funds, and
    /// needs the contract's storage, then asks for the call.
    pub fn step(&mut self, run: &mut MsgRun) -> (action: RunAction)
        requires
            old(self).wf(),
            old(run).wf(),
            !old(run).is_waiting(),
            old(run).spec_next() < old(run).spec_msgs().len() && old(run).spec_msgs()[old(
                run,
            ).spec_next() as int] is StoreCode ==> old(self).spec_code_count() < u64::MAX,
        ensures
            final(self).wf(),
            final(run).wf(),
            final(run).spec_sender() == old(run).spec_sender(),
            final(run).spec_msgs() == old(run).spec_msgs(),
            final(run).spec_generator() == old(run).spec_generator(),
            same_accounts(final(self), old(self)),
            same_contracts_except(final(self), old(self), None),
            old(run).spec_next() == old(run).spec_msgs().len() ==> (action matches RunAction::Finished(evs)
                && events_view(evs@) == old(run).spec_events() && same_state(final(self), old(self))),
            old(run).spec_next() < old(run).spec_msgs().len() ==> step_effect(
                old(self),
                final(self),
                old(run),
                final(run),
                action,
            ),
    {
        if run.next >= run.msgs.len() {
            let mut events: Vec<Event> = Vec::new();
            std::mem::swap(&mut events, &mut run.events);
            proof {
                assert(same_state(self, old(self)));
            }
            return RunAction::Finished(events);
        }
        let i = run.next;
        match &run.msgs[i] {
            SdkMsg::StoreCode { wasm_byte_code } => {
                let code = copy_bytes(wasm_byte_code.as_slice());
                let event = self.store_code(&run.sender, code);
                let ghost ev0 = events_view(run.events@);
                run.events.push(event);
                run.next = run.next + 1;
                proof {
                    assert(events_view(run.events@) =~= ev0.push(event@));
                }
                RunAction::Continue
            },
            SdkMsg::Migrate { contract, .. } => {
                match validate(contract.as_str()) {
                    Ok(_) => RunAction::Failed(StateError::MigrationUnsupported),
                    Err(e) => RunAction::Failed(StateError::Address(e)),
                }
            },
            SdkMsg::Instantiate { code_id, msg, funds, label, admin } => {
                let admin_addr = match admin {
                    Some(a) => match validate(a.as_str()) {
                        Ok(v) => Some(v),
                        Err(e) => {
                            return RunAction::Failed(StateError::Address(e));
                        },
                    },
                    None => None,
                };
                if funds.len() != 0 {
                    return RunAction::Failed(StateError::FundsUnsupported);
                }
                let code_id = *code_id;
                let m = copy_bytes(msg.as_slice());
                run.pending = Some(PendingCall::Instantiate { code_id, label: label.clone(), admin: admin_addr });
                RunAction::Instantiate { code_id, sender: run.sender.clone(), msg: m }
            },
            SdkMsg::Execute { contract, msg, funds } => {
                let contract_addr = match validate(contract.as_str()) {
                    Ok(v) => v,
                    Err(e) => {
                        return RunAction::Failed(StateError::Address(e));
                    },
                };
                if funds.len() != 0 {
                    return RunAction::Failed(StateError::FundsUnsupported);
                }
                if self.stores.get(&contract_addr).is_none() {
                    return RunAction::Failed(StateError::contract_not_found(contract_addr));
                }
                let m = copy_bytes(msg.as_slice());
                run.pending = Some(PendingCall::Execute { contract: contract_addr.clone() });
                RunAction::Execute { contract: contract_addr, sender: run.sender.clone(), msg: m }
            },
        }
    }

    /// Applies the outcome of the contract call that `run` waits for, and
    /// records the message's events. A failed call fails the transaction.
    pub fn resume(&mut self, run: &mut MsgRun, outcome: VmOutcome) -> (action: RunAction)
        requires
            old(self).wf(),
            old(run).wf(),
            old(run).is_waiting(),
            old(run).waiting_code() matches Some(id) ==> old(self).spec_code(id) is Some,
            old(run).waiting_contract() matches Some(c) ==> old(self).spec_store(c) is Some,
            old(run).waiting_code() is Some ==> (outcome matches VmOutcome::Succeeded(out) ==> (
            out.has_messages || old(self).spec_contract_count() < u64::MAX)),
            outcome_wf(&outcome),
        ensures
            final(self).wf(),
            final(run).wf(),
            !final(run).is_waiting(),
            final(run).spec_sender() == old(run).spec_sender(),
            final(run).spec_msgs() == old(run).spec_msgs(),
            final(run).spec_generator() == old(run).spec_generator(),
            same_accounts(final(self), old(self)),
            same_codes(final(self), old(self)),
            match action {
                RunAction::Continue => {
                    &&& final(run).spec_next() == old(run).spec_next() + 1
                    &&& exists|evs: Seq<EventView>| final(run).spec_events() == old(run).spec_events() + evs
                },
                RunAction::Failed(_) => true,
                _ => false,
            },
            resume_effect(old(self), final(self), old(run), final(run), outcome, action),
    {
        let n = run.msgs.len();
        assert(run.next < n);
        let mut pending: Option<PendingCall> = None;
        std::mem::swap(&mut pending, &mut run.pending);
        let result = match pending {
            Some(PendingCall::Instantiate { code_id, label, admin }) => {
                self.finish_instantiate(&run.sender, code_id, label, admin, run.generator, outcome)
            },
            Some(PendingCall::Execute { contract }) => {
                self.finish_execute(&run.sender, contract, outcome)
            },
            None => {
                return RunAction::Failed(StateError::MigrationUnsupported);
            },
        };
        match result {
            Ok(evs) => {
                let ghost e0 = events_view(run.events@);
                let ghost added = events_view(evs@);
                let mut evs = evs;
                run.events.append(&mut evs);
                run.next = run.next + 1;
                proof {
                    assert(events_view(run.events@) =~= e0 + added);
                    assert(run.spec_events() == old(run).spec_events() + added);
                    assert forall|b: Seq<EventView>, c: Seq<EventView>| #![trigger b + c] added == b + c implies run.spec_events()
                        == old(run).spec_events() + b + c by {
                        assert(e0 + (b + c) =~= e0 + b + c);
                    }
                }
                RunAction::Continue
            },
            Err(e) => RunAction::Failed(e),
        }
    }
}

/// What running message `old_run.msgs[next]` does, when it needs no contract
/// call or fails before one; or the call it asks for.
pub open spec fn step_effect(old_s: &State, new_s: &State, old_run: &MsgRun, new_run: &MsgRun, action: RunAction) -> bool {
    let msg = old_run.spec_msgs()[old_run.spec_next() as int];
    match msg {
        SdkMsg::StoreCode { wasm_byte_code } => {
            let id = (old_s.spec_code_count() + 1) as u64;
            &&& action is Continue
            &&& new_s.spec_code_count() == id
            &&& new_s.spec_code(id) == Some(CodeView { creator: old_run.spec_sender(), wasm_byte_code: wasm_byte_code@ })
            &&& forall|x: u64| x != id ==> #[trigger] new_s.spec_code(x) == old_s.spec_code(x)
            &&& new_s.spec_contract_count() == old_s.spec_contract_count()
            &&& new_s.spec_height() == old_s.spec_height()
            &&& new_s.spec_chain_id() == old_s.spec_chain_id()
            &&& new_run.spec_next() == old_run.spec_next() + 1
            &&& new_run.spec_events() == old_run.spec_events().push(store_code_event(id, old_run.spec_sender(), wasm_byte_code@))
            &&& !new_run.is_waiting()
        },
        SdkMsg::Migrate { contract, .. } => {
            &&& same_state(new_s, old_s)
            &&& match spec_validate(contract@) {
                Err(e) => action matches RunAction::Failed(StateError::Address(x)) && x@ == e,
                Ok(_) => action matches RunAction::Failed(StateError::MigrationUnsupported),
            }
        },
        SdkMsg::Instantiate { code_id, msg: m, funds, label, admin } => {
            &&& same_state(new_s, old_s)
            &&& match admin {
                Some(a) if spec_validate(a@) is Err => action matches RunAction::Failed(StateError::Address(x)) && Err::<Seq<char>, AddressErrorView>(x@) == spec_validate(a@),
                _ => if !funds_empty(funds@) {
                    action matches RunAction::Failed(StateError::FundsUnsupported)
                } else {
                    &&& action matches RunAction::Instantiate { code_id: c, sender: s, msg: mm } && c == code_id && s@ == old_run.spec_sender() && mm@ == m@
                    &&& new_run.is_waiting()
                    &&& new_run.waiting_code() == Some(code_id)
                    &&& new_run.waiting_label() == label@
                    &&& new_run.waiting_admin() == opt_text(admin)
                    &&& new_run.spec_next() == old_run.spec_next()
                    &&& new_run.spec_events() == old_run.spec_events()
                },
            }
        },
        SdkMsg::Execute { contract, msg: m, funds } => {
            &&& same_state(new_s, old_s)
            &&& match spec_validate(contract@) {
                Err(e) => action matches RunAction::Failed(StateError::Address(x)) && x@ == e,
                Ok(_) => if !funds_empty(funds@) {
                    action matches RunAction::Failed(StateError::FundsUnsupported)
                } else if old_s.spec_store(contract@) is None {
                    action matches RunAction::Failed(StateError::ContractNotFound { address: x }) && x@ == contract@
                } else {
                    &&& action matches RunAction::Execute { contract: c, sender: s, msg: mm } && c@ == contract@ && s@ == old_run.spec_sender() && mm@ == m@
                    &&& new_run.is_waiting()
                    &&& new_run.waiting_contract() == Some(contract@)
                    &&& new_run.spec_next() == old_run.spec_next()
                    &&& new_run.spec_events() == old_run.spec_events()
                },
            }
        },
    }
}

/// How a resumed message ends: as `finish_instantiate` or `finish_execute`
/// says, with the events of a success recorded after the earlier ones.
pub open spec fn resume_effect(
    old_s: &State,
    new_s: &State,
    old_run: &MsgRun,
    new_run: &MsgRun,
    outcome: VmOutcome,
    action: RunAction,
) -> bool {
    let sender = old_run.spec_sender();
    match outcome {
        VmOutcome::VmFailed(e) => action == RunAction::Failed(e) && same_state(new_s, old_s),
        VmOutcome::ContractFailed(m) => (action matches RunAction::Failed(StateError::Contract(x))
            && x@ == m@) && same_state(new_s, old_s),
        VmOutcome::Succeeded(out) => if out.has_messages {
            action matches RunAction::Failed(StateError::SubmessagesUnsupported) && same_state(new_s, old_s)
        } else {
            let attrs = attributes_view(out.attributes@);
            match old_run.waiting_contract() {
                Some(c) => {
                    &&& action is Continue
                    &&& new_s.spec_store(c) == Some(out.storage)
                    &&& same_scalars(new_s, old_s)
                    &&& same_contracts_except(new_s, old_s, Some(c))
                    &&& new_s.spec_contract(c) == old_s.spec_contract(c)
                    &&& new_run.spec_events() == old_run.spec_events() + seq![execute_event(sender, c, attrs)]
                        + events_view(out.events@)
                },
                None => {
                    let code_id = old_run.waiting_code()->0;
                    &&& spec_contract_address(
                        old_run.spec_generator(),
                        old_run.waiting_label(),
                        code_id,
                        (old_s.spec_contract_count() + 1) as u64,
                    ) is Ok
                    &&& match spec_contract_address(
                        old_run.spec_generator(),
                        old_run.waiting_label(),
                        code_id,
                        (old_s.spec_contract_count() + 1) as u64,
                    ) {
                        Err(e) => (action matches RunAction::Failed(StateError::Address(x)) && x@ == e)
                            && same_state(new_s, old_s),
                        Ok(a) => if address_taken(old_s, a) {
                            (action matches RunAction::Failed(StateError::AccountFound { address: x }) && x@ == a)
                                && same_state(new_s, old_s)
                        } else {
                            &&& action is Continue
                            &&& new_s.spec_contract_count() == old_s.spec_contract_count() + 1
                            &&& new_s.spec_chain_id() == old_s.spec_chain_id()
                            &&& new_s.spec_height() == old_s.spec_height()
                            &&& new_s.spec_code_count() == old_s.spec_code_count()
                            &&& new_s.spec_contract(a) == Some(
                                ContractView {
                                    code_id,
                                    label: old_run.waiting_label(),
                                    admin: old_run.waiting_admin(),
                                },
                            )
                            &&& new_s.spec_store(a) == Some(out.storage)
                            &&& same_contracts_except(new_s, old_s, Some(a))
                            &&& new_run.spec_events() == old_run.spec_events() + seq![
                                instantiate_event(sender, code_id, a, attrs),
                            ] + events_view(out.events@)
                        },
                    }
                },
            }
        },
    }
}

/// What an account query answers: the stored pubkey and sequence number,
/// or, for an address with no account, an empty pubkey and zero.
pub open spec fn account_query_result(s: &State, address: Seq<char>, r: Result<AccountResponse, StateError>) -> bool {
    match s.spec_account(address) {
        Some(a) => r matches Ok(resp) && resp.address@ == address && resp.pubkey@ == a.pubkey
            && resp.sequence == a.sequence,
        None => r matches Ok(resp) && resp.address@ == address && resp.pubkey@.len() == 0
            && resp.sequence == 0,
    }
}

/// What a code query answers.
pub open spec fn code_query_result(s: &State, code_id: u64, r: Result<CodeResponse, StateError>) -> bool {
    match s.spec_code(code_id) {
        Some(c) => r matches Ok(resp) && resp.creator@ == c.creator && resp.hash@ == sha256_digest(
            c.wasm_byte_code,
        ) && resp.wasm_byte_code@ == c.wasm_byte_code,
        None => r matches Err(StateError::CodeNotFound { code_id: x }) && x == code_id,
    }
}

/// What a contract query answers.
pub open spec fn contract_query_result(s: &State, address: Seq<char>, r: Result<ContractResponse, StateError>) -> bool {
    match s.spec_contract(address) {
        Some(c) => r matches Ok(resp) && resp.code_id == c.code_id && resp.label@ == c.label
            && opt_text(resp.admin) == c.admin,
        None => r matches Err(StateError::ContractNotFound { address: x }) && x@ == address,
    }
}

/// What a raw storage query answers.
pub open spec fn wasm_raw_query_result(
    s: &State,
    address: Seq<char>,
    key: Seq<u8>,
    r: Result<WasmRawResponse, StateError>,
) -> bool {
    match s.spec_store(address) {
        Some(st) => r matches Ok(resp) && match resp.value {
            Some(v) => st.spec_get(key) == Some(v@),
            None => st.spec_get(key) is None,
        },
        None => r matches Err(StateError::ContractNotFound { address: x }) && x@ == address,
    }
}

/// The answer to a query that needs no contract call.
#[derive(Debug)]
pub enum QueryAnswer {
    Account(AccountResponse),
    Code(CodeResponse),
    Contract(ContractResponse),
    WasmRaw(WasmRawResponse),
}

/// What handling a query comes to.
#[derive(Debug)]
pub enum QueryStep {
    Answered(Result<QueryAnswer, StateError>),
    /// Run the query entry point of the contract at `contract` (which has a
    /// storage) with `msg`.
    RunSmartQuery { contract: String, msg: Vec<u8> },
}

impl State {
    /// Handles a query: addresses in it must be valid; a smart query needs
    /// the contract's storage and then a contract call.
    pub fn handle_query(&self, query: SdkQuery) -> (r: QueryStep)
        requires
            self.wf(),
        ensures
            match query {
                SdkQuery::Account { address } => match spec_validate(address@) {
                    Err(e) => r matches QueryStep::Answered(Err(StateError::Address(x))) && x@ == e,
                    Ok(_) => match r {
                        QueryStep::Answered(Ok(QueryAnswer::Account(a))) => account_query_result(self, address@, Ok(a)),
                        QueryStep::Answered(Err(e)) => account_query_result(self, address@, Err(e)),
                        _ => false,
                    },
                },
                SdkQuery::Code { code_id } => match r {
                    QueryStep::Answered(Ok(QueryAnswer::Code(c))) => code_query_result(self, code_id, Ok(c)),
                    QueryStep::Answered(Err(e)) => code_query_result(self, code_id, Err(e)),
                    _ => false,
                },
                SdkQuery::Contract { contract } => match spec_validate(contract@) {
                    Err(e) => r matches QueryStep::Answered(Err(StateError::Address(x))) && x@ == e,
                    Ok(_) => match r {
                        QueryStep::Answered(Ok(QueryAnswer::Contract(c))) => contract_query_result(self, contract@, Ok(c)),
                        QueryStep::Answered(Err(e)) => contract_query_result(self, contract@, Err(e)),
                        _ => false,
                    },
                },
                SdkQuery::WasmRaw { contract, key } => match spec_validate(contract@) {
                    Err(e) => r matches QueryStep::Answered(Err(StateError::Address(x))) && x@ == e,
                    Ok(_) => match r {
                        QueryStep::Answered(Ok(QueryAnswer::WasmRaw(w))) => wasm_raw_query_result(self, contract@, key@, Ok(w)),
                        QueryStep::Answered(Err(e)) => wasm_raw_query_result(self, contract@, key@, Err(e)),
                        _ => false,
                    },
                },
                SdkQuery::WasmSmart { contract, msg } => match spec_validate(contract@) {
                    Err(e) => r matches QueryStep::Answered(Err(StateError::Address(x))) && x@ == e,
                    Ok(_) => if self.spec_store(contract@) is None {
                        r matches QueryStep::Answered(Err(StateError::ContractNotFound { address: x })) && x@ == contract@
                    } else {
                        r matches QueryStep::RunSmartQuery { contract: c, msg: m } && c@ == contract@ && m@ == msg@
                    },
                },
            },
    {
        match query {
            SdkQuery::Account { address } => {
                let addr = match validate(address.as_str()) {
                    Ok(a) => a,
                    Err(e) => return QueryStep::Answered(Err(StateError::Address(e))),
                };
                match self.query_account(&addr) {
                    Ok(a) => QueryStep::Answered(Ok(QueryAnswer::Account(a))),
                    Err(e) => QueryStep::Answered(Err(e)),
                }
            },
            SdkQuery::Code { code_id } => match self.query_code(code_id) {
                Ok(c) => QueryStep::Answered(Ok(QueryAnswer::Code(c))),
                Err(e) => QueryStep::Answered(Err(e)),
            },
            SdkQuery::Contract { contract } => {
                let addr = match validate(contract.as_str()) {
                    Ok(a) => a,
                    Err(e) => return QueryStep::Answered(Err(StateError::Address(e))),
                };
                match self.query_contract(&addr) {
                    Ok(c) => QueryStep::Answered(Ok(QueryAnswer::Contract(c))),
                    Err(e) => QueryStep::Answered(Err(e)),
                }
            },
            SdkQuery::WasmRaw { contract, key } => {
                let addr = match validate(contract.as_str()) {
                    Ok(a) => a,
                    Err(e) => return QueryStep::Answered(Err(StateError::Address(e))),
                };
                match self.query_wasm_raw(&addr, key.as_slice()) {
                    Ok(w) => QueryStep::Answered(Ok(QueryAnswer::WasmRaw(w))),
                    Err(e) => QueryStep::Answered(Err(e)),
                }
            },
            SdkQuery::WasmSmart { contract, msg } => {
                let addr = match validate(contract.as_str()) {
                    Ok(a) => a,
                    Err(e) => return QueryStep::Answered(Err(StateError::Address(e))),
                };
                if self.stores.get(&addr).is_none() {
                    return QueryStep::Answered(Err(StateError::contract_not_found(addr)));
                }
                QueryStep::RunSmartQuery { contract: addr, msg }
            },
        }
    }
}

/// No contract is called with coins attached: when running a message asks
/// for a contract call, the message is of the matching kind, carries no
/// funds and names valid addresses, and an executed contract has a storage.
pub proof fn law_contract_called_only_without_funds(
    old_s: &State,
    new_s: &State,
    old_run: &MsgRun,
    new_run: &MsgRun,
    action: RunAction,
)
    requires
        old_run.spec_next() < old_run.spec_msgs().len(),
        step_effect(old_s, new_s, old_run, new_run, action),
    ensures
        action matches RunAction::Execute { contract, .. } ==> (old_run.spec_msgs()[old_run.spec_next() as int] matches SdkMsg::Execute { contract: c, funds, .. }
            && c@ == contract@ && funds@.len() == 0 && spec_validate(c@) is Ok && old_s.spec_store(c@) is Some),
        action matches RunAction::Instantiate { code_id, .. } ==> (old_run.spec_msgs()[old_run.spec_next() as int] matches SdkMsg::Instantiate { code_id: c, funds, admin, .. }
            && c == code_id && funds@.len() == 0 && (admin matches Some(a) ==> spec_validate(a@) is Ok)),
        action is Execute || action is Instantiate ==> same_state(new_s, old_s),
{
}

/// An execute or instantiate message that carries coins fails with
/// `FundsUnsupported` (once the addresses it names are valid), and leaves the
/// state as it was.
pub proof fn law_funds_refused(
    old_s: &State,
    new_s: &State,
    old_run: &MsgRun,
    new_run: &MsgRun,
    action: RunAction,
)
    requires
        old_run.spec_next() < old_run.spec_msgs().len(),
        step_effect(old_s, new_s, old_run, new_run, action),
        match old_run.spec_msgs()[old_run.spec_next() as int] {
            SdkMsg::Execute { contract, funds, .. } => funds@.len() != 0 && spec_validate(contract@) is Ok,
            SdkMsg::Instantiate { funds, admin, .. } => funds@.len() != 0 && (admin matches Some(a) ==> spec_validate(a@) is Ok),
            _ => false,
        },
    ensures
        action matches RunAction::Failed(StateError::FundsUnsupported),
        same_state(new_s, old_s),
{
}

/// The `execute_contract` event names the sender and the contract, in that
/// order, and then carries exactly the attributes the contract returned, in
/// their order.
pub proof fn law_execute_event_carries_attributes(
    sender: Seq<char>,
    contract: Seq<char>,
    attrs: Seq<(Seq<char>, Seq<char>)>,
)
    ensures
        execute_event(sender, contract, attrs).ty == "execute_contract"@,
        execute_event(sender, contract, attrs).attributes.len() == attrs.len() + 2,
        execute_event(sender, contract, attrs).attributes[0] == ("sender"@, sender),
        execute_event(sender, contract, attrs).attributes[1] == ("contract"@, contract),
        execute_event(sender, contract, attrs).attributes.subrange(2, attrs.len() + 2int) == attrs,
        forall|i: int| 0 <= i < attrs.len() ==> #[trigger] execute_event(sender, contract, attrs).attributes[i + 2] == attrs[i],
{
    let e = execute_event(sender, contract, attrs);
    assert(e.attributes.subrange(2, attrs.len() + 2int) =~= attrs);
}

/// The `instantiate_contract` event names the sender, the code id (in
/// decimal) and the new contract, in that order, and then carries exactly the
/// attributes the contract returned, in their order.
pub proof fn law_instantiate_event_carries_attributes(
    sender: Seq<char>,
    code_id: u64,
    contract: Seq<char>,
    attrs: Seq<(Seq<char>, Seq<char>)>,
)
    ensures
        instantiate_event(sender, code_id, contract, attrs).ty == "instantiate_contract"@,
        instantiate_event(sender, code_id, contract, attrs).attributes.len() == attrs.len() + 3,
        instantiate_event(sender, code_id, contract, attrs).attributes[0] == ("sender"@, sender),
        instantiate_event(sender, code_id, contract, attrs).attributes[1] == ("code_id"@, decimal(code_id as nat)),
        instantiate_event(sender, code_id, contract, attrs).attributes[2] == ("contract"@, contract),
        instantiate_event(sender, code_id, contract, attrs).attributes.subrange(3, attrs.len() + 3int) == attrs,
        forall|i: int| 0 <= i < attrs.len() ==> #[trigger] instantiate_event(sender, code_id, contract, attrs).attributes[i + 3] == attrs[i],
{
    let e = instantiate_event(sender, code_id, contract, attrs);
    assert(e.attributes.subrange(3, attrs.len() + 3int) =~= attrs);
}

/// A contract call that succeeds without submessages records, after the
/// events emitted so far, one `execute_contract` event naming the sender and
/// the contract and ending with exactly the attributes the contract returned,
/// followed by the contract's own events.
pub proof fn law_executed_contract_attributes_recorded(
    old_s: &State,
    new_s: &State,
    old_run: &MsgRun,
    new_run: &MsgRun,
    out: ContractOutput,
    action: RunAction,
    contract: Seq<char>,
)
    requires
        !out.has_messages,
        old_run.waiting_contract() == Some(contract),
        resume_effect(old_s, new_s, old_run, new_run, VmOutcome::Succeeded(out), action),
    ensures
        action is Continue,
        new_s.spec_store(contract) == Some(out.storage),
        new_run.spec_events().len() == old_run.spec_events().len() + 1 + out.events@.len(),
        new_run.spec_events().subrange(0, old_run.spec_events().len() as int) == old_run.spec_events(),
        new_run.spec_events()[old_run.spec_events().len() as int].ty == "execute_contract"@,
        new_run.spec_events()[old_run.spec_events().len() as int].attributes == seq![
            ("sender"@, old_run.spec_sender()),
            ("contract"@, contract),
        ] + attributes_view(out.attributes@),
        new_run.spec_events().subrange(
            old_run.spec_events().len() + 1int,
            new_run.spec_events().len() as int,
        ) == events_view(out.events@),
{
    let n = old_run.spec_events().len();
    let ev = new_run.spec_events();
    let attrs = attributes_view(out.attributes@);
    assert(ev == old_run.spec_events() + seq![execute_event(old_run.spec_sender(), contract, attrs)]
        + events_view(out.events@));
    assert(ev[n as int] == execute_event(old_run.spec_sender(), contract, attrs));
    assert(ev.subrange(0, n as int) =~= old_run.spec_events());
    assert(ev.subrange(n + 1int, ev.len() as int) =~= events_view(out.events@));
}

/// A migrate message never leads to a contract call: it fails (with
/// `MigrationUnsupported` once its address is valid) and leaves the state
/// and the run's events as they were.
pub proof fn law_migration_refused(
    old_s: &State,
    new_s: &State,
    old_run: &MsgRun,
    new_run: &MsgRun,
    action: RunAction,
)
    requires
        old_run.spec_next() < old_run.spec_msgs().len(),
        old_run.spec_msgs()[old_run.spec_next() as int] is Migrate,
        step_effect(old_s, new_s, old_run, new_run, action),
    ensures
        action is Failed,
        old_run.spec_msgs()[old_run.spec_next() as int] matches SdkMsg::Migrate { contract, .. }
            && (spec_validate(contract@) is Ok ==> action matches RunAction::Failed(StateError::MigrationUnsupported)),
        same_state(new_s, old_s),
{
}

/// A sender's first accepted transaction leaves its account with sequence
/// number 1, and each later one with the number after the stored one: after
/// a transaction begins, the sender's account holds the transaction's own
/// sequence number.
pub proof fn law_begun_tx_stores_its_sequence(
    old_s: &State,
    new_s: &State,
    tx: &Tx,
    body_bytes: Seq<u8>,
    r: &Result<MsgRun, StateError>,
)
    requires
        begin_tx_effect(old_s, new_s, tx, body_bytes, r),
        r is Ok,
    ensures
        new_s.spec_account(tx.body.sender@) is Some,
        new_s.spec_account(tx.body.sender@)->0.sequence == tx.body.sequence,
        old_s.spec_account(tx.body.sender@) matches Some(a) ==> tx.body.sequence == a.sequence + 1
            && new_s.spec_account(tx.body.sender@)->0.pubkey == a.pubkey,
        old_s.spec_account(tx.body.sender@) is None ==> tx.body.sequence == 1,
{
    crate::auth::law_accepted_tx_advances_by_one(old_s, tx);
}

/// A new contract takes the next instance number and an address that neither
/// an account nor a contract held; it is stored with the storage the call
/// left, and its `instantiate_contract` event ends with exactly the
/// attributes the contract returned.
pub proof fn law_instantiated_contract_recorded(
    old_s: &State,
    new_s: &State,
    old_run: &MsgRun,
    new_run: &MsgRun,
    out: ContractOutput,
    action: RunAction,
)
    requires
        !out.has_messages,
        old_run.waiting_contract() is None,
        resume_effect(old_s, new_s, old_run, new_run, VmOutcome::Succeeded(out), action),
        action is Continue,
    ensures
        new_s.spec_contract_count() == old_s.spec_contract_count() + 1,
        spec_contract_address(
            old_run.spec_generator(),
            old_run.waiting_label(),
            old_run.waiting_code()->0,
            new_s.spec_contract_count(),
        ) matches Ok(a) && {
            &&& old_s.spec_account(a) is None
            &&& old_s.spec_contract(a) is None
            &&& new_s.spec_contract(a) is Some
            &&& new_s.spec_contract(a)->0.code_id == old_run.waiting_code()->0
            &&& new_s.spec_store(a) == Some(out.storage)
            &&& new_run.spec_events().len() == old_run.spec_events().len() + 1 + out.events@.len()
            &&& new_run.spec_events()[old_run.spec_events().len() as int].ty == "instantiate_contract"@
            &&& new_run.spec_events()[old_run.spec_events().len() as int].attributes.subrange(
                3,
                attributes_view(out.attributes@).len() + 3int,
            ) == attributes_view(out.attributes@)
        },
{
    let n = old_run.spec_events().len();
    let ev = new_run.spec_events();
    let code_id = old_run.waiting_code()->0;
    let a = spec_contract_address(
        old_run.spec_generator(),
        old_run.waiting_label(),
        code_id,
        (old_s.spec_contract_count() + 1) as u64,
    )->Ok_0;
    let e = instantiate_event(old_run.spec_sender(), code_id, a, attributes_view(out.attributes@));
    assert(ev == old_run.spec_events() + seq![e] + events_view(out.events@));
    assert(ev[n as int] == e);
    law_instantiate_event_carries_attributes(old_run.spec_sender(), code_id, a, attributes_view(out.attributes@));
}

} // verus!
