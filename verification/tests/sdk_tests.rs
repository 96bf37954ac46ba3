use bech32::{ToBase32, Variant};
use secp256k1::hashes::sha256 as secp_sha256;
use secp256k1::{Message, PublicKey, Secp256k1, SecretKey};
use sha2::{Digest, Sha256};

use cw_sdk::abci::{
    ABCIError, path_prefix, reply_for_app, reply_for_route, route_query, AppError, QueryRoute,
};
use cw_sdk::address::{
    canonicalize, derive_from_ids, derive_from_label, derive_from_pubkey, humanize, validate,
    AddressError, ADDRESS_LENGTH,
};
use cw_sdk::auth::{authenticate_tx, bytes_equal, check_tx, AuthError};
use cw_sdk::hash::{sha256, sha256_truncate};
use cw_sdk::helpers::{
    contract_namespace, page_limit, stringify_coins, stringify_option, validate_optional_addr, BackendApi,
    BackendQuerier, HostError, WasmApi, WasmError, WasmQuerier, DEFAULT_LIMIT, MAX_LIMIT,
};
use cw_sdk::msg::{prepend, number_text, Account, Attribute, Coin, Event, GenesisState, SdkMsg, SdkQuery, Tx, TxBody};
use cw_sdk::share::Shared;
use cw_sdk::state::{
    AddressGenerator, ContractOutput, QueryAnswer, QueryStep, RunAction, State, StateError,
    VmOutcome,
};
use cw_sdk::storage::WasmStorage;
use cw_sdk::strmap::StrMap;

fn hex(bytes: &[u8]) -> String {
    bytes.iter().map(|b| format!("{:02x}", b)).collect()
}

fn expected_address(preimage: &[u8]) -> String {
    let digest = Sha256::digest(preimage);
    bech32::encode("cw", (&digest[..32]).to_base32(), Variant::Bech32).unwrap()
}

// ---------------------------------------------------------------------------
// hashing
// ---------------------------------------------------------------------------

#[test]
fn sha256_known_vectors() {
    assert_eq!(
        hex(&sha256(b"")),
        "e3b0c44298fc1c149afbf4c8996fb92427ae41e4649b934ca495991b7852b855"
    );
    assert_eq!(
        hex(&sha256(b"abc")),
        "ba7816bf8f01cfea414140de5dae2223b00361a396177a9cb410ff61f20015ad"
    );
}

#[test]
fn sha256_truncated() {
    let full = sha256(b"abc");
    assert_eq!(sha256_truncate(b"abc", 4), full[..4].to_vec());
    assert_eq!(sha256_truncate(b"abc", 0), Vec::<u8>::new());
    assert_eq!(sha256_truncate(b"abc", 100), full);
}

// ---------------------------------------------------------------------------
// addresses
// ---------------------------------------------------------------------------

#[test]
fn deriving_addresses() {
    let from_label = derive_from_label("bank").unwrap();
    assert_eq!(from_label, expected_address(b"labelbank"));
    assert!(from_label.starts_with("cw1"));

    let mut ids = 1u64.to_be_bytes().to_vec();
    ids.extend(2u64.to_be_bytes());
    assert_eq!(derive_from_ids(1, 2).unwrap(), expected_address(&ids));
    assert_ne!(derive_from_ids(1, 2).unwrap(), derive_from_ids(2, 1).unwrap());

    let pubkey = [2u8; 33];
    let mut preimage = b"cosmos.crypto.secp256k1.PubKey".to_vec();
    preimage.extend(Sha256::digest(pubkey));
    assert_eq!(derive_from_pubkey(&pubkey).unwrap(), expected_address(&preimage));
}

#[test]
fn canonicalize_and_humanize_round_trip() {
    let addr = derive_from_label("token-factory").unwrap();
    let bytes = canonicalize(&addr).unwrap();
    assert_eq!(bytes.len(), ADDRESS_LENGTH);
    assert_eq!(bytes, Sha256::digest(b"labeltoken-factory").to_vec());
    assert_eq!(humanize(&bytes).unwrap(), addr);
    assert_eq!(validate(&addr).unwrap(), addr);
}

#[test]
fn validate_refuses_another_prefix() {
    let other = bech32::encode("cosmos", [0u8; 32].to_base32(), Variant::Bech32).unwrap();
    match validate(&other) {
        Err(AddressError::IncorrectPrefix { expect, found }) => {
            assert_eq!(expect, "cw");
            assert_eq!(found, "cosmos");
        }
        r => panic!("unexpected {:?}", r),
    }
}

#[test]
fn validate_refuses_another_length() {
    let short = bech32::encode("cw", [7u8; 20].to_base32(), Variant::Bech32).unwrap();
    assert!(matches!(
        canonicalize(&short),
        Err(AddressError::IncorrectLength { expect: 32, found: 20 })
    ));
}

#[test]
fn validate_refuses_bech32m() {
    let m = bech32::encode("cw", [7u8; 32].to_base32(), Variant::Bech32m).unwrap();
    assert!(matches!(validate(&m), Err(AddressError::IncorrectVariant)));
}

#[test]
fn validate_refuses_garbage() {
    assert!(matches!(validate("not an address"), Err(AddressError::Bech32(_))));
    assert!(matches!(validate(""), Err(AddressError::Bech32(_))));
}

#[test]
fn validate_refuses_upper_case() {
    let addr = derive_from_label("bank").unwrap();
    let upper = addr.to_uppercase();
    match validate(&upper) {
        Err(AddressError::RecoveredMismatch { input, recovered }) => {
            assert_eq!(input, upper);
            assert_eq!(recovered, addr);
        }
        r => panic!("unexpected {:?}", r),
    }
}

#[test]
fn address_error_constructors() {
    assert!(matches!(
        AddressError::incorrect_prefix("x".to_string()),
        AddressError::IncorrectPrefix { expect, found } if expect == "cw" && found == "x"
    ));
    assert!(matches!(
        AddressError::incorrect_length(5),
        AddressError::IncorrectLength { expect: 32, found: 5 }
    ));
    assert!(matches!(
        AddressError::recovered_mismatch("a".to_string(), "b".to_string()),
        AddressError::RecoveredMismatch { input, recovered } if input == "a" && recovered == "b"
    ));
}

// ---------------------------------------------------------------------------
// authentication
// ---------------------------------------------------------------------------

struct Signer {
    sk: SecretKey,
    pubkey: Vec<u8>,
    address: String,
}

fn signer(seed: u8) -> Signer {
    let secp = Secp256k1::new();
    let sk = SecretKey::from_slice(&[seed; 32]).unwrap();
    let pubkey = PublicKey::from_secret_key(&secp, &sk).serialize().to_vec();
    let address = derive_from_pubkey(&pubkey).unwrap();
    Signer { sk, pubkey, address }
}

fn sign(s: &Signer, body_bytes: &[u8]) -> Vec<u8> {
    let secp = Secp256k1::new();
    let msg = Message::from_hashed_data::<secp_sha256::Hash>(body_bytes);
    secp.sign_ecdsa(&msg, &s.sk).serialize_compact().to_vec()
}

fn tx_of(s: &Signer, chain_id: &str, sequence: u64, with_pubkey: bool, body_bytes: &[u8]) -> Tx {
    Tx {
        body: TxBody {
            sender: s.address.clone(),
            msgs: vec![],
            chain_id: chain_id.to_string(),
            sequence,
        },
        pubkey: if with_pubkey { Some(s.pubkey.clone()) } else { None },
        signature: sign(s, body_bytes),
    }
}

fn chain() -> State {
    let mut state = State::new();
    state.set_chain_id("cw-dev".to_string());
    state
}

#[test]
fn first_transaction_is_authenticated() {
    let state = chain();
    let alice = signer(1);
    let body = b"first body";
    let tx = tx_of(&alice, "cw-dev", 1, true, body);
    let (addr, account) = authenticate_tx(&tx, &state, body).unwrap();
    assert_eq!(addr, alice.address);
    assert_eq!(account.pubkey, alice.pubkey);
    assert_eq!(account.sequence, 1);
}

#[test]
fn replayed_transaction_is_refused() {
    let mut state = chain();
    let alice = signer(1);
    let body = b"body";
    let tx = tx_of(&alice, "cw-dev", 1, true, body);
    let run = state.begin_tx(tx.clone(), body);
    assert!(run.is_ok());
    assert_eq!(state.account(&alice.address).unwrap().sequence, 1);
    match state.begin_tx(tx, body) {
        Err(StateError::Auth(AuthError::SequenceMismatch { sender, expect, found })) => {
            assert_eq!(sender, alice.address);
            assert_eq!(expect, 2);
            assert_eq!(found, 1);
        }
        r => panic!("unexpected {:?}", r),
    }
    // the next sequence number, without the pubkey, is accepted
    let tx2 = tx_of(&alice, "cw-dev", 2, false, b"second");
    assert!(state.begin_tx(tx2, b"second").is_ok());
    assert_eq!(state.account(&alice.address).unwrap().sequence, 2);
}

#[test]
fn first_transaction_must_have_sequence_one() {
    let state = chain();
    let alice = signer(1);
    let tx = tx_of(&alice, "cw-dev", 0, true, b"b");
    assert!(matches!(
        check_tx(&tx, &state),
        Err(AuthError::SequenceMismatch { expect: 1, found: 0, .. })
    ));
}

#[test]
fn unknown_account_without_pubkey_is_refused() {
    let state = chain();
    let alice = signer(1);
    let tx = tx_of(&alice, "cw-dev", 1, false, b"b");
    assert!(matches!(
        check_tx(&tx, &state),
        Err(AuthError::AccountNotFound { sender }) if sender == alice.address
    ));
}

#[test]
fn pubkey_of_another_sender_is_refused() {
    let state = chain();
    let alice = signer(1);
    let bob = signer(2);
    let mut tx = tx_of(&alice, "cw-dev", 1, true, b"b");
    tx.pubkey = Some(bob.pubkey.clone());
    assert!(matches!(
        check_tx(&tx, &state),
        Err(AuthError::AddressMismatch { expect, found }) if expect == bob.address && found == alice.address
    ));
}

#[test]
fn pubkey_differing_from_the_stored_one_is_refused() {
    let mut state = chain();
    let alice = signer(1);
    let bob = signer(2);
    state.set_account(alice.address.clone(), Account { pubkey: alice.pubkey.clone(), sequence: 3 });
    let mut tx = tx_of(&alice, "cw-dev", 4, true, b"b");
    tx.pubkey = Some(bob.pubkey.clone());
    match check_tx(&tx, &state) {
        Err(AuthError::PubkeyMismatch { sender, expect, found }) => {
            assert_eq!(sender, alice.address);
            assert_eq!(expect, hex(&alice.pubkey));
            assert_eq!(found, hex(&bob.pubkey));
        }
        r => panic!("unexpected {:?}", r),
    }
}

#[test]
fn wrong_chain_id_is_refused() {
    let state = chain();
    let alice = signer(1);
    let tx = tx_of(&alice, "other-chain", 1, true, b"b");
    assert!(matches!(
        check_tx(&tx, &state),
        Err(AuthError::ChainIdMismatch { expect, found }) if expect == "cw-dev" && found == "other-chain"
    ));
}

#[test]
fn invalid_sender_is_refused() {
    let state = chain();
    let alice = signer(1);
    let mut tx = tx_of(&alice, "cw-dev", 1, true, b"b");
    tx.body.sender = "larry".to_string();
    assert!(matches!(check_tx(&tx, &state), Err(AuthError::Address(_))));
}

#[test]
fn bad_signature_is_refused() {
    let state = chain();
    let alice = signer(1);
    // signed over other bytes
    let tx = tx_of(&alice, "cw-dev", 1, true, b"what was signed");
    assert!(matches!(
        authenticate_tx(&tx, &state, b"what was sent"),
        Err(AuthError::Secp256k1(_))
    ));
    // not 64 bytes long
    let mut tx = tx_of(&alice, "cw-dev", 1, true, b"b");
    tx.signature = vec![1, 2, 3];
    assert!(matches!(authenticate_tx(&tx, &state, b"b"), Err(AuthError::Secp256k1(_))));
    // the failed attempts stored nothing
    let mut s = chain();
    assert!(s.begin_tx(tx, b"b").is_err());
    assert!(s.account(&alice.address).is_none());
}

#[test]
fn auth_error_constructors() {
    assert!(matches!(
        AuthError::pubkey_mismatch("s".to_string(), &[0xab], &[0x01, 0xff]),
        AuthError::PubkeyMismatch { sender, expect, found } if sender == "s" && expect == "ab" && found == "01ff"
    ));
    assert!(matches!(
        AuthError::sequence_mismatch("s".to_string(), 2, 9),
        AuthError::SequenceMismatch { expect: 2, found: 9, .. }
    ));
    assert!(matches!(
        AuthError::chain_id_mismatch("a".to_string(), "b".to_string()),
        AuthError::ChainIdMismatch { expect, found } if expect == "a" && found == "b"
    ));
    assert!(matches!(
        AuthError::address_mismatch("a".to_string(), "b".to_string()),
        AuthError::AddressMismatch { expect, found } if expect == "a" && found == "b"
    ));
    assert!(matches!(
        AuthError::account_not_found("a".to_string()),
        AuthError::AccountNotFound { sender } if sender == "a"
    ));
    assert!(bytes_equal(b"abc", b"abc"));
    assert!(!bytes_equal(b"abc", b"abd"));
    assert!(!bytes_equal(b"abc", b"ab"));
}

// ---------------------------------------------------------------------------
// state: blocks, codes, contracts, queries
// ---------------------------------------------------------------------------

#[test]
fn info_and_commit() {
    let mut state = State::new();
    let (h, hash) = state.info();
    assert_eq!(h, 0);
    assert_eq!(hash, sha256(&0u64.to_be_bytes()));
    let (h, hash) = state.commit();
    assert_eq!(h, 1);
    assert_eq!(hash, sha256(&1u64.to_be_bytes()));
    assert_eq!(state.info(), (1, sha256(&1u64.to_be_bytes())));
    assert_eq!(state.height(), 1);
}

#[test]
fn storing_code() {
    let mut state = State::new();
    let sender = "larry".to_string();
    let ev = state.store_code(&sender, b"wasm one".to_vec());
    assert_eq!(ev.ty, "store_code");
    let attrs: Vec<(String, String)> =
        ev.attributes.iter().map(|a| (a.key.clone(), a.value.clone())).collect();
    assert_eq!(
        attrs,
        vec![
            ("code_id".to_string(), "1".to_string()),
            ("sender".to_string(), "larry".to_string()),
            ("hash".to_string(), hex(&Sha256::digest(b"wasm one"))),
        ]
    );
    let ev2 = state.store_code(&sender, b"wasm two".to_vec());
    assert_eq!(ev2.attributes[0].value, "2");
    assert_eq!(state.code_count(), 2);
    assert_eq!(state.code(1).unwrap().wasm_byte_code, b"wasm one".to_vec());
    assert_eq!(state.code(2).unwrap().creator, "larry");
    assert!(state.code(3).is_none());

    let c = state.query_code(1).unwrap();
    assert_eq!(c.creator, "larry");
    assert_eq!(c.hash, sha256(b"wasm one"));
    assert_eq!(c.wasm_byte_code, b"wasm one".to_vec());
    assert!(matches!(state.query_code(9), Err(StateError::CodeNotFound { code_id: 9 })));
}

fn succeeded(storage: WasmStorage) -> VmOutcome {
    VmOutcome::Succeeded(ContractOutput {
        has_messages: false,
        attributes: vec![Attribute { key: "action".to_string(), value: "init".to_string() }],
        events: vec![],
        storage,
    })
}

/// Runs a message run to its end, answering contract calls with `outcome`.
fn run_all(
    state: &mut State,
    mut run: cw_sdk::state::MsgRun,
    mut outcome: impl FnMut() -> VmOutcome,
) -> Result<Vec<Event>, StateError> {
    loop {
        match state.step(&mut run) {
            RunAction::Continue => {}
            RunAction::Finished(events) => return Ok(events),
            RunAction::Failed(e) => return Err(e),
            RunAction::Instantiate { .. } | RunAction::Execute { .. } => {
                match state.resume(&mut run, outcome()) {
                    RunAction::Continue => {}
                    RunAction::Failed(e) => return Err(e),
                    a => panic!("unexpected {:?}", a),
                }
            }
        }
    }
}

#[test]
fn genesis_stores_and_instantiates() {
    let mut state = chain();
    let deployer = derive_from_label("deployer").unwrap();
    let genesis = GenesisState {
        deployer: deployer.clone(),
        gen_msgs: vec![
            SdkMsg::StoreCode { wasm_byte_code: b"code".to_vec() },
            SdkMsg::Instantiate {
                code_id: 1,
                msg: b"{}".to_vec(),
                funds: vec![],
                label: "bank".to_string(),
                admin: None,
            },
        ],
    };
    let run = state.begin_genesis(genesis).unwrap();
    let mut storage = WasmStorage::new();
    storage.set(b"k", b"v");
    let mut outcome = Some(succeeded(storage));
    let events = run_all(&mut state, run, || outcome.take().unwrap()).unwrap();
    let bank = derive_from_label("bank").unwrap();
    assert_eq!(events.len(), 2);
    assert_eq!(events[0].ty, "store_code");
    assert_eq!(events[1].ty, "instantiate_contract");
    let attrs: Vec<(String, String)> =
        events[1].attributes.iter().map(|a| (a.key.clone(), a.value.clone())).collect();
    assert_eq!(
        attrs,
        vec![
            ("sender".to_string(), deployer.clone()),
            ("code_id".to_string(), "1".to_string()),
            ("contract".to_string(), bank.clone()),
            ("action".to_string(), "init".to_string()),
        ]
    );
    assert_eq!(state.contract_count(), 1);
    let c = state.query_contract(&bank).unwrap();
    assert_eq!(c.code_id, 1);
    assert_eq!(c.label, "bank");
    assert_eq!(c.admin, None);
    assert_eq!(state.query_wasm_raw(&bank, b"k").unwrap().value, Some(b"v".to_vec()));
    assert_eq!(state.query_wasm_raw(&bank, b"x").unwrap().value, None);
    assert_eq!(state.contract_code(&bank), Some(&b"code".to_vec()));
}

#[test]
fn genesis_with_invalid_deployer_fails() {
    let state = chain();
    let genesis = GenesisState { deployer: "larry".to_string(), gen_msgs: vec![] };
    assert!(matches!(state.begin_genesis(genesis), Err(StateError::Address(_))));
}

#[test]
fn transactions_instantiate_and_execute() {
    let mut state = chain();
    let alice = signer(3);
    let body = b"tx one";
    let mut tx = tx_of(&alice, "cw-dev", 1, true, body);
    tx.body.msgs = vec![
        SdkMsg::StoreCode { wasm_byte_code: b"code".to_vec() },
        SdkMsg::Instantiate {
            code_id: 1,
            msg: b"{}".to_vec(),
            funds: vec![],
            label: "counter".to_string(),
            admin: Some(alice.address.clone()),
        },
    ];
    let run = state.begin_tx(tx, body).unwrap();
    let events = run_all(&mut state, run, || succeeded(WasmStorage::new())).unwrap();
    assert_eq!(events.len(), 2);
    // after genesis, addresses come from the code id and the instance number
    let contract = derive_from_ids(1, 1).unwrap();
    let c = state.query_contract(&contract).unwrap();
    assert_eq!(c.label, "counter");
    assert_eq!(c.admin, Some(alice.address.clone()));

    let body2 = b"tx two";
    let mut tx2 = tx_of(&alice, "cw-dev", 2, false, body2);
    tx2.body.msgs = vec![SdkMsg::Execute { contract: contract.clone(), msg: b"{}".to_vec(), funds: vec![] }];
    let run = state.begin_tx(tx2, body2).unwrap();
    let mut storage = WasmStorage::new();
    storage.set(b"count", b"1");
    let mut outcome = Some(succeeded(storage));
    let events = run_all(&mut state, run, || outcome.take().unwrap()).unwrap();
    assert_eq!(events.len(), 1);
    assert_eq!(events[0].ty, "execute_contract");
    assert_eq!(events[0].attributes[0].value, alice.address);
    assert_eq!(events[0].attributes[1].value, contract);
    assert_eq!(state.query_wasm_raw(&contract, b"count").unwrap().value, Some(b"1".to_vec()));
}

#[test]
fn failed_messages() {
    let mut state = chain();
    let deployer = derive_from_label("deployer").unwrap();
    let bank = derive_from_label("bank").unwrap();
    let cases: Vec<(SdkMsg, fn(&StateError) -> bool)> = vec![
        (
            SdkMsg::Instantiate {
                code_id: 1,
                msg: vec![],
                funds: vec![Coin { denom: "uatom".to_string(), amount: 1 }],
                label: "x".to_string(),
                admin: None,
            },
            |e| matches!(e, StateError::FundsUnsupported),
        ),
        (
            SdkMsg::Instantiate {
                code_id: 1,
                msg: vec![],
                funds: vec![],
                label: "x".to_string(),
                admin: Some("larry".to_string()),
            },
            |e| matches!(e, StateError::Address(_)),
        ),
        (
            SdkMsg::Execute { contract: bank.clone(), msg: vec![], funds: vec![] },
            |e| matches!(e, StateError::ContractNotFound { .. }),
        ),
        (
            SdkMsg::Execute { contract: "larry".to_string(), msg: vec![], funds: vec![] },
            |e| matches!(e, StateError::Address(_)),
        ),
        (
            SdkMsg::Migrate { contract: bank.clone(), code_id: 1, msg: vec![] },
            |e| matches!(e, StateError::MigrationUnsupported),
        ),
        (
            SdkMsg::Migrate { contract: "larry".to_string(), code_id: 1, msg: vec![] },
            |e| matches!(e, StateError::Address(_)),
        ),
    ];
    for (msg, expected) in cases {
        let run = state
            .begin_genesis(GenesisState { deployer: deployer.clone(), gen_msgs: vec![msg] })
            .unwrap();
        let err = run_all(&mut state, run, || panic!("no contract call expected")).unwrap_err();
        assert!(expected(&err), "unexpected {:?}", err);
    }
}

#[test]
fn failed_contract_calls() {
    let deployer = derive_from_label("deployer").unwrap();
    let msgs = vec![
        SdkMsg::StoreCode { wasm_byte_code: b"code".to_vec() },
        SdkMsg::Instantiate { code_id: 1, msg: vec![], funds: vec![], label: "bank".to_string(), admin: None },
    ];
    let outcomes: Vec<(fn() -> VmOutcome, fn(&StateError) -> bool)> = vec![
        (
            || VmOutcome::ContractFailed("boom".to_string()),
            |e| matches!(e, StateError::Contract(m) if m == "boom"),
        ),
        (
            || VmOutcome::VmFailed(StateError::Vm("trap".to_string())),
            |e| matches!(e, StateError::Vm(m) if m == "trap"),
        ),
        (
            || {
                VmOutcome::Succeeded(ContractOutput {
                    has_messages: true,
                    attributes: vec![],
                    events: vec![],
                    storage: WasmStorage::new(),
                })
            },
            |e| matches!(e, StateError::SubmessagesUnsupported),
        ),
    ];
    for (outcome, expected) in outcomes {
        let mut state = chain();
        let run = state
            .begin_genesis(GenesisState { deployer: deployer.clone(), gen_msgs: msgs.clone() })
            .unwrap();
        let err = run_all(&mut state, run, outcome).unwrap_err();
        assert!(expected(&err), "unexpected {:?}", err);
        assert_eq!(state.contract_count(), 0);
    }
}

#[test]
fn handling_queries() {
    let mut state = chain();
    let alice = signer(4);
    state.set_account(alice.address.clone(), Account { pubkey: alice.pubkey.clone(), sequence: 7 });
    state.store_code(&alice.address, b"code".to_vec());

    match state.handle_query(SdkQuery::Account { address: alice.address.clone() }) {
        QueryStep::Answered(Ok(QueryAnswer::Account(a))) => {
            assert_eq!(a.address, alice.address);
            assert_eq!(a.pubkey, alice.pubkey);
            assert_eq!(a.sequence, 7);
        }
        r => panic!("unexpected {:?}", r),
    }
    let bob = signer(5);
    match state.handle_query(SdkQuery::Account { address: bob.address.clone() }) {
        QueryStep::Answered(Ok(QueryAnswer::Account(a))) => {
            assert_eq!(a.address, bob.address);
            assert!(a.pubkey.is_empty());
            assert_eq!(a.sequence, 0);
        }
        r => panic!("unexpected {:?}", r),
    }
    assert!(matches!(
        state.handle_query(SdkQuery::Account { address: "larry".to_string() }),
        QueryStep::Answered(Err(StateError::Address(_)))
    ));
    assert!(matches!(
        state.handle_query(SdkQuery::Code { code_id: 1 }),
        QueryStep::Answered(Ok(QueryAnswer::Code(c))) if c.hash == sha256(b"code")
    ));
    assert!(matches!(
        state.handle_query(SdkQuery::Code { code_id: 2 }),
        QueryStep::Answered(Err(StateError::CodeNotFound { code_id: 2 }))
    ));
    let nowhere = derive_from_label("nowhere").unwrap();
    assert!(matches!(
        state.handle_query(SdkQuery::Contract { contract: nowhere.clone() }),
        QueryStep::Answered(Err(StateError::ContractNotFound { .. }))
    ));
    assert!(matches!(
        state.handle_query(SdkQuery::WasmRaw { contract: nowhere.clone(), key: vec![] }),
        QueryStep::Answered(Err(StateError::ContractNotFound { .. }))
    ));
    assert!(matches!(
        state.handle_query(SdkQuery::WasmSmart { contract: nowhere.clone(), msg: vec![] }),
        QueryStep::Answered(Err(StateError::ContractNotFound { address })) if address == nowhere
    ));

    let deployer = derive_from_label("deployer").unwrap();
    let run = state
        .begin_genesis(GenesisState {
            deployer,
            gen_msgs: vec![SdkMsg::Instantiate {
                code_id: 1,
                msg: vec![],
                funds: vec![],
                label: "bank".to_string(),
                admin: None,
            }],
        })
        .unwrap();
    run_all(&mut state, run, || succeeded(WasmStorage::new())).unwrap();
    let bank = derive_from_label("bank").unwrap();
    assert!(matches!(
        state.handle_query(SdkQuery::WasmSmart { contract: bank.clone(), msg: b"q".to_vec() }),
        QueryStep::RunSmartQuery { contract, msg } if contract == bank && msg == b"q".to_vec()
    ));
}

#[test]
fn state_error_constructors() {
    assert!(matches!(
        StateError::account_not_found("a".to_string()),
        StateError::AccountNotFound { address } if address == "a"
    ));
    assert!(matches!(StateError::code_not_found(3), StateError::CodeNotFound { code_id: 3 }));
    assert!(matches!(
        StateError::contract_not_found("c".to_string()),
        StateError::ContractNotFound { address } if address == "c"
    ));
    assert_eq!(AddressGenerator::ByIds, AddressGenerator::ByIds);
}

// ---------------------------------------------------------------------------
// helpers, messages, the query route, sharing
// ---------------------------------------------------------------------------

#[test]
fn stringifying() {
    let coins = vec![
        Coin { denom: "uatom".to_string(), amount: 100 },
        Coin { denom: "uosmo".to_string(), amount: 5 },
    ];
    assert_eq!(stringify_coins(&coins), "100uatom,5uosmo");
    assert_eq!(stringify_coins(&[]), "");
    assert_eq!(
        stringify_coins(&[Coin { denom: "x".to_string(), amount: u128::MAX }]),
        format!("{}x", u128::MAX)
    );
    assert_eq!(stringify_option(Some("larry".to_string())), "larry");
    assert_eq!(stringify_option(None), "null");
    assert_eq!(number_text(0), "0");
    assert_eq!(number_text(u64::MAX), u64::MAX.to_string());
}

#[test]
fn page_limits() {
    assert_eq!(DEFAULT_LIMIT, 10);
    assert_eq!(MAX_LIMIT, 30);
    assert_eq!(page_limit(None), 10);
    assert_eq!(page_limit(Some(5)), 5);
    assert_eq!(page_limit(Some(30)), 30);
    assert_eq!(page_limit(Some(100)), 30);
}

#[test]
fn host_interface() {
    assert_eq!(WasmApi.canonical_address("larry"), b"larry".to_vec());
    assert!(matches!(WasmApi.human_address(b"larry"), Ok(s) if s == "larry"));
    assert!(matches!(
        WasmApi.human_address(&[0xff, 0xfe]),
        Err(HostError::UserErr(m)) if m == "invalid utf8"
    ));
    assert!(matches!(
        WasmQuerier.query_raw(b"{}", 100),
        HostError::UserErr(m) if m == "`querier.query_raw` is not yet implemented"
    ));
    assert_eq!(BackendApi.canonical_address("jake"), b"jake".to_vec());
    assert!(matches!(BackendApi.human_address(b"jake"), Ok(s) if s == "jake"));
    assert!(matches!(BackendApi.human_address(&[0xc0]), Err(HostError::UserErr(_))));
    assert!(matches!(BackendQuerier.query_raw(b"", 0), HostError::UserErr(_)));
    assert!(matches!(
        WasmError::unimplemented("ibc".to_string()),
        WasmError::Unimplemented { feature } if feature == "ibc"
    ));
    assert_eq!(contract_namespace(&"cw1abc".to_string()), b"contractcw1abc".to_vec());
}

#[test]
fn building_events() {
    let ev = Event::new("transfer".to_string())
        .add_attribute("from".to_string(), "a".to_string())
        .add_attributes(vec![
            Attribute { key: "to".to_string(), value: "b".to_string() },
            Attribute { key: "amount".to_string(), value: "1".to_string() },
        ]);
    assert_eq!(ev.ty, "transfer");
    let keys: Vec<&str> = ev.attributes.iter().map(|a| a.key.as_str()).collect();
    assert_eq!(keys, vec!["from", "to", "amount"]);
    let evs = prepend(Event::new("first".to_string()), vec![ev]);
    assert_eq!(evs.len(), 2);
    assert_eq!(evs[0].ty, "first");
    assert_eq!(evs[1].ty, "transfer");
}

#[test]
fn routing_queries() {
    assert_eq!(path_prefix("app/account"), "app");
    assert_eq!(path_prefix("store"), "store");
    assert_eq!(path_prefix(""), "");
    assert_eq!(path_prefix("/app"), "");
    assert!(matches!(route_query("app"), QueryRoute::App));
    assert!(matches!(route_query("store/key"), QueryRoute::Store));
    assert!(matches!(route_query("p2p/filter/addr"), QueryRoute::P2p));
    assert!(matches!(route_query("custom/x"), QueryRoute::Unsupported(p) if p == "custom"));
    assert!(reply_for_route(&QueryRoute::App).is_none());
    let r = reply_for_route(&QueryRoute::Store).unwrap();
    assert_eq!((r.code, r.log.as_str()), (1, "store query is not implemented yet"));
    let r = reply_for_route(&QueryRoute::P2p).unwrap();
    assert_eq!((r.code, r.log.as_str()), (0, "p2p query is not implemented yet"));
    let r = reply_for_route(&QueryRoute::Unsupported("custom".to_string())).unwrap();
    assert_eq!((r.code, r.log.as_str()), (1, "unsupported query path prefix: custom"));
    let r = reply_for_app(Ok(vec![1, 2]));
    assert_eq!((r.code, r.log.as_str(), r.value), (0, "", vec![1, 2]));
    let r = reply_for_app(Err("bad".to_string()));
    assert_eq!((r.code, r.log.as_str(), r.value), (1, "bad", vec![]));
}

#[test]
fn app_errors() {
    assert_eq!(AppError::Send.message(), "channel send error");
    let (tx, rx) = std::sync::mpsc::channel::<u8>();
    drop(tx);
    let e: AppError = rx.recv().unwrap_err().into();
    assert!(matches!(e, AppError::Recv(_)));
    assert_eq!(e.message(), "channel receive error: receiving on a closed channel");
}

#[test]
fn sharing_a_value() {
    let a = Shared::new(5u32);
    let b = a.share();
    assert_eq!(b.take(), Some(5));
    assert_eq!(a.take(), None);
    a.put(7);
    assert_eq!(b.take(), Some(7));
}

#[test]
fn string_maps() {
    let mut m: StrMap<u32> = StrMap::new();
    assert_eq!(m.get(&"a".to_string()), None);
    m.insert("a".to_string(), 1);
    m.insert("b".to_string(), 2);
    m.insert("a".to_string(), 3);
    assert_eq!(m.get(&"a".to_string()), Some(&3));
    assert_eq!(m.get(&"b".to_string()), Some(&2));
}

#[test]
fn validating_optional_addresses() {
    assert!(matches!(validate_optional_addr(None), Ok(None)));
    let bank = derive_from_label("bank").unwrap();
    assert!(matches!(validate_optional_addr(Some(&bank)), Ok(Some(a)) if a == bank));
    assert!(matches!(validate_optional_addr(Some(&"larry".to_string())), Err(AddressError::Bech32(_))));
}

#[test]
fn error_texts() {
    assert_eq!(
        AddressError::incorrect_prefix("cosmos".to_string()).message(),
        "incorrect address prefix: expecting cw, found cosmos"
    );
    assert_eq!(
        AddressError::incorrect_length(20).message(),
        "incorrect address length: expecting 32 bytes, found 20"
    );
    assert_eq!(
        AddressError::IncorrectVariant.message(),
        "incorrect address variant: expecting bech32, found bech32m"
    );
    assert_eq!(
        AddressError::recovered_mismatch("A".to_string(), "a".to_string()).message(),
        "address verification failed: input A, recovered a"
    );
    assert_eq!(
        AuthError::sequence_mismatch("s".to_string(), 2, 1).message(),
        "incorrect sequence number for sender s: expecting 2, found 1"
    );
    assert_eq!(
        AuthError::chain_id_mismatch("a".to_string(), "b".to_string()).message(),
        "incorrect chain id: expecting a, found b"
    );
    assert_eq!(
        AuthError::account_not_found("s".to_string()).message(),
        "pubkey for sender s is neither provided in the tx nor stored on-chain"
    );
    assert_eq!(
        AuthError::address_mismatch("a".to_string(), "b".to_string()).message(),
        "sender address does not match pubkey: expecting a, found b"
    );
    assert_eq!(
        AuthError::pubkey_mismatch("s".to_string(), &[1], &[2]).message(),
        "pubkey for sender s does not match: expecting 01, found 02"
    );
    assert_eq!(StateError::code_not_found(7).message(), "no wasm binary code found with id 7");
    assert_eq!(
        StateError::account_not_found("a".to_string()).message(),
        "no account found with address a"
    );
    assert_eq!(
        StateError::contract_not_found("c".to_string()).message(),
        "no contract found with address c"
    );
    assert_eq!(StateError::Contract("boom".to_string()).message(), "contract emitted error: boom");
    assert_eq!(StateError::Vm("trap".to_string()).message(), "trap");
    assert_eq!(
        StateError::FundsUnsupported.message(),
        "sending funds when instantiating or executing contracts is not supported yet"
    );
    assert_eq!(
        StateError::SubmessagesUnsupported.message(),
        "contract response includes submessages, which is not supported yet"
    );
    assert_eq!(StateError::MigrationUnsupported.message(), "migrating contracts is not supported yet");
    assert_eq!(
        StateError::Auth(AuthError::chain_id_mismatch("a".to_string(), "b".to_string())).message(),
        "incorrect chain id: expecting a, found b"
    );
    assert_eq!(
        WasmError::unimplemented("ibc".to_string()).message(),
        "contract uses a feature that is not yet implemented: ibc"
    );
    assert_eq!(ABCIError::Send.message(), "channel send error");
    assert_eq!(
        ABCIError::State(StateError::MigrationUnsupported).message(),
        "error while executing or querying the state machine: migrating contracts is not supported yet"
    );
    let e: ABCIError = StateError::FundsUnsupported.into();
    assert!(matches!(e, ABCIError::State(StateError::FundsUnsupported)));
    // the outside libraries write their own texts
    assert!(!validate("x").unwrap_err().message().is_empty());
}

#[test]
fn humanized_addresses_are_valid() {
    for seed in [0u8, 1, 7, 128, 255] {
        let bytes: Vec<u8> = (0..32u8).map(|i| i.wrapping_mul(31).wrapping_add(seed)).collect();
        let addr = humanize(&bytes).unwrap();
        assert_eq!(canonicalize(&addr).unwrap(), bytes);
        assert_eq!(validate(&addr).unwrap(), addr);
    }
    // bytes of another length make an address that canonicalize refuses
    let short = humanize(&[1, 2, 3]).unwrap();
    assert!(matches!(canonicalize(&short), Err(AddressError::IncorrectLength { expect: 32, found: 3 })));
}

/// Runs a message run to its terminal action, answering contract calls with
/// `outcome`.
fn run_to_end(state: &mut State, run: &mut cw_sdk::state::MsgRun, mut outcome: impl FnMut() -> VmOutcome) -> RunAction {
    loop {
        match state.step(run) {
            RunAction::Continue => {}
            RunAction::Instantiate { .. } | RunAction::Execute { .. } => match state.resume(run, outcome()) {
                RunAction::Continue => {}
                other => return other,
            },
            other => return other,
        }
    }
}

#[test]
fn contract_address_collisions_are_refused() {
    let mut state = chain();
    let deployer = derive_from_label("deployer").unwrap();
    let bank = || SdkMsg::Instantiate {
        code_id: 1,
        msg: vec![],
        funds: vec![],
        label: "bank".to_string(),
        admin: None,
    };
    let run = state
        .begin_genesis(GenesisState {
            deployer: deployer.clone(),
            gen_msgs: vec![SdkMsg::StoreCode { wasm_byte_code: b"code".to_vec() }, bank()],
        })
        .unwrap();
    run_all(&mut state, run, || succeeded(WasmStorage::new())).unwrap();
    assert_eq!(state.contract_count(), 1);

    // the same label derives the same address
    let run = state.begin_genesis(GenesisState { deployer: deployer.clone(), gen_msgs: vec![bank()] }).unwrap();
    let err = run_all(&mut state, run, || succeeded(WasmStorage::new())).unwrap_err();
    let addr = derive_from_label("bank").unwrap();
    assert!(matches!(&err, StateError::AccountFound { address } if *address == addr));
    assert_eq!(err.message(), format!("an account already exists at address {}", addr));
    assert_eq!(state.contract_count(), 1);

    // an account that sits at the next derived address
    let next = derive_from_ids(1, 2).unwrap();
    state.set_account(next.clone(), Account { pubkey: vec![2; 33], sequence: 0 });
    let alice = signer(6);
    let mut tx = tx_of(&alice, "cw-dev", 1, true, b"inst");
    tx.body.msgs = vec![SdkMsg::Instantiate { code_id: 1, msg: vec![], funds: vec![], label: "x".to_string(), admin: None }];
    let run = state.begin_tx(tx, b"inst").unwrap();
    let err = run_all(&mut state, run, || succeeded(WasmStorage::new())).unwrap_err();
    assert!(matches!(err, StateError::AccountFound { address } if address == next));
    assert!(state.query_contract(&next).is_err());
    assert_eq!(state.contract_count(), 1);
}

#[test]
fn checked_start_refuses_a_full_sequence_number() {
    let mut state = chain();
    let alice = signer(7);
    state.set_account(alice.address.clone(), Account { pubkey: alice.pubkey.clone(), sequence: u64::MAX });
    let tx = tx_of(&alice, "cw-dev", 5, false, b"b");
    assert!(state.begin_tx_checked(tx, b"b").is_none());
    // a check that fails earlier is answered as usual
    let tx = tx_of(&alice, "other-chain", 5, false, b"b");
    assert!(matches!(
        state.begin_tx_checked(tx, b"b"),
        Some(Err(StateError::Auth(AuthError::ChainIdMismatch { .. })))
    ));
    let bob = signer(8);
    let tx = tx_of(&bob, "cw-dev", 1, true, b"c");
    assert!(matches!(state.begin_tx_checked(tx, b"c"), Some(Ok(_))));
    assert_eq!(state.account(&bob.address).unwrap().sequence, 1);
}

#[test]
fn transactions_are_all_or_nothing_with_a_checkpoint() {
    let mut state = chain();
    let alice = signer(9);

    // a failing transaction: its stored code and the sequence number go
    let cp = state.checkpoint();
    let mut tx = tx_of(&alice, "cw-dev", 1, true, b"t1");
    tx.body.msgs = vec![
        SdkMsg::StoreCode { wasm_byte_code: b"code".to_vec() },
        SdkMsg::Migrate { contract: derive_from_label("x").unwrap(), code_id: 1, msg: vec![] },
    ];
    let mut run = state.begin_tx(tx, b"t1").unwrap();
    assert_eq!(state.code_count(), 0);
    let action = run_to_end(&mut state, &mut run, || panic!("no contract call"));
    assert_eq!(state.code_count(), 1);
    let r = state.end_tx(cp, action);
    assert!(matches!(r, Err(StateError::MigrationUnsupported)));
    assert_eq!(state.code_count(), 0);
    assert!(state.code(1).is_none());
    assert!(state.account(&alice.address).is_none());

    // a finishing one keeps everything
    let cp = state.checkpoint();
    let mut tx = tx_of(&alice, "cw-dev", 1, true, b"t2");
    tx.body.msgs = vec![SdkMsg::StoreCode { wasm_byte_code: b"code".to_vec() }];
    let mut run = state.begin_tx(tx, b"t2").unwrap();
    let action = run_to_end(&mut state, &mut run, || panic!("no contract call"));
    let events = state.end_tx(cp, action).unwrap();
    assert_eq!(events.len(), 1);
    assert_eq!(state.code_count(), 1);
    assert_eq!(state.account(&alice.address).unwrap().sequence, 1);
}

#[test]
fn duplicated_state_holds_the_same_values() {
    let mut state = chain();
    let alice = signer(10);
    state.set_account(alice.address.clone(), Account { pubkey: alice.pubkey.clone(), sequence: 4 });
    state.store_code(&alice.address, b"c1".to_vec());
    let mut copy = state.duplicate();
    assert_eq!(copy.account(&alice.address).unwrap().sequence, 4);
    assert_eq!(copy.code(1).unwrap().wasm_byte_code, b"c1".to_vec());
    copy.store_code(&alice.address, b"c2".to_vec());
    assert!(state.code(2).is_none());
    assert_eq!(copy.code_count(), 2);
}
