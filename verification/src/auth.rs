//! Transaction authentication: the sender's address, public key, chain id,
//! sequence number and signature.
use vstd::prelude::*;

use secp256k1::ecdsa::Signature;
use secp256k1::{Message, PublicKey, Secp256k1};

use crate::address::{
    address_error_text, derive_from_pubkey, pubkey_type, spec_humanize_prehash, spec_validate,
    validate, AddressError, AddressErrorView,
};
use crate::hash::{decimal, hex_encode, hex_lower, sha256, sha256_digest, u64_to_string};
use crate::msg::{Account, AccountView, Tx};
use crate::state::{str_to_string, State};
use vstd::utf8::encode_utf8;

verus! {

#[verifier::external_type_specification]
#[verifier::external_body]
pub struct ExSecpError(secp256k1::Error);

#[verifier::external_type_specification]
#[verifier::external_body]
pub struct ExSecpPublicKey(secp256k1::PublicKey);

#[verifier::external_type_specification]
#[verifier::external_body]
pub struct ExSecpMessage(secp256k1::Message);

#[verifier::external_type_specification]
#[verifier::external_body]
pub struct ExSecpSignature(secp256k1::ecdsa::Signature);

/// Whether `data` parses as a secp256k1 public key.
pub uninterp spec fn secp256k1_pubkey_parses(data: Seq<u8>) -> bool;

/// The order of the secp256k1 group.
pub open spec fn secp256k1_order() -> nat {
    0xFFFFFFFFFFFFFFFFFFFFFFFFFFFFFFFEBAAEDCE6AF48A03BBFD25E8CD0364141nat
}

/// The number that bytes spell in big-endian order.
pub open spec fn be_value(s: Seq<u8>) -> nat
    decreases s.len(),
{
    if s.len() == 0 {
        0
    } else {
        be_value(s.drop_last()) * 256 + s.last() as nat
    }
}

/// Whether `data` parses as a compact ECDSA signature: 64 bytes, whose two
/// 32-byte halves (r and s, big-endian) both lie below the group order.
pub open spec fn secp256k1_compact_signature_parses(data: Seq<u8>) -> bool {
    &&& data.len() == 64
    &&& be_value(data.subrange(0, 32)) < secp256k1_order()
    &&& be_value(data.subrange(32, 64)) < secp256k1_order()
}

/// Whether `signature` (compact bytes) is a valid ECDSA signature of the
/// 32-byte message `digest` under the public key whose bytes are `pubkey`.
pub uninterp spec fn secp256k1_verifies(digest: Seq<u8>, signature: Seq<u8>, pubkey: Seq<u8>) -> bool;

/// A parsed public key, with the bytes it was parsed from.
pub struct ParsedPubkey {
    key: PublicKey,
    bytes: Ghost<Seq<u8>>,
}

impl View for ParsedPubkey {
    type V = Seq<u8>;

    closed spec fn view(&self) -> Seq<u8> {
        self.bytes@
    }
}

/// A parsed compact signature, with the bytes it was parsed from.
pub struct ParsedSignature {
    sig: Signature,
    bytes: Ghost<Seq<u8>>,
}

impl View for ParsedSignature {
    type V = Seq<u8>;

    closed spec fn view(&self) -> Seq<u8> {
        self.bytes@
    }
}

/// A message to sign or verify, with its 32 bytes.
pub struct HashedMessage {
    message: Message,
    digest: Ghost<Seq<u8>>,
}

impl View for HashedMessage {
    type V = Seq<u8>;

    closed spec fn view(&self) -> Seq<u8> {
        self.digest@
    }
}

/// Parses a public key.
///
/// Trusted: calls `secp256k1::PublicKey::from_slice`. Claims that whether it
/// succeeds is a function of the bytes alone (named
/// `secp256k1_pubkey_parses`), that empty input is refused, as the source
/// does first thing, and keeps the bytes as the key's view.
#[verifier::external_body]
fn pubkey_from_slice(data: &[u8]) -> (r: Result<ParsedPubkey, secp256k1::Error>)
    ensures
        r is Ok <==> secp256k1_pubkey_parses(data@),
        data@.len() == 0 ==> r is Err,
        r matches Ok(k) ==> k@ == data@,
{
    match PublicKey::from_slice(data) {
        Ok(key) => Ok(ParsedPubkey { key, bytes: Ghost(data@) }),
        Err(e) => Err(e),
    }
}

/// Parses a compact ECDSA signature.
///
/// Trusted: calls `secp256k1::ecdsa::Signature::from_compact`, which refuses
/// input other than 64 bytes long and otherwise succeeds exactly when both
/// 32-byte halves, read big-endian, lie below the group order (libsecp256k1's
/// `ecdsa_signature_parse_compact` refuses an overflowing scalar). Keeps the
/// bytes as the signature's view.
#[verifier::external_body]
fn signature_from_compact(data: &[u8]) -> (r: Result<ParsedSignature, secp256k1::Error>)
    ensures
        r is Ok <==> secp256k1_compact_signature_parses(data@),
        r matches Ok(s) ==> s@ == data@,
{
    match Signature::from_compact(data) {
        Ok(sig) => Ok(ParsedSignature { sig, bytes: Ghost(data@) }),
        Err(e) => Err(e),
    }
}

/// The message made of a 32-byte digest.
///
/// Trusted: calls `secp256k1::Message::from_slice`, which accepts exactly the
/// 32-byte slices and keeps their bytes; the bytes are kept as the message's
/// view.
#[verifier::external_body]
fn message_from_digest(digest: &[u8]) -> (r: Result<HashedMessage, secp256k1::Error>)
    ensures
        r is Ok <==> digest@.len() == 32,
        r matches Ok(m) ==> m@ == digest@,
{
    match Message::from_slice(digest) {
        Ok(message) => Ok(HashedMessage { message, digest: Ghost(digest@) }),
        Err(e) => Err(e),
    }
}

/// Verifies an ECDSA signature of a message under a public key.
///
/// Trusted: calls `secp256k1::Secp256k1::verify_ecdsa` on a fresh context.
/// Claims that whether it succeeds is a function of the message's digest, the
/// signature's bytes and the key's bytes alone (named `secp256k1_verifies`):
/// libsecp256k1's `ecdsa_verify` reads nothing else.
#[verifier::external_body]
fn verify_ecdsa(msg: &HashedMessage, sig: &ParsedSignature, pk: &ParsedPubkey) -> (r: Result<
    (),
    secp256k1::Error,
>)
    ensures
        r is Ok <==> secp256k1_verifies(msg@, sig@, pk@),
{
    Secp256k1::new().verify_ecdsa(&msg.message, &sig.sig, &pk.key)
}

/// Why a transaction failed authentication.
#[derive(Debug)]
pub enum AuthError {
    Secp256k1(secp256k1::Error),
    Address(AddressError),
    /// The pubkey is neither given in the transaction nor stored on chain.
    AccountNotFound { sender: String },
    /// The sender does not match the address derived from the pubkey.
    AddressMismatch { expect: String, found: String },
    /// The pubkey in the transaction differs from the one on chain (both in
    /// hex).
    PubkeyMismatch { sender: String, expect: String, found: String },
    ChainIdMismatch { expect: String, found: String },
    /// `expect` is the stored sequence number plus one.
    SequenceMismatch { sender: String, expect: u64, found: u64 },
}

/// The mathematical value of an `AuthError` (the secp256k1 cause is left
/// out).
pub enum AuthErrorView {
    Secp256k1,
    Address(AddressErrorView),
    AccountNotFound { sender: Seq<char> },
    AddressMismatch { expect: Seq<char>, found: Seq<char> },
    PubkeyMismatch { sender: Seq<char>, expect: Seq<char>, found: Seq<char> },
    ChainIdMismatch { expect: Seq<char>, found: Seq<char> },
    SequenceMismatch { sender: Seq<char>, expect: u64, found: u64 },
}

impl View for AuthError {
    type V = AuthErrorView;

    open spec fn view(&self) -> AuthErrorView {
        match self {
            AuthError::Secp256k1(_) => AuthErrorView::Secp256k1,
            AuthError::Address(e) => AuthErrorView::Address(e@),
            AuthError::AccountNotFound { sender } => AuthErrorView::AccountNotFound {
                sender: sender@,
            },
            AuthError::AddressMismatch { expect, found } => AuthErrorView::AddressMismatch {
                expect: expect@,
                found: found@,
            },
            AuthError::PubkeyMismatch { sender, expect, found } => AuthErrorView::PubkeyMismatch {
                sender: sender@,
                expect: expect@,
                found: found@,
            },
            AuthError::ChainIdMismatch { expect, found } => AuthErrorView::ChainIdMismatch {
                expect: expect@,
                found: found@,
            },
            AuthError::SequenceMismatch { sender, expect, found } =>
                AuthErrorView::SequenceMismatch { sender: sender@, expect: *expect, found: *found },
        }
    }
}

impl AuthError {
    pub fn account_not_found(sender: String) -> (e: Self)
        ensures
            e@ == (AuthErrorView::AccountNotFound { sender: sender@ }),
    {
        AuthError::AccountNotFound { sender }
    }

    pub fn address_mismatch(expect: String, found: String) -> (e: Self)
        ensures
            e@ == (AuthErrorView::AddressMismatch { expect: expect@, found: found@ }),
    {
        AuthError::AddressMismatch { expect, found }
    }

    /// The pubkeys are written in hex.
    pub fn pubkey_mismatch(sender: String, expect: &[u8], found: &[u8]) -> (e: Self)
        ensures
            e@ == (AuthErrorView::PubkeyMismatch {
                sender: sender@,
                expect: hex_lower(expect@),
                found: hex_lower(found@),
            }),
    {
        AuthError::PubkeyMismatch { sender, expect: hex_encode(expect), found: hex_encode(found) }
    }

    pub fn chain_id_mismatch(expect: String, found: String) -> (e: Self)
        ensures
            e@ == (AuthErrorView::ChainIdMismatch { expect: expect@, found: found@ }),
    {
        AuthError::ChainIdMismatch { expect, found }
    }

    pub fn sequence_mismatch(sender: String, expect: u64, found: u64) -> (e: Self)
        ensures
            e@ == (AuthErrorView::SequenceMismatch { sender: sender@, expect, found }),
    {
        AuthError::SequenceMismatch { sender, expect, found }
    }

    /// The text of the error. That of a secp256k1 error, or of a bech32 error
    /// inside an address error, is the outside library's own text, of which
    /// nothing is stated.
    pub fn message(&self) -> (s: String)
        ensures
            auth_error_text(self@) matches Some(t) ==> s@ == t,
    {
        match self {
            AuthError::Secp256k1(e) => secp256k1_error_text(e),
            AuthError::Address(e) => e.message(),
            AuthError::AccountNotFound { sender } => {
                let mut s = str_to_string("pubkey for sender ");
                s.append(sender.as_str());
                s.append(" is neither provided in the tx nor stored on-chain");
                s
            },
            AuthError::AddressMismatch { expect, found } => {
                let mut s = str_to_string("sender address does not match pubkey: expecting ");
                s.append(expect.as_str());
                s.append(", found ");
                s.append(found.as_str());
                s
            },
            AuthError::PubkeyMismatch { sender, expect, found } => {
                let mut s = str_to_string("pubkey for sender ");
                s.append(sender.as_str());
                s.append(" does not match: expecting ");
                s.append(expect.as_str());
                s.append(", found ");
                s.append(found.as_str());
                s
            },
            AuthError::ChainIdMismatch { expect, found } => {
                let mut s = str_to_string("incorrect chain id: expecting ");
                s.append(expect.as_str());
                s.append(", found ");
                s.append(found.as_str());
                s
            },
            AuthError::SequenceMismatch { sender, expect, found } => {
                let mut s = str_to_string("incorrect sequence number for sender ");
                s.append(sender.as_str());
                s.append(": expecting ");
                s.append(u64_to_string(*expect).as_str());
                s.append(", found ");
                s.append(u64_to_string(*found).as_str());
                s
            },
        }
    }
}

/// The text of an authentication error, where this library writes it.
pub open spec fn auth_error_text(e: AuthErrorView) -> Option<Seq<char>> {
    match e {
        AuthErrorView::Secp256k1 => None,
        AuthErrorView::Address(a) => if a is Bech32 {
            None
        } else {
            Some(address_error_text(a))
        },
        AuthErrorView::AccountNotFound { sender } => Some(
            "pubkey for sender "@ + sender + " is neither provided in the tx nor stored on-chain"@,
        ),
        AuthErrorView::AddressMismatch { expect, found } => Some(
            "sender address does not match pubkey: expecting "@ + expect + ", found "@ + found,
        ),
        AuthErrorView::PubkeyMismatch { sender, expect, found } => Some(
            "pubkey for sender "@ + sender + " does not match: expecting "@ + expect + ", found "@
                + found,
        ),
        AuthErrorView::ChainIdMismatch { expect, found } => Some(
            "incorrect chain id: expecting "@ + expect + ", found "@ + found,
        ),
        AuthErrorView::SequenceMismatch { sender, expect, found } => Some(
            "incorrect sequence number for sender "@ + sender + ": expecting "@ + decimal(
                expect as nat,
            ) + ", found "@ + decimal(found as nat),
        ),
    }
}

/// The text of a secp256k1 error.
///
/// Trusted: formats the error with its `Display` impl; nothing is claimed of
/// the text.
#[verifier::external_body]
fn secp256k1_error_text(e: &secp256k1::Error) -> String {
    format!("{}", e)
}

/// The sender account as it stands before its sequence number is checked: the
/// stored one (whose pubkey must match a pubkey given in the transaction), or,
/// for a first transaction, the given pubkey (which must derive the sender's
/// address) with sequence number zero.
pub open spec fn spec_sender_account(state: &State, tx: &Tx) -> Result<AccountView, AuthErrorView> {
    let sender = tx.body.sender@;
    match state.spec_account(sender) {
        Some(a) => match tx.pubkey {
            Some(pk) => if a.pubkey != pk@ {
                Err(
                    AuthErrorView::PubkeyMismatch {
                        sender,
                        expect: hex_lower(a.pubkey),
                        found: hex_lower(pk@),
                    },
                )
            } else {
                Ok(a)
            },
            None => Ok(a),
        },
        None => match tx.pubkey {
            None => Err(AuthErrorView::AccountNotFound { sender }),
            Some(pk) => match spec_humanize_prehash(
                encode_utf8(pubkey_type()) + sha256_digest(pk@),
            ) {
                Err(e) => Err(AuthErrorView::Address(e)),
                Ok(derived) => if sender != derived {
                    Err(AuthErrorView::AddressMismatch { expect: derived, found: sender })
                } else {
                    Ok(AccountView { pubkey: pk@, sequence: 0 })
                },
            },
        },
    }
}

/// Every check of a transaction but its signature, and the account the
/// sender gets if it passes: the stored (or new) account with its sequence
/// number advanced by one.
pub open spec fn spec_check_tx(state: &State, tx: &Tx) -> Result<AccountView, AuthErrorView> {
    match spec_validate(tx.body.sender@) {
        Err(e) => Err(AuthErrorView::Address(e)),
        Ok(_) => match spec_sender_account(state, tx) {
            Err(e) => Err(e),
            Ok(a) => if state.spec_chain_id() != tx.body.chain_id@ {
                Err(
                    AuthErrorView::ChainIdMismatch {
                        expect: state.spec_chain_id(),
                        found: tx.body.chain_id@,
                    },
                )
            } else if a.sequence + 1 != tx.body.sequence {
                Err(
                    AuthErrorView::SequenceMismatch {
                        sender: tx.body.sender@,
                        expect: (a.sequence + 1) as u64,
                        found: tx.body.sequence,
                    },
                )
            } else {
                Ok(AccountView { pubkey: a.pubkey, sequence: (a.sequence + 1) as u64 })
            },
        },
    }
}

/// The checks of a transaction do not reach the point where the sender's
/// sequence number is advanced, or that number can be advanced: the sender's
/// address is refused, its account is refused, the chain id differs, or the
/// account's sequence number lies below the largest `u64`.
pub open spec fn sender_sequence_fits(state: &State, tx: &Tx) -> bool {
    match spec_validate(tx.body.sender@) {
        Err(_) => true,
        Ok(_) => match spec_sender_account(state, tx) {
            Err(_) => true,
            Ok(a) => state.spec_chain_id() != tx.body.chain_id@ || a.sequence < u64::MAX,
        },
    }
}

/// Whether the checks of `tx` would advance a sequence number that is
/// already the largest `u64`.
pub fn sequence_overflows(tx: &Tx, state: &State) -> (r: bool)
    requires
        state.wf(),
    ensures
        r == !sender_sequence_fits(state, tx),
{
    let sender_addr = match validate(tx.body.sender.as_str()) {
        Ok(a) => a,
        Err(_) => return false,
    };
    match state.account(&sender_addr) {
        // a new account starts at zero
        None => false,
        Some(account) => {
            if let Some(pubkey) = &tx.pubkey {
                if !bytes_equal(account.pubkey.as_slice(), pubkey.as_slice()) {
                    return false;
                }
            }
            account.sequence == u64::MAX && *state.chain_id() == tx.body.chain_id
        },
    }
}

/// Runs every check of a transaction but its signature (address, pubkey,
/// chain id, sequence number); returns the sender's address and its account
/// with the sequence number advanced.
pub fn check_tx(tx: &Tx, state: &State) -> (r: Result<(String, Account), AuthError>)
    requires
        state.wf(),
        sender_sequence_fits(state, tx),
    ensures
        match spec_check_tx(state, tx) {
            Ok(a) => r matches Ok((addr, acct)) && addr@ == tx.body.sender@ && acct@ == a,
            Err(e) => r matches Err(err) && err@ == e,
        },
{
    let sender = &tx.body.sender;
    let sender_addr = match validate(sender.as_str()) {
        Ok(a) => a,
        Err(e) => return Err(AuthError::Address(e)),
    };
    let mut account = match state.account(&sender_addr) {
        Some(account) => {
            match &tx.pubkey {
                Some(pubkey) => {
                    if !bytes_equal(account.pubkey.as_slice(), pubkey.as_slice()) {
                        return Err(
                            AuthError::pubkey_mismatch(
                                sender.clone(),
                                account.pubkey.as_slice(),
                                pubkey.as_slice(),
                            ),
                        );
                    }
                },
                None => {},
            }
            account
        },
        None => {
            let pubkey = match &tx.pubkey {
                Some(pk) => pk,
                None => return Err(AuthError::account_not_found(sender.clone())),
            };
            let address = match derive_from_pubkey(pubkey.as_slice()) {
                Ok(a) => a,
                Err(e) => return Err(AuthError::Address(e)),
            };
            if *sender != address {
                return Err(AuthError::address_mismatch(address, sender.clone()));
            }
            Account { pubkey: pubkey.clone(), sequence: 0 }
        },
    };
    if *state.chain_id() != tx.body.chain_id {
        return Err(AuthError::chain_id_mismatch(state.chain_id().clone(), tx.body.chain_id.clone()));
    }
    account.sequence = account.sequence + 1;
    if account.sequence != tx.body.sequence {
        return Err(AuthError::sequence_mismatch(sender.clone(), account.sequence, tx.body.sequence));
    }
    Ok((sender_addr, account))
}

/// The signature of a transaction holds: the key parses, the signature parses,
/// and it signs the SHA-256 digest of the body's bytes under that key.
pub open spec fn signature_holds(pubkey: Seq<u8>, signature: Seq<u8>, body_bytes: Seq<u8>) -> bool {
    &&& secp256k1_pubkey_parses(pubkey)
    &&& secp256k1_compact_signature_parses(signature)
    &&& secp256k1_verifies(sha256_digest(body_bytes), signature, pubkey)
}

/// Authenticates the signer's address, pubkey, signature, sequence number and
/// chain id, given the serialized transaction body `body_bytes` (what the
/// sender signed, through its SHA-256 hash). Returns the sender's address and
/// its account with the sequence number advanced.
///
/// Every check but the signature's decides as `spec_check_tx` says. A
/// transaction that passes them is accepted exactly when its signature holds
/// under the account's pubkey; otherwise the error is a secp256k1 one.
pub fn authenticate_tx(tx: &Tx, state: &State, body_bytes: &[u8]) -> (r: Result<
    (String, Account),
    AuthError,
>)
    requires
        state.wf(),
        sender_sequence_fits(state, tx),
    ensures
        match spec_check_tx(state, tx) {
            Err(e) => r matches Err(err) && err@ == e,
            Ok(a) => {
                &&& r is Ok <==> signature_holds(a.pubkey, tx.signature@, body_bytes@)
                &&& r matches Ok((addr, acct)) ==> addr@ == tx.body.sender@ && acct@ == a
                &&& r matches Err(err) ==> err@ == AuthErrorView::Secp256k1
            },
        },
{
    let (sender_addr, account) = check_tx(tx, state)?;
    let pubkey = match pubkey_from_slice(account.pubkey.as_slice()) {
        Ok(pk) => pk,
        Err(e) => return Err(AuthError::Secp256k1(e)),
    };
    let digest = sha256(body_bytes);
    let message = match message_from_digest(digest.as_slice()) {
        Ok(m) => m,
        Err(e) => return Err(AuthError::Secp256k1(e)),
    };
    let signature = match signature_from_compact(tx.signature.as_slice()) {
        Ok(s) => s,
        Err(e) => return Err(AuthError::Secp256k1(e)),
    };
    match verify_ecdsa(&message, &signature, &pubkey) {
        Ok(()) => Ok((sender_addr, account)),
        Err(e) => Err(AuthError::Secp256k1(e)),
    }
}

/// A transaction is not accepted twice: once the sender's account holds the
/// advanced sequence number that the transaction's checks produced (as
/// `State::begin_tx` stores it), the same transaction is refused with a
/// sequence mismatch that expects the next number.
pub proof fn law_replayed_tx_refused(before: &State, after: &State, tx: &Tx, advanced: AccountView)
    requires
        spec_check_tx(before, tx) == Ok::<AccountView, AuthErrorView>(advanced),
        after.spec_account(tx.body.sender@) == Some(advanced),
        after.spec_chain_id() == before.spec_chain_id(),
    ensures
        spec_check_tx(after, tx) == Err::<AccountView, AuthErrorView>(
            AuthErrorView::SequenceMismatch {
                sender: tx.body.sender@,
                expect: (tx.body.sequence + 1) as u64,
                found: tx.body.sequence,
            },
        ),
{
}

/// The first transaction of an account comes with sequence number 1: when
/// no account is stored for the sender, a transaction passes its checks only
/// with sequence number 1, and the account it creates holds that number.
pub proof fn law_first_tx_has_sequence_one(state: &State, tx: &Tx)
    requires
        state.spec_account(tx.body.sender@) is None,
        spec_check_tx(state, tx) is Ok,
    ensures
        tx.body.sequence == 1,
        spec_check_tx(state, tx)->Ok_0.sequence == 1,
{
}

/// A transaction that passes its checks comes from a valid address on this
/// chain, and the account it leaves holds the transaction's own sequence
/// number. When an account is stored for the sender, that number is exactly
/// the stored one plus one and the pubkey stays the stored one (a pubkey in
/// the transaction must equal it); otherwise the number is 1, the pubkey is
/// the one the transaction carries, and the sender's address is the one that
/// pubkey derives.
pub proof fn law_accepted_tx_advances_by_one(state: &State, tx: &Tx)
    requires
        spec_check_tx(state, tx) is Ok,
    ensures
        spec_validate(tx.body.sender@) is Ok,
        state.spec_chain_id() == tx.body.chain_id@,
        spec_check_tx(state, tx)->Ok_0.sequence == tx.body.sequence,
        match state.spec_account(tx.body.sender@) {
            Some(stored) => {
                &&& tx.body.sequence == stored.sequence + 1
                &&& spec_check_tx(state, tx)->Ok_0.pubkey == stored.pubkey
                &&& tx.pubkey matches Some(pk) ==> pk@ == stored.pubkey
            },
            None => {
                &&& tx.body.sequence == 1
                &&& tx.pubkey matches Some(pk) && spec_check_tx(state, tx)->Ok_0.pubkey == pk@
                    && spec_humanize_prehash(encode_utf8(pubkey_type()) + sha256_digest(pk@))
                    == Ok::<Seq<char>, AddressErrorView>(tx.body.sender@)
            },
        },
{
}

/// A transaction whose sequence number is not the stored one plus one is
/// refused with a sequence mismatch that names the number expected, once the
/// address, pubkey and chain id checks pass; a number above the expected one
/// is refused as well as one below it.
pub proof fn law_wrong_sequence_refused(state: &State, tx: &Tx)
    requires
        spec_validate(tx.body.sender@) is Ok,
        state.spec_account(tx.body.sender@) is Some,
        tx.pubkey matches Some(pk) ==> pk@ == state.spec_account(tx.body.sender@)->0.pubkey,
        state.spec_chain_id() == tx.body.chain_id@,
        tx.body.sequence != state.spec_account(tx.body.sender@)->0.sequence + 1,
    ensures
        spec_check_tx(state, tx) == Err::<AccountView, AuthErrorView>(
            AuthErrorView::SequenceMismatch {
                sender: tx.body.sender@,
                expect: (state.spec_account(tx.body.sender@)->0.sequence + 1) as u64,
                found: tx.body.sequence,
            },
        ),
{
}

/// Whether two byte strings are equal.
pub fn bytes_equal(a: &[u8], b: &[u8]) -> (r: bool)
    ensures
        r == (a@ == b@),
{
    if a.len() != b.len() {
        return false;
    }
    let mut i: usize = 0;
    while i < a.len()
        invariant
            a@.len() == b@.len(),
            i <= a@.len(),
            forall|j: int| 0 <= j < i ==> a@[j] == b@[j],
        decreases a.len() - i,
    {
        if a[i] != b[i] {
            return false;
        }
        i = i + 1;
    }
    assert(a@ =~= b@);
    true
}

} // verus!
