//! The rules of the JSON-RPC surface: how a request is read, which transactions
//! may come in, and which error goes back.
use vstd::prelude::*;
use vstd::utf8;

use crate::hexcodec;
use crate::hexcodec::{
    decode_or_empty,
    decode_prefixed,
    key_text,
    parse_address,
    prefixed_hex_of,
    strip_0x,
    RpcError,
    RpcFault,
};
use crate::keymap;
use crate::keymap::{key_is_zero, zero_key, Key};
use crate::mempool;
use crate::mempool::{AccessEntry, FeePayer, PendingPool, Transaction, TransactionType};
use crate::text;
use crate::text::{join, parse_number, push_decimal, str_eq, to_prefixed_hex};
use crate::words;
use crate::words::{decode_u128, encode_le, key_word, Word};

verus! {

/// The chain id of a development network.
pub const DEVNET_CHAIN_ID: u64 = 31337;

/// The gas of a simulated call that names none.
pub const CALL_GAS_DEFAULT: u64 = 100_000_000;

/// The most gas of a simulated call.
pub const CALL_GAS_CAP: u64 = 400_000_000;

/// How many simulated calls may run at a time.
pub const CALL_CONCURRENCY_LIMIT: usize = 8;

/// How many hashes of earlier blocks a simulated call sees.
pub const BLOCKHASH_WINDOW: u64 = 256;

/// How many nonces beyond the committed one may be in flight.
pub const WINDOW_SIZE: u64 = 16;

/// The gas of a plain transfer.
pub const BASE_TX_COST: u64 = 21_000;

/// The keys that an account's signatures are checked against.
#[derive(Debug)]
pub enum AuthKeys {
    Unset,
    Single(Vec<u8>),
    MultiSig { keys: Vec<Vec<u8>>, threshold: u8 },
}

/// An error.
pub fn rpc_err(code: i32, message: &str) -> (e: RpcError)
    ensures
        e@ == (code, message@),
{
    RpcError { code, message: message.to_owned() }
}

/// The gas of a simulated call: the default where none is named, and never more
/// than the cap.
pub fn clamp_call_gas(supplied: Option<u64>) -> (g: u64)
    ensures
        g == call_gas(supplied),
        g <= CALL_GAS_CAP,
{
    match supplied {
        None => CALL_GAS_DEFAULT,
        Some(g) => if g <= CALL_GAS_CAP {
            g
        } else {
            CALL_GAS_CAP
        },
    }
}

/// The gas of a simulated call.
pub open spec fn call_gas(supplied: Option<u64>) -> u64 {
    match supplied {
        None => CALL_GAS_DEFAULT,
        Some(g) => if g <= CALL_GAS_CAP {
            g
        } else {
            CALL_GAS_CAP
        },
    }
}

/// The chain id of a request: the node's where none is named; another one than
/// the node's is refused.
pub open spec fn request_chain_id(supplied: Option<u64>, node: u64) -> Result<u64, Seq<char>> {
    match supplied {
        None => Ok(node),
        Some(v) => if v == node {
            Ok(v)
        } else {
            Err(
                "chainId mismatch: tx claims "@ + text::decimal(v as nat) + " but node is on "@
                    + text::decimal(node as nat),
            )
        },
    }
}

/// The chain id of a request.
pub fn resolve_request_chain_id(supplied: Option<u64>, node_chain_id: u64) -> (r: Result<
    u64,
    String,
>)
    ensures
        text::with_text_error(r) == request_chain_id(supplied, node_chain_id),
{
    match supplied {
        None => Ok(node_chain_id),
        Some(v) => {
            if v == node_chain_id {
                return Ok(v);
            }
            let mut m = "chainId mismatch: tx claims ".to_owned();
            push_decimal(&mut m, v as u128);
            m.append(" but node is on ");
            push_decimal(&mut m, node_chain_id as u128);
            Err(m)
        },
    }
}

/// How the signature of an encrypted transaction is treated.
#[derive(Clone, Debug, PartialEq, Eq)]
pub enum EncryptedTxIngestPolicy {
    /// It is verified against this key of the sender.
    Verify(Vec<u8>),
    /// Only its form is looked at.
    StructuralOnly,
    /// The transaction is refused.
    Reject,
}

/// How the signature of an encrypted transaction is treated: verified where the
/// sender has a key, else refused, but for development networks.
pub open spec fn encrypted_policy(sender_pk: Option<Vec<u8>>, chain_id: u64)
    -> EncryptedTxIngestPolicy {
    match sender_pk {
        Some(pk) => EncryptedTxIngestPolicy::Verify(pk),
        None => if chain_id == DEVNET_CHAIN_ID {
            EncryptedTxIngestPolicy::StructuralOnly
        } else {
            EncryptedTxIngestPolicy::Reject
        },
    }
}

/// How the signature of an encrypted transaction is treated.
pub fn encrypted_tx_ingest_policy(sender_pk: Option<Vec<u8>>, chain_id: u64) -> (p:
    EncryptedTxIngestPolicy)
    ensures
        p == encrypted_policy(sender_pk, chain_id),
{
    match sender_pk {
        Some(pk) => EncryptedTxIngestPolicy::Verify(pk),
        None => if chain_id == DEVNET_CHAIN_ID {
            EncryptedTxIngestPolicy::StructuralOnly
        } else {
            EncryptedTxIngestPolicy::Reject
        },
    }
}

/// Why a sender with these keys may not submit, if it may not.
pub open spec fn auth_refusal(auth_keys: AuthKeys, chain_id: u64) -> Option<Seq<char>> {
    match auth_keys {
        AuthKeys::Single(_) => None,
        AuthKeys::Unset => if chain_id == DEVNET_CHAIN_ID {
            None
        } else {
            Some("sender has no registered auth_key (audit 226)"@)
        },
        AuthKeys::MultiSig { .. } => if chain_id == DEVNET_CHAIN_ID {
            None
        } else {
            Some("MultiSig auth_keys not yet enforced; rejecting on production (audit 304)"@)
        },
    }
}

/// Whether a sender with these keys may submit plaintext transactions.
pub fn plaintext_tx_ingest_policy(auth_keys: &AuthKeys, chain_id: u64) -> (r: Result<
    (),
    &'static str,
>)
    ensures
        match r {
            Ok(_) => auth_refusal(*auth_keys, chain_id) is None,
            Err(m) => auth_refusal(*auth_keys, chain_id) == Some(m@),
        },
{
    match auth_keys {
        AuthKeys::Single(_) => Ok(()),
        AuthKeys::Unset => if chain_id == DEVNET_CHAIN_ID {
            Ok(())
        } else {
            Err("sender has no registered auth_key (audit 226)")
        },
        AuthKeys::MultiSig { .. } => if chain_id == DEVNET_CHAIN_ID {
            Ok(())
        } else {
            Err("MultiSig auth_keys not yet enforced; rejecting on production (audit 304)")
        },
    }
}

/// Why a transaction with this fee payer is refused, if it is.
pub open spec fn fee_payer_refusal(fee_payer: FeePayer, chain_id: u64) -> Option<Seq<char>> {
    match fee_payer {
        FeePayer::Sender => None,
        FeePayer::Paymaster(_) => if chain_id == DEVNET_CHAIN_ID {
            None
        } else {
            Some("FeePayer::Paymaster not yet wired; rejecting on production (audit 305)"@)
        },
        FeePayer::GasTank(_) => if chain_id == DEVNET_CHAIN_ID {
            None
        } else {
            Some("FeePayer::GasTank not yet wired; rejecting on production (audit 305)"@)
        },
    }
}

/// Whether a transaction with this fee payer may come in.
pub fn fee_payer_ingest_policy(fee_payer: &FeePayer, chain_id: u64) -> (r: Result<
    (),
    &'static str,
>)
    ensures
        match r {
            Ok(_) => fee_payer_refusal(*fee_payer, chain_id) is None,
            Err(m) => fee_payer_refusal(*fee_payer, chain_id) == Some(m@),
        },
{
    match fee_payer {
        FeePayer::Sender => Ok(()),
        FeePayer::Paymaster(_) => if chain_id == DEVNET_CHAIN_ID {
            Ok(())
        } else {
            Err("FeePayer::Paymaster not yet wired; rejecting on production (audit 305)")
        },
        FeePayer::GasTank(_) => if chain_id == DEVNET_CHAIN_ID {
            Ok(())
        } else {
            Err("FeePayer::GasTank not yet wired; rejecting on production (audit 305)")
        },
    }
}

/// What the transaction validator found wrong.
#[derive(Clone, Copy, Debug, PartialEq, Eq, Structural)]
pub enum ValidationFailure {
    InvalidSignature,
    InvalidNonce,
    InsufficientBalance,
    WrongChainId,
    GasLimitTooLow,
    GasLimitTooHigh,
    DeadlineExpired,
    TxTooLarge,
    CalldataTooLarge,
    InvalidAccessList,
    Other,
}

/// The error code of a validation failure.
pub open spec fn validation_code(f: ValidationFailure) -> i32 {
    match f {
        ValidationFailure::InvalidSignature => -32001i32,
        ValidationFailure::InvalidNonce => -32002i32,
        ValidationFailure::InsufficientBalance => -32003i32,
        ValidationFailure::WrongChainId => -32004i32,
        ValidationFailure::GasLimitTooLow => -32005i32,
        ValidationFailure::GasLimitTooHigh => -32005i32,
        ValidationFailure::DeadlineExpired => -32006i32,
        ValidationFailure::TxTooLarge => -32007i32,
        ValidationFailure::CalldataTooLarge => -32007i32,
        ValidationFailure::InvalidAccessList => -32008i32,
        ValidationFailure::Other => -32000i32,
    }
}

/// Whether the validator skips the signature: on development networks only.
pub fn skips_signature(chain_id: u64) -> (r: bool)
    ensures
        r == (chain_id == DEVNET_CHAIN_ID),
{
    chain_id == DEVNET_CHAIN_ID
}

/// Why a transaction is refused at the door, if it is; `failure` is what the
/// validator found, with its description. Registering a first key is the one
/// thing that an account without keys may do.
pub open spec fn ingress_refusal(
    tx_type: TransactionType,
    auth_keys: AuthKeys,
    fee_payer: FeePayer,
    chain_id: u64,
    failure: Option<(ValidationFailure, Seq<char>)>,
) -> Option<RpcFault> {
    if tx_type != TransactionType::RegisterPubkey && auth_refusal(auth_keys, chain_id) is Some {
        Some((-32001i32, "ingress validation: "@ + auth_refusal(auth_keys, chain_id)->0))
    } else if fee_payer_refusal(fee_payer, chain_id) is Some {
        Some((-32001i32, "ingress validation: "@ + fee_payer_refusal(fee_payer, chain_id)->0))
    } else {
        match failure {
            Some(f) => Some((validation_code(f.0), "ingress validation: "@ + f.1)),
            None => None,
        }
    }
}

/// Whether a transaction may come in at all, given what the validator found.
pub fn ingress_validate(
    tx_type: TransactionType,
    auth_keys: &AuthKeys,
    fee_payer: &FeePayer,
    chain_id: u64,
    failure: Option<(ValidationFailure, String)>,
) -> (r: Result<(), RpcError>)
    ensures
        ({
            let f = match failure {
                Some(f) => Some((f.0, f.1@)),
                None => None,
            };
            match r {
                Ok(_) => ingress_refusal(tx_type, *auth_keys, *fee_payer, chain_id, f) is None,
                Err(e) => ingress_refusal(tx_type, *auth_keys, *fee_payer, chain_id, f) == Some(
                    e@,
                ),
            }
        }),
{
    if tx_type != TransactionType::RegisterPubkey {
        if let Err(m) = plaintext_tx_ingest_policy(auth_keys, chain_id) {
            return Err(RpcError { code: -32001, message: join("ingress validation: ", m) });
        }
    }
    if let Err(m) = fee_payer_ingest_policy(fee_payer, chain_id) {
        return Err(RpcError { code: -32001, message: join("ingress validation: ", m) });
    }
    match failure {
        Some(f) => {
            let code: i32 = match f.0 {
                ValidationFailure::InvalidSignature => -32001,
                ValidationFailure::InvalidNonce => -32002,
                ValidationFailure::InsufficientBalance => -32003,
                ValidationFailure::WrongChainId => -32004,
                ValidationFailure::GasLimitTooLow => -32005,
                ValidationFailure::GasLimitTooHigh => -32005,
                ValidationFailure::DeadlineExpired => -32006,
                ValidationFailure::TxTooLarge => -32007,
                ValidationFailure::CalldataTooLarge => -32007,
                ValidationFailure::InvalidAccessList => -32008,
                ValidationFailure::Other => -32000,
            };
            Err(RpcError { code, message: join("ingress validation: ", f.1.as_str()) })
        },
        None => Ok(()),
    }
}

/// The fields of a transaction or call object: each as far as it is there with
/// the expected type.
pub struct RequestObject {
    pub from: Option<String>,
    pub to: Option<String>,
    pub value: Option<String>,
    pub data: Option<String>,
    pub gas: Option<u64>,
    pub nonce: Option<u64>,
    pub tx_type: Option<String>,
    pub signature: Option<String>,
    pub chain_id: Option<u64>,
}

/// An optional text by its view.
pub open spec fn opt_text(s: Option<String>) -> Option<Seq<char>> {
    match s {
        Some(t) => Some(t@),
        None => None,
    }
}

/// The address in a field, where it is there.
pub open spec fn address_field(s: Option<String>) -> Result<Option<Key>, RpcFault> {
    match s {
        Some(t) => match hexcodec::address_of(t@) {
            Ok(k) => Ok(Some(k)),
            Err(f) => Err(f),
        },
        None => Ok(None),
    }
}

/// The address in a field, zero where it is not there.
pub open spec fn address_or_zero(s: Option<String>) -> Result<Key, RpcFault> {
    match address_field(s) {
        Ok(Some(k)) => Ok(k),
        Ok(None) => Ok(keymap::zeros()),
        Err(f) => Err(f),
    }
}

/// The bytes in a hex field; none where it is not there or not hex.
pub open spec fn bytes_field(s: Option<String>) -> Seq<u8> {
    match s {
        Some(t) => hexcodec::hex_or_empty(hexcodec::without_0x(utf8::encode_utf8(t@))),
        None => Seq::empty(),
    }
}

/// The number in a decimal field; zero where it is not there or not one.
pub open spec fn decimal_field(s: Option<String>) -> nat {
    match s {
        Some(t) => match text::number_in(utf8::encode_utf8(t@), 10, u128::MAX as nat) {
            Some(n) => n,
            None => 0,
        },
        None => 0,
    }
}

/// The number in a hex field; zero where it is not there or not one.
pub open spec fn hex_number_field(s: Option<String>) -> nat {
    match s {
        Some(t) => match text::number_in(
            hexcodec::without_0x(utf8::encode_utf8(t@)),
            16,
            u128::MAX as nat,
        ) {
            Some(n) => n,
            None => 0,
        },
        None => 0,
    }
}

fn read_address(s: &Option<String>) -> (r: Result<Option<Key>, RpcError>)
    ensures
        hexcodec::outcome(r) == address_field(*s),
{
    match s {
        Some(t) => match parse_address(t.as_str()) {
            Ok(k) => Ok(Some(k)),
            Err(e) => Err(e),
        },
        None => Ok(None),
    }
}

fn read_address_or_zero(s: &Option<String>) -> (r: Result<Key, RpcError>)
    ensures
        hexcodec::outcome(r) == address_or_zero(*s),
{
    match read_address(s) {
        Ok(Some(k)) => Ok(k),
        Ok(None) => Ok(zero_key()),
        Err(e) => Err(e),
    }
}

fn read_bytes(s: &Option<String>) -> (r: Vec<u8>)
    ensures
        r@ == bytes_field(*s),
{
    match s {
        Some(t) => decode_or_empty(strip_0x(t.as_str().as_bytes())),
        None => Vec::new(),
    }
}

fn read_decimal(s: &Option<String>) -> (r: u128)
    ensures
        r == decimal_field(*s),
{
    match s {
        Some(t) => match parse_number(t.as_str().as_bytes(), 10, u128::MAX) {
            Some(n) => n,
            None => 0,
        },
        None => 0,
    }
}

fn read_hex_number(s: &Option<String>) -> (r: u128)
    ensures
        r == hex_number_field(*s),
{
    match s {
        Some(t) => match parse_number(strip_0x(t.as_str().as_bytes()), 16, u128::MAX) {
            Some(n) => n,
            None => 0,
        },
        None => 0,
    }
}

fn or_default(v: Option<u64>, default: u64) -> (r: u64)
    ensures
        r == number_or(v, default),
{
    match v {
        Some(n) => n,
        None => default,
    }
}

/// A number, or what stands for it.
pub open spec fn number_or(v: Option<u64>, default: u64) -> u64 {
    match v {
        Some(n) => n,
        None => default,
    }
}

/// The transaction that a dev-mode request asks for, but for its nonce.
pub struct SendRequest {
    pub from: Key,
    pub to: Key,
    pub value: u128,
    pub data: Vec<u8>,
    pub gas_limit: u64,
    pub explicit_nonce: Option<u64>,
    pub tx_type: TransactionType,
}

/// The type of a requested transaction: the named one, else a deployment where
/// there is no recipient.
pub open spec fn requested_type(name: Option<Seq<char>>, to: Key) -> TransactionType {
    if name == Some("stakeDeposit"@) {
        TransactionType::StakeDeposit
    } else if name == Some("stakeWithdraw"@) {
        TransactionType::StakeWithdraw
    } else if name == Some("deploy"@) {
        TransactionType::Deploy
    } else if name == Some("slash"@) {
        TransactionType::Slash
    } else if keymap::all_zero(to) {
        TransactionType::Deploy
    } else {
        TransactionType::Standard
    }
}

fn read_tx_type(name: &Option<String>, to: &Key) -> (t: TransactionType)
    ensures
        t == requested_type(opt_text(*name), *to),
{
    if let Some(s) = name {
        let n = s.as_str();
        if str_eq(n, "stakeDeposit") {
            return TransactionType::StakeDeposit;
        }
        if str_eq(n, "stakeWithdraw") {
            return TransactionType::StakeWithdraw;
        }
        if str_eq(n, "deploy") {
            return TransactionType::Deploy;
        }
        if str_eq(n, "slash") {
            return TransactionType::Slash;
        }
    }
    if key_is_zero(to) {
        TransactionType::Deploy
    } else {
        TransactionType::Standard
    }
}

/// Why a dev-mode request is refused, if it is.
pub open spec fn send_fault(dev_mode: bool, o: RequestObject) -> Option<RpcFault> {
    if !dev_mode {
        Some(
            (
                -32601i32,
                "pyde_sendTransaction is only available in dev mode (--dev). Use pyde_sendRawTransaction with a signed transaction."@,
            ),
        )
    } else {
        match address_field(o.from) {
            Err(f) => Some(f),
            Ok(None) => Some((-32602i32, "missing 'from' field"@)),
            Ok(Some(_)) => match address_field(o.to) {
                Err(f) => Some(f),
                Ok(_) => None,
            },
        }
    }
}

/// Reads the object of a `pyde_sendTransaction` request.
pub fn parse_send_transaction(dev_mode: bool, o: &RequestObject) -> (r: Result<
    SendRequest,
    RpcError,
>)
    ensures
        match r {
            Ok(s) => {
                &&& send_fault(dev_mode, *o) is None
                &&& address_field(o.from) == Ok::<Option<Key>, RpcFault>(Some(s.from))
                &&& address_or_zero(o.to) == Ok::<Key, RpcFault>(s.to)
                &&& s.value == decimal_field(o.value)
                &&& s.data@ == bytes_field(o.data)
                &&& s.gas_limit == number_or(o.gas, BASE_TX_COST)
                &&& s.explicit_nonce == o.nonce
                &&& s.tx_type == requested_type(opt_text(o.tx_type), s.to)
            },
            Err(e) => send_fault(dev_mode, *o) == Some(e@),
        },
{
    if !dev_mode {
        return Err(
            rpc_err(
                -32601,
                "pyde_sendTransaction is only available in dev mode (--dev). Use pyde_sendRawTransaction with a signed transaction.",
            ),
        );
    }
    let from: Key = match read_address(&o.from) {
        Ok(Some(k)) => k,
        Ok(None) => {
            return Err(rpc_err(-32602, "missing 'from' field"));
        },
        Err(e) => {
            return Err(e);
        },
    };
    let to: Key = match read_address_or_zero(&o.to) {
        Ok(k) => k,
        Err(e) => {
            return Err(e);
        },
    };
    Ok(
        SendRequest {
            from,
            to,
            value: read_decimal(&o.value),
            data: read_bytes(&o.data),
            gas_limit: or_default(o.gas, BASE_TX_COST),
            explicit_nonce: o.nonce,
            tx_type: read_tx_type(&o.tx_type, &to),
        },
    )
}

/// Whether `tx` is the unsigned transaction of a request, with this nonce on this
/// chain.
pub open spec fn built_from(
    tx: Transaction,
    req: SendRequest,
    nonce: u64,
    chain_id: u64,
) -> bool {
    &&& tx.from == req.from
    &&& tx.to == req.to
    &&& tx.value == req.value
    &&& tx.data == req.data
    &&& tx.gas_limit == req.gas_limit
    &&& tx.nonce == nonce
    &&& tx.signature@.len() == 0
    &&& tx.fee_payer == FeePayer::Sender
    &&& tx.access_list@.len() == 0
    &&& tx.deadline is None
    &&& tx.chain_id == chain_id
    &&& tx.tx_type == req.tx_type
}

/// Builds the unsigned transaction of a request. Where the request names no
/// nonce, the pool picks one; `on_chain_nonce` is the sender's next on chain.
pub fn build_transaction(
    req: SendRequest,
    pool: &PendingPool,
    on_chain_nonce: u64,
    chain_id: u64,
) -> (tx: Transaction)
    requires
        pool.wf(),
    ensures
        built_from(tx, req, tx.nonce, chain_id),
        match req.explicit_nonce {
            Some(n) => tx.nonce == n,
            None => {
                &&& mempool::sent_by(pool@.txs, req.from) == Set::<Key>::empty() ==> tx.nonce
                    == mempool::automatic_nonce(None, on_chain_nonce)
                &&& mempool::sent_by(pool@.txs, req.from) != Set::<Key>::empty() ==> exists|p: u64|
                    #[trigger] mempool::is_greatest_nonce(pool@.txs, req.from, p) && tx.nonce
                        == mempool::automatic_nonce(Some(p), on_chain_nonce)
            },
        },
{
    let nonce: u64 = pool.next_nonce(&req.from, req.explicit_nonce, on_chain_nonce);
    Transaction {
        from: req.from,
        to: req.to,
        value: req.value,
        data: req.data,
        gas_limit: req.gas_limit,
        nonce,
        signature: Vec::new(),
        fee_payer: FeePayer::Sender,
        access_list: Vec::new(),
        deadline: None,
        chain_id,
        tx_type: req.tx_type,
    }
}

/// Takes a transaction into the pool after its ingress validation, and answers
/// with its hash.
pub fn submit_transaction(
    pool: &mut PendingPool,
    tx_hash: Key,
    tx: Transaction,
    ingress: Result<(), RpcError>,
    now: u64,
) -> (r: Result<String, RpcError>)
    requires
        old(pool).wf(),
    ensures
        final(pool).wf(),
        ({
            let fault = match ingress {
                Err(e) => Some(e@),
                Ok(_) => mempool::refusal(old(pool)@.txs, tx.from, tx.nonce),
            };
            match fault {
                Some(f) => r is Err && r->Err_0@ == f && final(pool)@ == old(pool)@,
                None => {
                    &&& r is Ok && r->Ok_0@ == hexcodec::prefixed_hex_text(tx_hash@)
                    &&& final(pool)@.txs == old(pool)@.txs.insert(tx_hash, tx)
                    &&& final(pool)@.times == old(pool)@.times.insert(tx_hash, now)
                    &&& final(pool)@.index == old(pool)@.index
                },
            }
        }),
{
    if let Err(e) = ingress {
        return Err(e);
    }
    match pool.submit(tx_hash, tx, now) {
        Ok(_) => Ok(key_text(&tx_hash)),
        Err(e) => Err(e),
    }
}

/// The bytes of a raw transaction in hex.
pub fn parse_raw_transaction(tx_hex: &str) -> (r: Result<Vec<u8>, RpcError>)
    ensures
        ({
            let b = hexcodec::without_0x(utf8::encode_utf8(tx_hex@));
            match r {
                Ok(v) => hexcodec::is_hex(b) && v@ == hexcodec::hex_bytes(b),
                Err(e) => !hexcodec::is_hex(b) && e@ == (
                    -32602i32,
                    "invalid tx hex: "@ + hexcodec::hex_error_text(b),
                ),
            }
        }),
{
    decode_prefixed(tx_hex, "invalid tx hex: ")
}

/// The error of a raw transaction that cannot be decoded.
pub fn invalid_tx_encoding(reason: &str) -> (e: RpcError)
    ensures
        e@ == (-32602i32, "invalid tx encoding: "@ + reason@),
{
    RpcError { code: -32602, message: join("invalid tx encoding: ", reason) }
}

/// A simulated call.
pub struct CallRequest {
    pub from: Key,
    pub to: Key,
    pub calldata: Vec<u8>,
    pub value: u128,
    pub gas_limit: u64,
}

/// The error of a node that already runs as many simulated calls as it may.
pub fn concurrency_gate(permit: bool) -> (r: Result<(), RpcError>)
    ensures
        hexcodec::outcome(r) == if permit {
            Ok::<(), RpcFault>(())
        } else {
            Err::<(), RpcFault>((-32000i32, "server busy: too many concurrent calls"@))
        },
{
    if permit {
        Ok(())
    } else {
        Err(rpc_err(-32000, "server busy: too many concurrent calls"))
    }
}

/// The methods that simulate a call.
#[derive(Clone, Copy, Debug, PartialEq, Eq, Structural)]
pub enum CallMethod {
    /// `pyde_call`, which has to name a recipient.
    Call,
    /// `pyde_estimateGas`.
    EstimateGas,
    /// `pyde_createAccessList`, the one that transfers a value.
    CreateAccessList,
}

/// Why a call object is refused, if it is: `to_required` says whether it has to
/// name a recipient.
pub open spec fn call_fault(o: RequestObject, to_required: bool) -> Option<RpcFault> {
    match address_field(o.from) {
        Err(f) => Some(f),
        Ok(_) => match address_field(o.to) {
            Err(f) => Some(f),
            Ok(None) => if to_required {
                Some((-32602i32, "missing 'to' for call"@))
            } else {
                None
            },
            Ok(Some(_)) => None,
        },
    }
}

/// Whether `c` is what a call object asks for.
pub open spec fn call_of(o: RequestObject, method: CallMethod, c: CallRequest) -> bool {
    &&& address_or_zero(o.from) == Ok::<Key, RpcFault>(c.from)
    &&& address_or_zero(o.to) == Ok::<Key, RpcFault>(c.to)
    &&& c.calldata@ == bytes_field(o.data)
    &&& c.value == if method == CallMethod::CreateAccessList {
        hex_number_field(o.value)
    } else {
        0
    }
    &&& c.gas_limit == call_gas(o.gas)
}

/// Reads the object of a simulated call.
pub fn parse_call(o: &RequestObject, method: CallMethod) -> (r: Result<CallRequest, RpcError>)
    ensures
        match r {
            Ok(c) => call_fault(*o, method == CallMethod::Call) is None && call_of(*o, method, c),
            Err(e) => call_fault(*o, method == CallMethod::Call) == Some(e@),
        },
{
    let from: Key = match read_address_or_zero(&o.from) {
        Ok(k) => k,
        Err(e) => {
            return Err(e);
        },
    };
    let to: Key = match read_address(&o.to) {
        Ok(Some(k)) => k,
        Ok(None) => {
            if method == CallMethod::Call {
                return Err(rpc_err(-32602, "missing 'to' for call"));
            }
            zero_key()
        },
        Err(e) => {
            return Err(e);
        },
    };
    Ok(
        CallRequest {
            from,
            to,
            calldata: read_bytes(&o.data),
            value: if method == CallMethod::CreateAccessList {
                read_hex_number(&o.value)
            } else {
                0
            },
            gas_limit: clamp_call_gas(o.gas),
        },
    )
}

/// How a simulated call ended.
pub enum CallOutcome {
    /// There is no code at the address.
    NoCode,
    /// The code could not be loaded, and why.
    LoadFailed(String),
    /// The execution failed, and how.
    Failed(String),
    /// The two result registers, and the bytes in memory that `returned_range`
    /// says they name.
    Returned { r1: u64, r2: u64, memory: Vec<u8> },
}

/// Where in memory the result of a call lies, by its two result registers: at the
/// first one, as long as the second one says. Where the second one is zero, the
/// result is the first register itself.
pub fn returned_range(r1: u64, r2: u64) -> (r: Option<(u64, u64)>)
    ensures
        r == (if r2 > 0 {
            Some((r1, r2))
        } else {
            None
        }),
{
    if r2 > 0 {
        Some((r1, r2))
    } else {
        None
    }
}

/// The answer to `pyde_call`.
pub open spec fn call_answer(o: CallOutcome) -> Result<Seq<char>, RpcFault> {
    match o {
        CallOutcome::NoCode => Err((-32000i32, "no code at address"@)),
        CallOutcome::LoadFailed(d) => Err((-32000i32, "failed to load code: "@ + d@)),
        CallOutcome::Failed(d) => Err((-32000i32, "execution failed: "@ + d@)),
        CallOutcome::Returned { r1, r2, memory } => Ok(
            hexcodec::prefixed_hex_text(
                if r2 > 0 {
                    memory@
                } else {
                    words::le_bytes(r1 as nat, 8)
                },
            ),
        ),
    }
}

/// A result with both sides by their views.
pub open spec fn text_outcome(r: Result<String, RpcError>) -> Result<Seq<char>, RpcFault> {
    match r {
        Ok(s) => Ok(s@),
        Err(e) => Err(e@),
    }
}

/// The answer to `pyde_call`.
pub fn call_result(o: CallOutcome) -> (r: Result<String, RpcError>)
    ensures
        text_outcome(r) == call_answer(o),
{
    match o {
        CallOutcome::NoCode => Err(rpc_err(-32000, "no code at address")),
        CallOutcome::LoadFailed(d) => Err(
            RpcError { code: -32000, message: join("failed to load code: ", d.as_str()) },
        ),
        CallOutcome::Failed(d) => Err(
            RpcError { code: -32000, message: join("execution failed: ", d.as_str()) },
        ),
        CallOutcome::Returned { r1, r2, memory } => match returned_range(r1, r2) {
            Some(_) => Ok(prefixed_hex_of(memory.as_slice())),
            None => {
                let b = encode_le(r1, 8);
                Ok(prefixed_hex_of(b.as_slice()))
            },
        },
    }
}

/// The gas of a deployment: a base cost, and sixteen for each byte.
pub open spec fn deploy_gas(data_len: nat) -> nat {
    32_000 + data_len * 16
}

/// The estimate for a call whose simulation used `gas_used`: the base cost on
/// top, and a margin of a tenth.
pub open spec fn estimated_gas(gas_used: u64) -> nat {
    if gas_used == 0 {
        BASE_TX_COST as nat
    } else {
        (BASE_TX_COST + gas_used + gas_used / 10) as nat
    }
}

/// The gas estimate that needs no simulation, if there is one: for a deployment
/// and for a plain transfer.
pub fn estimate_without_simulation(call: &CallRequest, has_code: bool) -> (r: Option<String>)
    ensures
        match r {
            Some(s) => if keymap::all_zero(call.to) {
                s@ == text::prefixed_hex(deploy_gas(call.calldata@.len()))
            } else {
                !has_code && s@ == text::prefixed_hex(BASE_TX_COST as nat)
            },
            None => !keymap::all_zero(call.to) && has_code,
        },
{
    if key_is_zero(&call.to) {
        return Some(to_prefixed_hex(32_000 + call.calldata.len() as u128 * 16));
    }
    if !has_code {
        return Some(to_prefixed_hex(BASE_TX_COST as u128));
    }
    None
}

/// What the access list of a call is made of.
#[derive(Clone, Copy, Debug, PartialEq, Eq)]
pub enum AccessListStep {
    /// A deployment, which touches nothing yet.
    Deployment,
    /// A plain transfer between two balances.
    Transfer,
    /// What a simulation of the call touches.
    Simulation,
}

/// What the access list of a call is made of: a call to the zero address is a
/// deployment, and one to an address without code a transfer.
pub fn access_list_step(call: &CallRequest, has_code: bool) -> (r: AccessListStep)
    ensures
        r == (if keymap::all_zero(call.to) {
            AccessListStep::Deployment
        } else if !has_code {
            AccessListStep::Transfer
        } else {
            AccessListStep::Simulation
        }),
{
    if key_is_zero(&call.to) {
        AccessListStep::Deployment
    } else if !has_code {
        AccessListStep::Transfer
    } else {
        AccessListStep::Simulation
    }
}

/// The gas estimate after a simulation.
pub fn estimate_after_simulation(gas_used: u64) -> (s: String)
    ensures
        s@ == text::prefixed_hex(estimated_gas(gas_used)),
{
    if gas_used == 0 {
        to_prefixed_hex(BASE_TX_COST as u128)
    } else {
        to_prefixed_hex(BASE_TX_COST as u128 + gas_used as u128 + (gas_used / 10) as u128)
    }
}

/// What a simulated call sees of the chain.
pub struct CallBlockContext {
    pub block_number: u64,
    pub timestamp: u64,
    pub proposer: Key,
    /// The hashes of earlier blocks, newest first.
    pub block_hashes: Vec<Word>,
}

/// How many earlier slots a simulated call at the head sees.
pub open spec fn hash_window(is_genesis: bool, head_slot: u64) -> nat {
    if is_genesis {
        0
    } else if head_slot <= BLOCKHASH_WINDOW {
        head_slot as nat
    } else {
        BLOCKHASH_WINDOW as nat
    }
}

/// How many earlier slots a simulated call at the head sees.
pub fn hash_window_len(is_genesis: bool, head_slot: u64) -> (n: u64)
    ensures
        n == hash_window(is_genesis, head_slot),
{
    if is_genesis {
        0
    } else if head_slot <= BLOCKHASH_WINDOW {
        head_slot
    } else {
        BLOCKHASH_WINDOW
    }
}

/// The earlier slots that a simulated call at the head sees, newest first.
pub fn hash_window_slots(is_genesis: bool, head_slot: u64) -> (r: Vec<u64>)
    ensures
        r@ == Seq::new(hash_window(is_genesis, head_slot), |i: int| (head_slot - 1 - i) as u64),
{
    let n: u64 = hash_window_len(is_genesis, head_slot);
    let mut out: Vec<u64> = Vec::new();
    let mut i: u64 = 0;
    while i < n
        invariant
            i <= n <= head_slot,
            out@ == Seq::new(i as nat, |j: int| (head_slot - 1 - j) as u64),
        decreases n - i,
    {
        out.push(head_slot - 1 - i);
        i = i + 1;
        assert(out@ =~= Seq::new(i as nat, |j: int| (head_slot - 1 - j) as u64));
    }
    out
}

/// The hash of an earlier slot: from memory, else from disk, else zero.
pub open spec fn known_hash(found: (Option<Key>, Option<Key>)) -> Key {
    match found.0 {
        Some(h) => h,
        None => match found.1 {
            Some(h) => h,
            None => keymap::zeros(),
        },
    }
}

/// The head's timestamp and proposer: from memory, else from disk, else zero.
pub open spec fn known_head(memory: Option<(u64, Key)>, disk: Option<(u64, Key)>) -> (u64, Key) {
    match memory {
        Some(h) => h,
        None => match disk {
            Some(h) => h,
            None => (0, keymap::zeros()),
        },
    }
}

/// Puts the block context of a simulated call together. `recent` has the hashes
/// of the `hash_window_slots`, in their order, as far as memory and disk know them.
pub fn build_call_block_context(
    is_genesis: bool,
    head_slot: u64,
    memory: Option<(u64, Key)>,
    disk: Option<(u64, Key)>,
    recent: &Vec<(Option<Key>, Option<Key>)>,
) -> (r: CallBlockContext)
    requires
        recent@.len() == hash_window(is_genesis, head_slot),
    ensures
        is_genesis ==> r.block_number == 0 && r.timestamp == 0 && r.proposer == keymap::zeros(),
        !is_genesis ==> r.block_number == head_slot && (r.timestamp, r.proposer) == known_head(
            memory,
            disk,
        ),
        r.block_hashes@.len() == hash_window(is_genesis, head_slot),
        forall|i: int|
            0 <= i < r.block_hashes@.len() ==> #[trigger] r.block_hashes@[i] == words::word_of(
                known_hash(recent@[i]),
            ),
{
    if is_genesis {
        return CallBlockContext {
            block_number: 0,
            timestamp: 0,
            proposer: zero_key(),
            block_hashes: Vec::new(),
        };
    }
    let head: (u64, Key) = match memory {
        Some(h) => h,
        None => match disk {
            Some(h) => h,
            None => (0, zero_key()),
        },
    };
    let mut hashes: Vec<Word> = Vec::new();
    let mut i: usize = 0;
    while i < recent.len()
        invariant
            i <= recent@.len(),
            hashes@.len() == i,
            forall|j: int|
                0 <= j < i ==> #[trigger] hashes@[j] == words::word_of(known_hash(recent@[j])),
        decreases recent@.len() - i,
    {
        let h: Key = match recent[i].0 {
            Some(k) => k,
            None => match recent[i].1 {
                Some(k) => k,
                None => zero_key(),
            },
        };
        hashes.push(key_word(&h));
        i = i + 1;
    }
    CallBlockContext {
        block_number: head_slot,
        timestamp: head.0,
        proposer: head.1,
        block_hashes: hashes,
    }
}

/// The block that a simulated transaction runs in.
#[derive(Clone, Copy, Debug)]
pub struct BlockContext {
    pub height: u64,
    pub timestamp: u64,
    pub base_fee: u128,
    pub block_gas_limit: u64,
    pub chain_id: u64,
    pub validator_address: Key,
    pub dev_skip_signature: bool,
    pub block_sigs_pre_verified: bool,
}

/// The state of the chain that a simulated transaction runs at.
#[derive(Clone, Copy, Debug)]
pub struct ChainHead {
    pub head_slot: u64,
    pub base_fee: u128,
    pub chain_id: u64,
    pub block_gas_limit: u64,
}

/// Reads a call object as an unsigned transaction, with the block that it would
/// run in at the head: slots are counted as 400 milliseconds each.
pub fn parse_call_object(o: &RequestObject, chain: &ChainHead) -> (r: Result<
    (Transaction, BlockContext),
    RpcError,
>)
    requires
        chain.head_slot * 400 <= u64::MAX,
    ensures
        match r {
            Ok(p) => {
                &&& call_fault(*o, false) is None
                &&& address_or_zero(o.from) == Ok::<Key, RpcFault>(p.0.from)
                &&& address_or_zero(o.to) == Ok::<Key, RpcFault>(p.0.to)
                &&& p.0.value == decimal_field(o.value)
                &&& p.0.data@ == bytes_field(o.data)
                &&& p.0.gas_limit == number_or(o.gas, 1_000_000)
                &&& p.0.nonce == 0
                &&& p.0.signature@.len() == 0
                &&& p.0.fee_payer == FeePayer::Sender
                &&& p.0.access_list@.len() == 0
                &&& p.0.deadline is None
                &&& p.0.chain_id == chain.chain_id
                &&& p.0.tx_type == TransactionType::Standard
                &&& p.1 == (BlockContext {
                    height: chain.head_slot,
                    timestamp: (chain.head_slot * 400) as u64,
                    base_fee: chain.base_fee,
                    block_gas_limit: chain.block_gas_limit,
                    chain_id: chain.chain_id,
                    validator_address: keymap::zeros(),
                    dev_skip_signature: false,
                    block_sigs_pre_verified: false,
                })
            },
            Err(e) => call_fault(*o, false) == Some(e@),
        },
{
    let from: Key = match read_address_or_zero(&o.from) {
        Ok(k) => k,
        Err(e) => {
            return Err(e);
        },
    };
    let to: Key = match read_address_or_zero(&o.to) {
        Ok(k) => k,
        Err(e) => {
            return Err(e);
        },
    };
    let tx = Transaction {
        from,
        to,
        value: read_decimal(&o.value),
        data: read_bytes(&o.data),
        gas_limit: or_default(o.gas, 1_000_000),
        nonce: 0,
        signature: Vec::new(),
        fee_payer: FeePayer::Sender,
        access_list: Vec::new(),
        deadline: None,
        chain_id: chain.chain_id,
        tx_type: TransactionType::Standard,
    };
    let block = BlockContext {
        height: chain.head_slot,
        timestamp: chain.head_slot * 400,
        base_fee: chain.base_fee,
        block_gas_limit: chain.block_gas_limit,
        chain_id: chain.chain_id,
        validator_address: zero_key(),
        dev_skip_signature: false,
        block_sigs_pre_verified: false,
    };
    Ok((tx, block))
}

/// A transaction that the node is to encrypt for its sender.
pub struct EncryptedRequest {
    pub from: Key,
    pub to: Key,
    pub value: u128,
    pub data: Vec<u8>,
    pub gas_limit: u64,
    pub nonce: u64,
    pub signature: Vec<u8>,
    pub chain_id: u64,
    pub access_list: Vec<AccessEntry>,
}

/// Why a request for encryption is refused, if it is.
pub open spec fn encryption_fault(
    configured: bool,
    o: RequestObject,
    node_chain_id: u64,
) -> Option<RpcFault> {
    if !configured {
        Some((-32000i32, "threshold encryption not configured"@))
    } else {
        match address_field(o.from) {
            Err(f) => Some(f),
            Ok(_) => match address_field(o.to) {
                Err(f) => Some(f),
                Ok(_) => match request_chain_id(o.chain_id, node_chain_id) {
                    Err(m) => Some((-32602i32, m)),
                    Ok(_) => None,
                },
            },
        }
    }
}

/// Reads the object of a `pyde_sendEncryptedTransaction` request. The access
/// list names the recipient, or the sender of a deployment.
pub fn parse_encrypted_request(configured: bool, o: &RequestObject, node_chain_id: u64) -> (r:
    Result<EncryptedRequest, RpcError>)
    ensures
        match r {
            Ok(e) => {
                &&& encryption_fault(configured, *o, node_chain_id) is None
                &&& address_or_zero(o.from) == Ok::<Key, RpcFault>(e.from)
                &&& address_or_zero(o.to) == Ok::<Key, RpcFault>(e.to)
                &&& e.value == decimal_field(o.value)
                &&& e.data@ == bytes_field(o.data)
                &&& e.gas_limit == number_or(o.gas, 100_000)
                &&& e.nonce == number_or(o.nonce, 0)
                &&& e.signature@ == bytes_field(o.signature)
                &&& e.chain_id == node_chain_id
                &&& e.access_list@.len() == 1
                &&& e.access_list@[0].address == if keymap::all_zero(e.to) {
                    e.from
                } else {
                    e.to
                }
                &&& e.access_list@[0].reads@.len() == 0
                &&& e.access_list@[0].writes@.len() == 0
            },
            Err(e) => encryption_fault(configured, *o, node_chain_id) == Some(e@),
        },
{
    if !configured {
        return Err(rpc_err(-32000, "threshold encryption not configured"));
    }
    let from: Key = match read_address_or_zero(&o.from) {
        Ok(k) => k,
        Err(e) => {
            return Err(e);
        },
    };
    let to: Key = match read_address_or_zero(&o.to) {
        Ok(k) => k,
        Err(e) => {
            return Err(e);
        },
    };
    let chain_id: u64 = match resolve_request_chain_id(o.chain_id, node_chain_id) {
        Ok(c) => c,
        Err(m) => {
            return Err(RpcError { code: -32602, message: m });
        },
    };
    let target: Key = if key_is_zero(&to) {
        from
    } else {
        to
    };
    let mut access_list: Vec<AccessEntry> = Vec::new();
    access_list.push(AccessEntry { address: target, reads: Vec::new(), writes: Vec::new() });
    Ok(
        EncryptedRequest {
            from,
            to,
            value: read_decimal(&o.value),
            data: read_bytes(&o.data),
            gas_limit: or_default(o.gas, 100_000),
            nonce: or_default(o.nonce, 0),
            signature: read_bytes(&o.signature),
            chain_id,
            access_list,
        },
    )
}

/// The error of an encryption that failed.
pub fn encryption_failed(reason: &str) -> (e: RpcError)
    ensures
        e@ == (-32000i32, "encryption failed: "@ + reason@),
{
    RpcError { code: -32000, message: join("encryption failed: ", reason) }
}

/// The bytes of a raw encrypted transaction in hex.
pub fn parse_raw_encrypted(tx_hex: &str) -> (r: Result<Vec<u8>, RpcError>)
    ensures
        ({
            let b = hexcodec::without_0x(utf8::encode_utf8(tx_hex@));
            match r {
                Ok(v) => hexcodec::is_hex(b) && v@ == hexcodec::hex_bytes(b),
                Err(e) => !hexcodec::is_hex(b) && e@ == (
                    -32602i32,
                    "invalid hex: "@ + hexcodec::hex_error_text(b),
                ),
            }
        }),
{
    decode_prefixed(tx_hex, "invalid hex: ")
}

/// The error of a raw encrypted transaction that cannot be decoded.
pub fn invalid_encrypted_encoding() -> (e: RpcError)
    ensures
        e@ == (-32602i32, "invalid EncryptedTx wire format"@),
{
    rpc_err(-32602, "invalid EncryptedTx wire format")
}

/// Why the nonce of an encrypted transaction is refused, if it is: it lies beyond
/// the window that starts at the committed nonce, or below it. Where the window
/// would reach past the last nonce there is no upper end, and where no nonce is
/// committed there is no window.
pub open spec fn window_refusal(nonce: u64, committed: Option<u64>) -> Option<RpcFault> {
    match committed {
        None => None,
        Some(base) => if base + WINDOW_SIZE <= u64::MAX && nonce >= base + WINDOW_SIZE {
            Some(
                (
                    -32008i32,
                    "encrypted-tx nonce "@ + text::decimal(nonce as nat)
                        + " is past the in-flight window ["@ + text::decimal(base as nat) + ", "@
                        + text::decimal((base + WINDOW_SIZE) as nat)
                        + "); submit when prior nonces commit"@,
                ),
            )
        } else if nonce < base {
            Some(
                (
                    -32008i32,
                    "encrypted-tx nonce "@ + text::decimal(nonce as nat)
                        + " is below the chain's committed nonce "@ + text::decimal(base as nat),
                ),
            )
        } else {
            None
        },
    }
}

/// Whether the nonce of an encrypted transaction is in the window.
pub fn check_nonce_window(nonce: u64, committed: Option<u64>) -> (r: Result<(), RpcError>)
    ensures
        match r {
            Ok(_) => window_refusal(nonce, committed) is None,
            Err(e) => window_refusal(nonce, committed) == Some(e@),
        },
{
    if let Some(base) = committed {
        if let Some(end) = base.checked_add(WINDOW_SIZE) {
            if nonce >= end {
                let mut m = "encrypted-tx nonce ".to_owned();
                push_decimal(&mut m, nonce as u128);
                m.append(" is past the in-flight window [");
                push_decimal(&mut m, base as u128);
                m.append(", ");
                push_decimal(&mut m, end as u128);
                m.append("); submit when prior nonces commit");
                return Err(RpcError { code: -32008, message: m });
            }
        }
        if nonce < base {
            let mut m = "encrypted-tx nonce ".to_owned();
            push_decimal(&mut m, nonce as u128);
            m.append(" is below the chain's committed nonce ");
            push_decimal(&mut m, base as u128);
            return Err(RpcError { code: -32008, message: m });
        }
    }
    Ok(())
}

/// What the relay did with an encrypted transaction.
#[derive(Clone, Copy, Debug, PartialEq, Eq, Structural)]
pub enum RelayVerdict {
    /// It was not handed over: the sender has no key.
    NoKey,
    /// It was handed over and not taken.
    NotTaken,
    Taken,
}

/// The answer to the submission of an encrypted transaction.
pub open spec fn encrypted_answer(verdict: RelayVerdict, tx_hash: Key) -> Result<
    Seq<char>,
    RpcFault,
> {
    match verdict {
        RelayVerdict::NoKey => Err(
            (
                -32001i32,
                "encrypted-tx sender has no registered auth_key; register one before submitting"@,
            ),
        ),
        RelayVerdict::NotTaken => Err(
            (
                -32000i32,
                "tx rejected (duplicate, rate-limited, or signature failed verification)"@,
            ),
        ),
        RelayVerdict::Taken => Ok(hexcodec::prefixed_hex_text(tx_hash@)),
    }
}

/// The answer to the submission of an encrypted transaction.
pub fn encrypted_result(verdict: RelayVerdict, tx_hash: &Key) -> (r: Result<String, RpcError>)
    ensures
        text_outcome(r) == encrypted_answer(verdict, *tx_hash),
{
    match verdict {
        RelayVerdict::NoKey => Err(
            rpc_err(
                -32001,
                "encrypted-tx sender has no registered auth_key; register one before submitting",
            ),
        ),
        RelayVerdict::NotTaken => Err(
            rpc_err(
                -32000,
                "tx rejected (duplicate, rate-limited, or signature failed verification)",
            ),
        ),
        RelayVerdict::Taken => Ok(key_text(tx_hash)),
    }
}

/// The committee's public key in hex, where there is one.
pub fn threshold_public_key(key: Option<Vec<u8>>) -> (r: Result<String, RpcError>)
    ensures
        text_outcome(r) == match key {
            Some(k) => Ok::<Seq<char>, RpcFault>(hexcodec::prefixed_hex_text(k@)),
            None => Err::<Seq<char>, RpcFault>(
                (-32000i32, "threshold encryption not configured"@),
            ),
        },
{
    match key {
        Some(k) => Ok(prefixed_hex_of(k.as_slice())),
        None => Err(rpc_err(-32000, "threshold encryption not configured")),
    }
}

/// The balance in stored account bytes: `account` is the balance of the account
/// that they decode to, if they do; other bytes of some length are the bare
/// number.
pub fn read_account_balance(data: &[u8], account: Option<u128>) -> (r: Option<u128>)
    ensures
        r == match account {
            Some(b) => Some(b),
            None => if data@.len() >= 16 {
                Some(words::le_value(data@.take(16)) as u128)
            } else {
                None
            },
        },
{
    match account {
        Some(b) => Some(b),
        None => if data.len() >= 16 {
            Some(decode_u128(data))
        } else {
            None
        },
    }
}

/// Off development networks, an encrypted transaction is verified or refused; a
/// plaintext one comes in only from a sender whose signature is checked, unless it
/// registers the first key, and only where the sender pays; and one that the
/// validator refused does not come in at all.
pub proof fn law_unchecked_senders_are_for_devnets(
    auth_keys: AuthKeys,
    fee_payer: FeePayer,
    tx_type: TransactionType,
    chain_id: u64,
    failure: Option<(ValidationFailure, Seq<char>)>,
    sender_pk: Option<Vec<u8>>,
)
    requires
        chain_id != DEVNET_CHAIN_ID,
    ensures
        !(encrypted_policy(sender_pk, chain_id) is StructuralOnly),
        encrypted_policy(sender_pk, chain_id) is Verify <==> sender_pk is Some,
        ingress_refusal(tx_type, auth_keys, fee_payer, chain_id, failure) is None <==> {
            &&& auth_keys is Single || tx_type == TransactionType::RegisterPubkey
            &&& fee_payer is Sender
            &&& failure is None
        },
{
}

/// A nonce is let in exactly where it lies in the window above the committed one.
pub proof fn law_window_is_exact(nonce: u64, base: u64)
    ensures
        (window_refusal(nonce, Some(base)) is None) == (base <= nonce && (nonce < base
            + WINDOW_SIZE || base + WINDOW_SIZE > u64::MAX)),
{
}

} // verus!
