//! What a node decides before its loop starts: whether it may start at all, where
//! it listens, how its clock is anchored, which committee it belongs to, and what
//! its key file holds.
use vstd::prelude::*;

use crate::hexcodec;
use crate::hexcodec::{decode_text, hex_of};
use crate::rpc::DEVNET_CHAIN_ID;
use crate::text;
use crate::text::{bytes_eq, copy_bytes, join, push_decimal, str_eq};
use crate::words;
use crate::words::{decode_u32, encode_le};

verus! {

/// The chain id of the main network.
pub const MAINNET_CHAIN_ID: u64 = 1;

/// The chain id of the public test network.
pub const TESTNET_CHAIN_ID: u64 = 7331;

/// What a chain is called in messages.
pub open spec fn chain_label(chain_id: u64) -> Seq<char> {
    if chain_id == MAINNET_CHAIN_ID {
        "mainnet"@
    } else if chain_id == TESTNET_CHAIN_ID {
        "public testnet"@
    } else {
        "non-devnet chain"@
    }
}

/// Why a node without peers does not start.
pub open spec fn no_peers_text(chain_id: u64) -> Seq<char> {
    "refusing to start "@ + chain_label(chain_id) + " (chain_id="@ + text::decimal(
        chain_id as nat,
    )
        + ") with no bootstrap peers — set network.bootstrap_peers in config.toml before launch. A node with no peers on a public chain produces an isolated fork that cannot sync to the canonical chain. For a fresh testnet bring-up, set bootstrap_peers to your genesis-node multiaddr(s) before starting any peer."@
}

/// Whether a node may start with these bootstrap peers: without any, only on a
/// development network.
pub fn check_bootstrap_config(chain_id: u64, bootstrap_peers: &[String]) -> (r: Result<(), String>)
    ensures
        text::with_text_error(r) == if bootstrap_peers@.len() > 0 || chain_id == DEVNET_CHAIN_ID {
            Ok::<(), Seq<char>>(())
        } else {
            Err::<(), Seq<char>>(no_peers_text(chain_id))
        },
{
    if bootstrap_peers.len() > 0 {
        return Ok(());
    }
    if chain_id == DEVNET_CHAIN_ID {
        return Ok(());
    }
    let label: &str = if chain_id == MAINNET_CHAIN_ID {
        "mainnet"
    } else if chain_id == TESTNET_CHAIN_ID {
        "public testnet"
    } else {
        "non-devnet chain"
    };
    let mut m = join("refusing to start ", label);
    m.append(" (chain_id=");
    push_decimal(&mut m, chain_id as u128);
    m.append(
        ") with no bootstrap peers — set network.bootstrap_peers in config.toml before launch. A node with no peers on a public chain produces an isolated fork that cannot sync to the canonical chain. For a fresh testnet bring-up, set bootstrap_peers to your genesis-node multiaddr(s) before starting any peer.",
    );
    Err(m)
}

/// Why a node whose two chain ids differ does not start.
pub open spec fn chain_id_mismatch_text(config: u64, genesis: u64) -> Seq<char> {
    "chain_id mismatch (audit 343): config.toml says "@ + text::decimal(config as nat)
        + " but genesis.toml says "@ + text::decimal(genesis as nat)
        + " — refusing to start. Either update config.toml to match the genesis chain_id, or regenerate the genesis bundle with `pyde testnet --chain-id "@
        + text::decimal(config as nat) + "`."@
}

/// Whether the configured chain id and the one of the genesis agree.
pub fn check_config_genesis_chain_id_match(config_chain_id: u64, genesis_chain_id: u64) -> (r:
    Result<(), String>)
    ensures
        text::with_text_error(r) == if config_chain_id == genesis_chain_id {
            Ok::<(), Seq<char>>(())
        } else {
            Err::<(), Seq<char>>(chain_id_mismatch_text(config_chain_id, genesis_chain_id))
        },
{
    if config_chain_id == genesis_chain_id {
        return Ok(());
    }
    let mut m = "chain_id mismatch (audit 343): config.toml says ".to_owned();
    push_decimal(&mut m, config_chain_id as u128);
    m.append(" but genesis.toml says ");
    push_decimal(&mut m, genesis_chain_id as u128);
    m.append(
        " — refusing to start. Either update config.toml to match the genesis chain_id, or regenerate the genesis bundle with `pyde testnet --chain-id ",
    );
    push_decimal(&mut m, config_chain_id as u128);
    m.append("`.");
    Err(m)
}

/// Whether the configured role is that of a validator.
pub fn is_validator_role(role: &str) -> (r: bool)
    ensures
        r == (role@ == "validator"@),
{
    str_eq(role, "validator")
}

/// The address that the node listens on over TCP: only the local host in
/// development mode.
pub fn tcp_listen_addr(dev_mode: bool, port: u16) -> (s: String)
    ensures
        s@ == "/ip4/"@ + (if dev_mode {
            "127.0.0.1"@
        } else {
            "0.0.0.0"@
        }) + "/tcp/"@ + text::decimal(port as nat),
{
    let ip: &str = if dev_mode {
        "127.0.0.1"
    } else {
        "0.0.0.0"
    };
    let mut s = join("/ip4/", ip);
    s.append("/tcp/");
    push_decimal(&mut s, port as u128);
    s
}

/// The address that the node listens on over QUIC; none in development mode.
pub fn quic_listen_addr(dev_mode: bool, port: u16) -> (r: Option<String>)
    ensures
        match r {
            Some(s) => !dev_mode && s@ == "/ip4/0.0.0.0/udp/"@ + text::decimal(port as nat)
                + "/quic-v1"@,
            None => dev_mode,
        },
{
    if dev_mode {
        return None;
    }
    let mut s = "/ip4/0.0.0.0/udp/".to_owned();
    push_decimal(&mut s, port as u128);
    s.append("/quic-v1");
    Some(s)
}

/// `a - b`, but not below zero.
pub open spec fn minus(a: int, b: int) -> int {
    if a >= b {
        a - b
    } else {
        0
    }
}

/// The Unix millisecond at which slot 0 began: from the timestamp of the saved
/// head, or of the genesis where there is none; from the present where the head
/// has no timestamp; and zero where neither is known.
pub open spec fn clock_anchor(
    saved_head: u64,
    head_timestamp: Option<u64>,
    genesis_timestamp: u64,
    now_ms: u64,
    block_time_ms: u64,
) -> int {
    let stamp = if saved_head > 0 {
        match head_timestamp {
            Some(t) => t,
            None => 0,
        }
    } else {
        genesis_timestamp
    };
    if stamp > 0 {
        minus(stamp as int, saved_head * block_time_ms)
    } else if saved_head > 0 {
        minus(now_ms as int, saved_head * block_time_ms)
    } else {
        0
    }
}

/// The Unix millisecond at which slot 0 began.
pub fn slot_clock_anchor_ms(
    saved_head: u64,
    head_timestamp: Option<u64>,
    genesis_timestamp: u64,
    now_ms: u64,
    block_time_ms: u64,
) -> (r: u64)
    ensures
        r == clock_anchor(saved_head, head_timestamp, genesis_timestamp, now_ms, block_time_ms),
{
    let stamp: u64 = if saved_head > 0 {
        match head_timestamp {
            Some(t) => t,
            None => 0,
        }
    } else {
        genesis_timestamp
    };
    assert(0 <= saved_head * block_time_ms <= u64::MAX * u64::MAX) by (nonlinear_arith);
    let age: u128 = saved_head as u128 * block_time_ms as u128;
    let from: u64 = if stamp > 0 {
        stamp
    } else if saved_head > 0 {
        now_ms
    } else {
        0
    };
    if from as u128 > age {
        from - age as u64
    } else {
        0
    }
}

/// Nodes that saved the same stamped head anchor their clocks alike, whenever
/// they start; and so do fresh nodes with the same stamped genesis.
pub proof fn law_anchor_does_not_depend_on_the_start(
    saved_head: u64,
    head_timestamp: Option<u64>,
    genesis_timestamp: u64,
    block_time_ms: u64,
    now_a: u64,
    now_b: u64,
)
    requires
        saved_head > 0 ==> head_timestamp is Some && head_timestamp->0 > 0,
        saved_head == 0 ==> genesis_timestamp > 0,
    ensures
        clock_anchor(saved_head, head_timestamp, genesis_timestamp, now_a, block_time_ms)
            == clock_anchor(saved_head, head_timestamp, genesis_timestamp, now_b, block_time_ms),
{
}

/// The checkpoint to start from: the configured one, unless one is known already.
pub fn bootstrap_ws_anchor(has_checkpoint: bool, configured: Option<u64>) -> (r: Option<u64>)
    ensures
        r == if has_checkpoint {
            None
        } else {
            configured
        },
{
    if has_checkpoint {
        None
    } else {
        configured
    }
}

/// Whether an account is among those that an allocation names.
pub open spec fn is_allocated(allocations: Seq<String>, address: Seq<char>) -> bool {
    exists|i: int| 0 <= i < allocations.len() && (#[trigger] allocations[i])@ == address
}

/// Whether a validator still has to be funded in the genesis: no allocation is
/// for its address.
pub fn needs_genesis_funding(allocations: &Vec<String>, address: &str) -> (r: bool)
    ensures
        r == forall|i: int| 0 <= i < allocations@.len() ==> (#[trigger] allocations@[i])@
            != address@,
        r != is_allocated(allocations@, address@),
{
    let mut i: usize = 0;
    while i < allocations.len()
        invariant
            i <= allocations@.len(),
            forall|j: int| 0 <= j < i ==> (#[trigger] allocations@[j])@ != address@,
        decreases allocations@.len() - i,
    {
        if str_eq(allocations[i].as_str(), address) {
            assert(allocations@[i as int]@ == address@);
            return false;
        }
        i = i + 1;
    }
    true
}

/// The committee keys, and the node's own index among them.
pub struct Committee {
    pub keys: Vec<Vec<u8>>,
    pub my_index: u8,
}

/// Whether the text of a genesis key is the key `my_hex`, with or without `0x`.
pub open spec fn is_my_key(listed: Seq<char>, my_hex: Seq<char>) -> bool {
    listed == my_hex || listed == "0x"@ + my_hex
}

/// The index of the last listed key that is mine, zero where none is.
pub open spec fn my_position(listed: Seq<String>, my_hex: Seq<char>) -> int
    decreases listed.len(),
{
    if listed.len() == 0 {
        0
    } else if is_my_key(listed.last()@, my_hex) {
        listed.len() - 1
    } else {
        my_position(listed.drop_last(), my_hex)
    }
}

/// Whether the first `n` listed keys are hex.
pub open spec fn keys_are_hex(listed: Seq<String>, prefix: Seq<char>, n: int) -> bool {
    forall|i: int|
        0 <= i < n ==> hexcodec::prefixed_bytes((#[trigger] listed[i])@, prefix) is Ok
}

/// Reads the committee keys that a genesis lists; the error of the first that is
/// not hex carries `prefix`.
pub fn committee_keys(listed: &Vec<String>, prefix: &str) -> (r: Result<Vec<Vec<u8>>, String>)
    ensures
        match r {
            Ok(keys) => keys@.len() == listed@.len() && forall|i: int|
                0 <= i < keys@.len() ==> hexcodec::prefixed_bytes(listed@[i]@, prefix@) == Ok::<
                    Seq<u8>,
                    Seq<char>,
                >((#[trigger] keys@[i])@),
            Err(e) => exists|i: int|
                0 <= i < listed@.len() && keys_are_hex(listed@, prefix@, i)
                    && hexcodec::prefixed_bytes((#[trigger] listed@[i])@, prefix@) == Err::<
                    Seq<u8>,
                    Seq<char>,
                >(e@),
        },
{
    let mut keys: Vec<Vec<u8>> = Vec::new();
    let mut i: usize = 0;
    while i < listed.len()
        invariant
            i <= listed@.len(),
            keys@.len() == i,
            forall|j: int|
                0 <= j < i ==> hexcodec::prefixed_bytes(listed@[j]@, prefix@) == Ok::<
                    Seq<u8>,
                    Seq<char>,
                >((#[trigger] keys@[j])@),
            keys_are_hex(listed@, prefix@, i as int),
        decreases listed@.len() - i,
    {
        match decode_text(listed[i].as_str(), prefix) {
            Ok(k) => {
                keys.push(k);
            },
            Err(e) => {
                assert(listed@[i as int]@ == listed[i as int]@);
                return Err(e);
            },
        }
        i = i + 1;
    }
    Ok(keys)
}

/// The node's index among the listed keys, as a byte.
pub fn own_index(listed: &Vec<String>, my_key: &Vec<u8>) -> (r: u8)
    ensures
        r == my_position(listed@, hexcodec::hex_text(my_key@)) as u8,
{
    let bare = hex_of(my_key.as_slice());
    let full = join("0x", bare.as_str());
    let mut n: usize = listed.len();
    assert(listed@.take(n as int) =~= listed@);
    while n > 0
        invariant
            n <= listed@.len(),
            bare@ == hexcodec::hex_text(my_key@),
            full@ == "0x"@ + bare@,
            my_position(listed@, bare@) == my_position(listed@.take(n as int), bare@),
        decreases n,
    {
        let ghost t = listed@.take(n as int);
        assert(t.last() == listed@[n - 1]);
        assert(t.drop_last() =~= listed@.take(n - 1));
        let k = listed[n - 1].as_str();
        if str_eq(k, bare.as_str()) || str_eq(k, full.as_str()) {
            return (n - 1) as u8;
        }
        n = n - 1;
    }
    0
}

/// Forms the committee: of the listed keys, or of the node alone where none is
/// listed.
pub fn form_committee(listed: &Vec<String>, my_key: &Vec<u8>) -> (r: Result<Committee, String>)
    ensures
        match r {
            Ok(c) => if listed@.len() == 0 {
                c.keys@.len() == 1 && c.keys@[0]@ == my_key@ && c.my_index == 0
            } else {
                &&& c.my_index == my_position(listed@, hexcodec::hex_text(my_key@)) as u8
                &&& c.keys@.len() == listed@.len()
                &&& forall|i: int|
                    0 <= i < c.keys@.len() ==> hexcodec::prefixed_bytes(
                        listed@[i]@,
                        "invalid validator public key in genesis: "@,
                    ) == Ok::<Seq<u8>, Seq<char>>((#[trigger] c.keys@[i])@)
            },
            Err(e) => exists|i: int|
                0 <= i < listed@.len() && keys_are_hex(
                    listed@,
                    "invalid validator public key in genesis: "@,
                    i,
                ) && hexcodec::prefixed_bytes(
                    (#[trigger] listed@[i])@,
                    "invalid validator public key in genesis: "@,
                ) == Err::<Seq<u8>, Seq<char>>(e@),
        },
{
    if listed.len() == 0 {
        let mut keys: Vec<Vec<u8>> = Vec::new();
        keys.push(copy_bytes(my_key));
        return Ok(Committee { keys, my_index: 0 });
    }
    match committee_keys(listed, "invalid validator public key in genesis: ") {
        Ok(keys) => Ok(Committee { keys, my_index: own_index(listed, my_key) }),
        Err(e) => Err(e),
    }
}

/// The index of a key among committee members, counted from one; zero where it is
/// not among them.
pub open spec fn member_number(members: Seq<Vec<u8>>, key: Seq<u8>) -> nat
    decreases members.len(),
{
    if members.len() == 0 {
        0
    } else if members[0]@ == key {
        1
    } else {
        let n = member_number(members.skip(1), key);
        if n == 0 {
            0
        } else {
            n + 1
        }
    }
}

/// The index of a key among committee members, counted from one; zero where it is
/// not among them.
pub fn find_member(members: &Vec<Vec<u8>>, key: &Vec<u8>) -> (r: usize)
    ensures
        r == member_number(members@, key@),
        r <= members@.len(),
        r > 0 ==> members@[r - 1]@ == key@,
        r == 0 ==> forall|i: int| 0 <= i < members@.len() ==> (#[trigger] members@[i])@ != key@,
{
    let mut i: usize = 0;
    assert(members@.skip(0) =~= members@);
    while i < members.len()
        invariant
            i <= members@.len(),
            forall|j: int| 0 <= j < i ==> (#[trigger] members@[j])@ != key@,
            member_number(members@, key@) == (if member_number(members@.skip(i as int), key@)
                == 0 {
                0
            } else {
                member_number(members@.skip(i as int), key@) + i
            }),
        decreases members@.len() - i,
    {
        assert(members@.skip(i as int)[0] == members@[i as int]);
        assert(members@.skip(i as int).skip(1) =~= members@.skip(i + 1));
        if bytes_eq(members[i].as_slice(), key.as_slice()) {
            return i + 1;
        }
        i = i + 1;
    }
    0
}

/// The two keys in a key file.
pub struct RawKeys {
    pub public_key: Vec<u8>,
    pub secret_key: Vec<u8>,
}

/// Why a raw key file is refused, if it is.
pub open spec fn raw_key_fault(b: Seq<u8>) -> Option<Seq<char>> {
    if b.len() < 4 {
        Some("validator.key is corrupted (too short)"@)
    } else if b.len() < 4 + words::le_value(b.take(4)) {
        Some("validator.key is corrupted (pk truncated)"@)
    } else {
        None
    }
}

/// A raw key file: the length of the public key in four bytes, the public key,
/// the secret key.
pub open spec fn raw_key_file(public_key: Seq<u8>, secret_key: Seq<u8>) -> Seq<u8> {
    words::le_bytes(public_key.len() % 0x1_0000_0000, 4) + public_key + secret_key
}

/// Whether a raw key file holds these keys.
pub open spec fn holds_raw_keys(b: Seq<u8>, k: RawKeys) -> bool {
    let n = words::le_value(b.take(4)) as int;
    &&& raw_key_fault(b) is None
    &&& k.public_key@ == b.subrange(4, 4 + n)
    &&& k.secret_key@ == b.skip(4 + n)
}

/// Reads a raw key file.
pub fn parse_raw_keys(bytes: &[u8]) -> (r: Result<RawKeys, String>)
    ensures
        match r {
            Ok(k) => holds_raw_keys(bytes@, k),
            Err(e) => raw_key_fault(bytes@) == Some(e@),
        },
{
    if bytes.len() < 4 {
        return Err("validator.key is corrupted (too short)".to_owned());
    }
    let n: u32 = decode_u32(bytes);
    if (bytes.len() as u64) < 4 + n as u64 {
        return Err("validator.key is corrupted (pk truncated)".to_owned());
    }
    let end: usize = 4 + n as usize;
    let pk = vstd::slice::slice_subrange(bytes, 4, end);
    let sk = vstd::slice::slice_subrange(bytes, end, bytes.len());
    Ok(
        RawKeys {
            public_key: vstd::slice::slice_to_vec(pk),
            secret_key: vstd::slice::slice_to_vec(sk),
        },
    )
}

/// Writes a raw key file.
pub fn encode_raw_keys(k: &RawKeys) -> (r: Vec<u8>)
    ensures
        r@ == raw_key_file(k.public_key@, k.secret_key@),
{
    let n: u64 = k.public_key.len() as u64 % 0x1_0000_0000;
    let mut out = encode_le(n, 4);
    let mut pk = copy_bytes(&k.public_key);
    let mut sk = copy_bytes(&k.secret_key);
    out.append(&mut pk);
    out.append(&mut sk);
    out
}

/// What is written to a raw key file is read back from it.
pub proof fn law_raw_key_file_round_trip(k: RawKeys)
    requires
        k.public_key@.len() < 0x1_0000_0000,
    ensures
        holds_raw_keys(raw_key_file(k.public_key@, k.secret_key@), k),
{
    let public_key = k.public_key@;
    let b = raw_key_file(public_key, k.secret_key@);
    reveal_with_fuel(words::pow256, 5);
    words::law_le_round_trip(public_key.len(), 4);
    assert(public_key.len() % 0x1_0000_0000 == public_key.len());
    assert(b.take(4) =~= words::le_bytes(public_key.len(), 4));
    assert(b.subrange(4, 4 + public_key.len() as int) =~= public_key);
    assert(b.skip(4 + public_key.len() as int) =~= k.secret_key@);
}

/// Whether the operator asked for a new key: the setting is there, and neither
/// empty nor zero.
pub open spec fn opted_in(setting: Option<Seq<char>>) -> bool {
    match setting {
        Some(s) => s.len() > 0 && s != "0"@,
        None => false,
    }
}

/// Why no new key is made, if none is.
pub open spec fn missing_key_text(path: Seq<char>, chain_id: u64) -> Seq<char> {
    "validator.key missing at "@ + path + " on chain_id="@ + text::decimal(chain_id as nat)
        + " — refusing to silently generate a NEW validator identity (audit 395). If this is a fresh validator that should mint a new key, re-run with PYDE_INIT_VALIDATOR_KEY=1. If this is an existing validator whose key was lost or moved, restore the original `validator.key` from backup before starting — silently regenerating produces a new pubkey/address the chain doesn't recognize as your stake position, quietly degrading the network to N-1 effective validators."@
}

/// Whether a missing key may be made anew: on a development network, or where
/// the operator asked for it.
pub fn check_key_generation(path: &str, chain_id: u64, setting: Option<&str>) -> (r: Result<
    (),
    String,
>)
    ensures
        ({
            let asked = opted_in(
                match setting {
                    Some(s) => Some(s@),
                    None => None,
                },
            );
            text::with_text_error(r) == if chain_id == DEVNET_CHAIN_ID || asked {
                Ok::<(), Seq<char>>(())
            } else {
                Err::<(), Seq<char>>(missing_key_text(path@, chain_id))
            }
        }),
{
    let asked: bool = match setting {
        Some(s) => !str_eq(s, "0") && !s.is_empty(),
        None => false,
    };
    if chain_id == DEVNET_CHAIN_ID || asked {
        return Ok(());
    }
    let mut m = join("validator.key missing at ", path);
    m.append(" on chain_id=");
    push_decimal(&mut m, chain_id as u128);
    m.append(
        " — refusing to silently generate a NEW validator identity (audit 395). If this is a fresh validator that should mint a new key, re-run with PYDE_INIT_VALIDATOR_KEY=1. If this is an existing validator whose key was lost or moved, restore the original `validator.key` from backup before starting — silently regenerating produces a new pubkey/address the chain doesn't recognize as your stake position, quietly degrading the network to N-1 effective validators.",
    );
    Err(m)
}

/// How a key file is to be read.
#[derive(Clone, Copy, Debug, PartialEq, Eq, Structural)]
pub enum KeySource {
    /// Decrypted with the passphrase.
    Keystore,
    /// As raw bytes.
    Raw,
}

/// How an existing key file is to be read: `is_keystore` says whether it parses
/// as an encrypted one, for which there has to be a passphrase.
pub fn key_source(is_keystore: bool, has_passphrase: bool) -> (r: Result<KeySource, String>)
    ensures
        text::with_text_error(r) == if !is_keystore {
            Ok::<KeySource, Seq<char>>(KeySource::Raw)
        } else if has_passphrase {
            Ok::<KeySource, Seq<char>>(KeySource::Keystore)
        } else {
            Err::<KeySource, Seq<char>>(
                "validator.key is encrypted but PYDE_VALIDATOR_PASSPHRASE is not set"@,
            )
        },
{
    if !is_keystore {
        Ok(KeySource::Raw)
    } else if has_passphrase {
        Ok(KeySource::Keystore)
    } else {
        Err("validator.key is encrypted but PYDE_VALIDATOR_PASSPHRASE is not set".to_owned())
    }
}

/// How a new key is saved: encrypted where there is a passphrase, else raw.
pub fn key_target(passphrase: Option<&str>) -> (r: KeySource)
    ensures
        r == match passphrase {
            Some(p) => if p@.len() > 0 {
                KeySource::Keystore
            } else {
                KeySource::Raw
            },
            None => KeySource::Raw,
        },
{
    match passphrase {
        Some(p) => if p.is_empty() {
            KeySource::Raw
        } else {
            KeySource::Keystore
        },
        None => KeySource::Raw,
    }
}

/// What to do for a validator's signing key.
pub enum IdentityStep {
    /// Decrypt the key file with the passphrase.
    Decrypt,
    /// Use the keys of a raw key file.
    Use(RawKeys),
    /// Make a new key, and save it this way.
    Generate(KeySource),
}

/// Says what to do for a validator's signing key. `file` is the key file's contents
/// where there is one, of which `is_keystore` says whether it parses as an encrypted
/// one.
pub fn identity_step(
    file: Option<&[u8]>,
    is_keystore: bool,
    passphrase: Option<&str>,
    path: &str,
    chain_id: u64,
    setting: Option<&str>,
) -> (r: Result<IdentityStep, String>)
    ensures
        match file {
            Some(bytes) => if is_keystore {
                match r {
                    Ok(step) => passphrase is Some && step is Decrypt,
                    Err(e) => passphrase is None && e@
                        == "validator.key is encrypted but PYDE_VALIDATOR_PASSPHRASE is not set"@,
                }
            } else {
                match r {
                    Ok(IdentityStep::Use(k)) => holds_raw_keys(bytes@, k),
                    Ok(_) => false,
                    Err(e) => raw_key_fault(bytes@) == Some(e@),
                }
            },
            None => ({
                let asked = opted_in(
                    match setting {
                        Some(s) => Some(s@),
                        None => None,
                    },
                );
                match r {
                    Ok(IdentityStep::Generate(how)) => (chain_id == DEVNET_CHAIN_ID || asked) && how
                        == (if passphrase is Some && passphrase->0@.len() > 0 {
                        KeySource::Keystore
                    } else {
                        KeySource::Raw
                    }),
                    Ok(_) => false,
                    Err(e) => chain_id != DEVNET_CHAIN_ID && !asked && e@ == missing_key_text(
                        path@,
                        chain_id,
                    ),
                }
            }),
        },
{
    match file {
        Some(bytes) => match key_source(is_keystore, passphrase.is_some()) {
            Ok(KeySource::Keystore) => Ok(IdentityStep::Decrypt),
            Ok(KeySource::Raw) => match parse_raw_keys(bytes) {
                Ok(k) => Ok(IdentityStep::Use(k)),
                Err(e) => Err(e),
            },
            Err(e) => Err(e),
        },
        None => match check_key_generation(path, chain_id, setting) {
            Ok(_) => Ok(IdentityStep::Generate(key_target(passphrase))),
            Err(e) => Err(e),
        },
    }
}

} // verus!
