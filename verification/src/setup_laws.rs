//! What a node is set up with: its configuration, its keys, its clock and its peers,
//! and what its dashboard tells of it.
use vstd::prelude::*;

use crate::codec_laws;
use crate::dashboard;
use crate::dashboard::{ChainFigures, Counters, Row, ThroughputState};
use crate::hexcodec;
use crate::keymap::Key;
use crate::peer_book;
use crate::peer_book::{EntryModel, PeerBook, PeerEntry, PendingNonces};
use crate::slot_clock::SlotClock;
use crate::startup;
use crate::startup::{Committee, IdentityStep, KeySource, RawKeys};
use crate::text;
use crate::words;

verus! {

/// A node starts without peers only on the development network, and only on the
/// chain that its genesis is for. The message names the chain.
pub proof fn law_nodes_start_with_peers_on_their_chain(
    chain_id: u64,
    peers: &[String],
    genesis_chain_id: u64,
    p: Result<(), String>,
    c: Result<(), String>,
)
    requires
        call_ensures(startup::check_bootstrap_config, (chain_id, peers), p),
        call_ensures(
            startup::check_config_genesis_chain_id_match,
            (chain_id, genesis_chain_id),
            c,
        ),
    ensures
        p is Ok <==> peers@.len() > 0 || chain_id == 31337,
        c is Ok <==> chain_id == genesis_chain_id,
        startup::chain_label(1) == "mainnet"@,
        startup::chain_label(7331) == "public testnet"@,
        chain_id != 1 && chain_id != 7331 ==> startup::chain_label(chain_id)
            == "non-devnet chain"@,
        p is Err ==> exists|rest: Seq<char>|
            p->Err_0@ == #[trigger] ("refusing to start "@ + startup::chain_label(chain_id)
                + " (chain_id="@ + text::decimal(chain_id as nat) + rest),
        c is Err ==> exists|rest: Seq<char>|
            c->Err_0@ == #[trigger] ("chain_id mismatch (audit 343): config.toml says "@
                + text::decimal(chain_id as nat) + " but genesis.toml says "@ + text::decimal(
                genesis_chain_id as nat,
            ) + rest),
{
    if c is Err {
        let rest =
            " — refusing to start. Either update config.toml to match the genesis chain_id, or regenerate the genesis bundle with `pyde testnet --chain-id "@
            + text::decimal(chain_id as nat) + "`."@;
        assert(c->Err_0@ =~= "chain_id mismatch (audit 343): config.toml says "@ + text::decimal(
            chain_id as nat,
        ) + " but genesis.toml says "@ + text::decimal(genesis_chain_id as nat) + rest);
    }
}

/// Only the role of that very name is a validator's.
pub proof fn law_validators_are_named_so(role: &str, r: bool)
    requires
        call_ensures(startup::is_validator_role, (role,), r),
    ensures
        r <==> role@ == "validator"@,
{
}

/// A node in development listens on its own host alone, and not over QUIC.
pub proof fn law_development_nodes_listen_locally(
    dev_mode: bool,
    port: u16,
    t: String,
    q: Option<String>,
)
    requires
        call_ensures(startup::tcp_listen_addr, (dev_mode, port), t),
        call_ensures(startup::quic_listen_addr, (dev_mode, port), q),
    ensures
        dev_mode ==> t@ == "/ip4/127.0.0.1/tcp/"@ + text::decimal(port as nat),
        !dev_mode ==> t@ == "/ip4/0.0.0.0/tcp/"@ + text::decimal(port as nat),
        q is Some <==> !dev_mode,
        q is Some ==> q->0@ == "/ip4/0.0.0.0/udp/"@ + text::decimal(port as nat) + "/quic-v1"@,
{
    reveal_strlit("/ip4/");
    reveal_strlit("127.0.0.1");
    reveal_strlit("0.0.0.0");
    reveal_strlit("/tcp/");
    reveal_strlit("/ip4/127.0.0.1/tcp/");
    reveal_strlit("/ip4/0.0.0.0/tcp/");
    assert("/ip4/"@ + "127.0.0.1"@ + "/tcp/"@ =~= "/ip4/127.0.0.1/tcp/"@);
    assert("/ip4/"@ + "0.0.0.0"@ + "/tcp/"@ =~= "/ip4/0.0.0.0/tcp/"@);
}

/// The clock is set so that the slot of the saved head begins at its timestamp, or
/// now where it has none; without a head it begins with the genesis. Where that is
/// before all time it begins with time.
pub proof fn law_clocks_agree_with_the_head(
    saved_head: u64,
    head_timestamp: Option<u64>,
    genesis_timestamp: u64,
    now_ms: u64,
    block_time_ms: u64,
    r: u64,
)
    requires
        call_ensures(
            startup::slot_clock_anchor_ms,
            (saved_head, head_timestamp, genesis_timestamp, now_ms, block_time_ms),
            r,
        ),
    ensures
        saved_head == 0 ==> r == genesis_timestamp,
        ({
            let stamp = if head_timestamp is Some && head_timestamp->0 > 0 {
                head_timestamp->0
            } else {
                now_ms
            };
            &&& saved_head > 0 && stamp >= saved_head * block_time_ms ==> r + saved_head
                * block_time_ms == stamp
            &&& saved_head > 0 && stamp < saved_head * block_time_ms ==> r == 0
        }),
{
    assert(0 * block_time_ms == 0) by (nonlinear_arith);
}

/// A configured anchor is for nodes without a checkpoint.
pub proof fn law_anchors_are_for_the_first_start(
    has_checkpoint: bool,
    configured: Option<u64>,
    r: Option<u64>,
)
    requires
        call_ensures(startup::bootstrap_ws_anchor, (has_checkpoint, configured), r),
    ensures
        has_checkpoint ==> r is None,
        !has_checkpoint ==> r == configured,
{
}

/// An account is funded at the genesis unless the allocations name it.
pub proof fn law_listed_accounts_are_not_funded_again(
    allocations: &Vec<String>,
    address: &str,
    r: bool,
)
    requires
        call_ensures(startup::needs_genesis_funding, (allocations, address), r),
    ensures
        (exists|i: int| 0 <= i < allocations@.len() && (#[trigger] allocations@[i])@ == address@)
            ==> !r,
        (forall|i: int| 0 <= i < allocations@.len() ==> (#[trigger] allocations@[i])@ != address@)
            ==> r,
{
}

proof fn lemma_my_position(listed: Seq<String>, mine: Seq<char>)
    ensures
        ({
            let p = startup::my_position(listed, mine);
            &&& 0 <= p
            &&& p < listed.len() || p == 0
            &&& forall|i: int|
                p < i < listed.len() ==> (#[trigger] listed[i])@ != mine && listed[i]@ != "0x"@
                    + mine
            &&& (exists|i: int|
                0 <= i < listed.len() && ((#[trigger] listed[i])@ == mine || listed[i]@ == "0x"@
                    + mine)) ==> listed[p]@ == mine || listed[p]@ == "0x"@ + mine
        }),
    decreases listed.len(),
{
    if listed.len() > 0 {
        let rest = listed.drop_last();
        let p = startup::my_position(listed, mine);
        lemma_my_position(rest, mine);
        if !startup::is_my_key(listed.last()@, mine) {
            assert forall|i: int| p < i < listed.len() implies (#[trigger] listed[i])@ != mine
                && listed[i]@ != "0x"@ + mine by {
                if i < rest.len() {
                    assert(rest[i] == listed[i]);
                }
            }
            if exists|i: int|
                0 <= i < listed.len() && ((#[trigger] listed[i])@ == mine || listed[i]@ == "0x"@
                    + mine) {
                let i = choose|i: int|
                    0 <= i < listed.len() && ((#[trigger] listed[i])@ == mine || listed[i]@
                        == "0x"@ + mine);
                assert(i < rest.len());
                assert(rest[i] == listed[i]);
            }
        }
    }
}

/// A node finds itself at the last place where the committee lists its key in hex,
/// with or without `0x`.
pub proof fn law_nodes_find_themselves(listed: &Vec<String>, my_key: &Vec<u8>, r: u8)
    requires
        listed@.len() <= 256,
        call_ensures(startup::own_index, (listed, my_key), r),
    ensures
        ({
            let mine = hexcodec::hex_text(my_key@);
            &&& forall|i: int|
                r < i < listed@.len() ==> (#[trigger] listed@[i])@ != mine && listed@[i]@ != "0x"@
                    + mine
            &&& (exists|i: int|
                0 <= i < listed@.len() && ((#[trigger] listed@[i])@ == mine || listed@[i]@ == "0x"@
                    + mine)) ==> r < listed@.len() && (listed@[r as int]@ == mine
                || listed@[r as int]@ == "0x"@ + mine)
            &&& (forall|i: int|
                0 <= i < listed@.len() ==> (#[trigger] listed@[i])@ != mine && listed@[i]@ != "0x"@
                    + mine) ==> r == 0
        }),
{
    let mine = hexcodec::hex_text(my_key@);
    let p = startup::my_position(listed@, mine);
    lemma_my_position(listed@, mine);
    assert(r == p);
    if forall|i: int|
        0 <= i < listed@.len() ==> (#[trigger] listed@[i])@ != mine && listed@[i]@ != "0x"@
            + mine {
        lemma_not_mine(listed@, mine);
    }
}

proof fn lemma_not_mine(listed: Seq<String>, mine: Seq<char>)
    requires
        forall|i: int|
            0 <= i < listed.len() ==> (#[trigger] listed[i])@ != mine && listed[i]@ != "0x"@ + mine,
    ensures
        startup::my_position(listed, mine) == 0,
    decreases listed.len(),
{
    if listed.len() > 0 {
        let rest = listed.drop_last();
        assert forall|i: int| 0 <= i < rest.len() implies (#[trigger] rest[i])@ != mine
            && rest[i]@ != "0x"@ + mine by {
            assert(rest[i] == listed[i]);
        }
        assert(listed[listed.len() - 1]@ != mine);
        lemma_not_mine(rest, mine);
    }
}

/// A node alone is a committee of one; else the committee has every listed key, in
/// order.
pub proof fn law_committees_have_every_listed_key(
    listed: &Vec<String>,
    my_key: &Vec<u8>,
    r: Result<Committee, String>,
)
    requires
        call_ensures(startup::form_committee, (listed, my_key), r),
    ensures
        listed@.len() == 0 && r is Ok ==> r->Ok_0.keys@.len() == 1 && r->Ok_0.keys@[0]@ == my_key@
            && r->Ok_0.my_index == 0,
        listed@.len() == 0 ==> r is Ok,
        listed@.len() > 0 && r is Ok ==> r->Ok_0.keys@.len() == listed@.len() && forall|i: int|
            0 <= i < listed@.len() ==> hexcodec::prefixed_bytes(
                listed@[i]@,
                "invalid validator public key in genesis: "@,
            ) == Ok::<Seq<u8>, Seq<char>>((#[trigger] r->Ok_0.keys@[i])@),
        r is Err ==> exists|i: int|
            0 <= i < listed@.len() && hexcodec::prefixed_bytes(
                (#[trigger] listed@[i])@,
                "invalid validator public key in genesis: "@,
            ) == Err::<Seq<u8>, Seq<char>>(r->Err_0@),
{
}

/// A key is found at its first place among the members, counted from one; zero tells
/// that it is none of them.
pub proof fn law_members_are_numbered_from_one(members: &Vec<Vec<u8>>, key: &Vec<u8>, r: usize)
    requires
        call_ensures(startup::find_member, (members, key), r),
    ensures
        r == 0 <==> forall|i: int| 0 <= i < members@.len() ==> (#[trigger] members@[i])@ != key@,
        r > 0 ==> r <= members@.len() && members@[r - 1]@ == key@,
        r > 0 ==> forall|i: int| 0 <= i < r - 1 ==> (#[trigger] members@[i])@ != key@,
{
    lemma_member_number(members@, key@);
}

proof fn lemma_member_number(members: Seq<Vec<u8>>, key: Seq<u8>)
    ensures
        ({
            let n = startup::member_number(members, key);
            forall|i: int| 0 <= i < n - 1 && i < members.len() ==> (#[trigger] members[i])@ != key
        }),
    decreases members.len(),
{
    if members.len() > 0 && members[0]@ != key {
        let rest = members.skip(1);
        lemma_member_number(rest, key);
        let n = startup::member_number(members, key);
        assert forall|i: int| 0 <= i < n - 1 && i < members.len() implies (#[trigger] members[i])@
            != key by {
            if i > 0 {
                assert(rest[i - 1] == members[i]);
            }
        }
    }
}

/// A raw key file is read exactly where it is as long as its first four bytes say:
/// the public key behind them, and the rest is the secret key. One that is written
/// has its parts in this order.
pub proof fn law_raw_key_files_hold_both_keys(
    bytes: &[u8],
    r: Result<RawKeys, String>,
    k: &RawKeys,
    w: Vec<u8>,
)
    requires
        call_ensures(startup::parse_raw_keys, (bytes,), r),
        call_ensures(startup::encode_raw_keys, (k,), w),
    ensures
        r is Ok <==> bytes@.len() >= 4 && bytes@.len() - 4 >= words::le_value(bytes@.take(4)),
        bytes@.len() < 4 ==> r->Err_0@ == "validator.key is corrupted (too short)"@,
        r is Err && bytes@.len() >= 4 ==> r->Err_0@ == "validator.key is corrupted (pk truncated)"@,
        r is Ok ==> r->Ok_0.public_key@.len() == words::le_value(bytes@.take(4)),
        r is Ok ==> bytes@ == bytes@.take(4) + r->Ok_0.public_key@ + r->Ok_0.secret_key@,
        w@.len() == 4 + k.public_key@.len() + k.secret_key@.len(),
        k.public_key@.len() <= u32::MAX ==> words::le_value(w@.take(4)) == k.public_key@.len(),
        w@.skip(4) == k.public_key@ + k.secret_key@,
{
    if r is Ok {
        let n = words::le_value(bytes@.take(4)) as int;
        assert(bytes@ =~= bytes@.take(4) + bytes@.subrange(4, 4 + n) + bytes@.skip(4 + n));
    }
    let m = k.public_key@.len() % 0x1_0000_0000;
    reveal_with_fuel(words::pow256, 5);
    words::law_le_round_trip(m, 4);
    assert(w@.take(4) =~= words::le_bytes(m, 4));
    assert(w@.skip(4) =~= k.public_key@ + k.secret_key@);
}

/// A new key is made only in development, or where the operator asked for it by a
/// setting that is neither empty nor zero.
pub proof fn law_keys_are_not_made_unasked(
    path: &str,
    chain_id: u64,
    setting: Option<&str>,
    r: Result<(), String>,
)
    requires
        call_ensures(startup::check_key_generation, (path, chain_id, setting), r),
    ensures
        r is Ok <==> chain_id == 31337 || (setting is Some && setting->0@.len() > 0 && setting->0@
            != "0"@),
        r is Err ==> exists|rest: Seq<char>|
            r->Err_0@ == #[trigger] ("validator.key missing at "@ + path@ + " on chain_id="@
                + text::decimal(chain_id as nat) + rest),
{
}

/// Keys are kept encrypted where there is a passphrase, and an encrypted key is of no
/// use without one.
pub proof fn law_passphrases_open_keystores(
    is_keystore: bool,
    has_passphrase: bool,
    passphrase: Option<&str>,
    s: Result<KeySource, String>,
    t: KeySource,
)
    requires
        call_ensures(startup::key_source, (is_keystore, has_passphrase), s),
        call_ensures(startup::key_target, (passphrase,), t),
    ensures
        s is Err <==> is_keystore && !has_passphrase,
        s is Err ==> s->Err_0@
            == "validator.key is encrypted but PYDE_VALIDATOR_PASSPHRASE is not set"@,
        s is Ok ==> (s->Ok_0 is Keystore <==> is_keystore),
        s is Ok ==> (s->Ok_0 is Raw <==> !is_keystore),
        t is Keystore <==> passphrase is Some && passphrase->0@.len() > 0,
        t is Raw <==> passphrase is None || passphrase->0@.len() == 0,
{
}

/// What becomes of the key file: an encrypted one is decrypted, a raw one is used as
/// it is, and only where there is none is a key made.
pub proof fn law_identities_come_from_the_key_file(
    file: Option<&[u8]>,
    is_keystore: bool,
    passphrase: Option<&str>,
    path: &str,
    chain_id: u64,
    setting: Option<&str>,
    r: Result<IdentityStep, String>,
)
    requires
        call_ensures(
            startup::identity_step,
            (file, is_keystore, passphrase, path, chain_id, setting),
            r,
        ),
    ensures
        r is Ok && r->Ok_0 is Decrypt <==> file is Some && is_keystore && passphrase is Some,
        r is Ok && r->Ok_0 is Use ==> file is Some && !is_keystore,
        file is Some && !is_keystore && file->0@.len() >= 4 && file->0@.len() - 4
            >= words::le_value(file->0@.take(4)) ==> r is Ok && r->Ok_0 is Use && file->0@
            == file->0@.take(4) + r->Ok_0->Use_0.public_key@ + r->Ok_0->Use_0.secret_key@,
        r is Ok && r->Ok_0 is Generate <==> file is None && (chain_id == 31337 || (setting is Some
            && setting->0@.len() > 0 && setting->0@ != "0"@)),
        r is Ok && r->Ok_0 is Generate ==> (r->Ok_0->Generate_0 is Keystore <==> passphrase is Some
            && passphrase->0@.len() > 0),
{
    if file is Some && !is_keystore && r is Ok {
        let b = file->0@;
        let n = words::le_value(b.take(4)) as int;
        assert(b =~= b.take(4) + b.subrange(4, 4 + n) + b.skip(4 + n));
    }
}

/// A clock has the genesis that it is given, or begins now where that is zero, and
/// slots of ten milliseconds to ten seconds: as it is told within these bounds.
pub proof fn law_clocks_are_set(genesis_ms: u64, block_time_ms: u64, now_ms: u64, c: SlotClock)
    requires
        call_ensures(SlotClock::made_at, (genesis_ms, block_time_ms, now_ms), c),
    ensures
        10 <= c@.block_time_ms <= 10_000,
        10 <= block_time_ms <= 10_000 ==> c@.block_time_ms == block_time_ms,
        block_time_ms < 10 ==> c@.block_time_ms == 10,
        block_time_ms > 10_000 ==> c@.block_time_ms == 10_000,
        genesis_ms > 0 ==> c@.genesis_timestamp_ms == genesis_ms,
        genesis_ms == 0 ==> c@.genesis_timestamp_ms == now_ms,
        c@.started_ms == now_ms,
{
}

/// A clock that is not told how long a slot takes has slots of 400 milliseconds.
pub proof fn law_slots_take_400_milliseconds(genesis_ms: u64, c: SlotClock)
    requires
        genesis_ms > 0,
        call_ensures(SlotClock::new, (genesis_ms,), c),
    ensures
        c@.block_time_ms == 400,
        c@.genesis_timestamp_ms == genesis_ms,
{
}

/// After the genesis a clock is in the slot that has begun and not ended, and tells
/// how far it is into it and how much of it remains; before, it is at the start of
/// slot 0.
pub proof fn law_clocks_tell_the_slot(
    c: &SlotClock,
    since_ms: u64,
    slot: u64,
    into: u64,
    remaining: u64,
)
    requires
        c.wf(),
        call_ensures(SlotClock::slot_after, (c, since_ms), slot),
        call_ensures(SlotClock::into_slot_after, (c, since_ms), into),
        call_ensures(SlotClock::remaining_after, (c, since_ms), remaining),
    ensures
        into + remaining == c@.block_time_ms,
        remaining >= 1,
        ({
            let now = c@.started_ms + since_ms;
            &&& now >= c@.genesis_timestamp_ms ==> c@.genesis_timestamp_ms + slot
                * c@.block_time_ms + into == now
            &&& now < c@.genesis_timestamp_ms ==> slot == 0 && into == 0
        }),
{
    let now = c@.started_ms + since_ms;
    let bt = c@.block_time_ms as int;
    let e = c@.elapsed(since_ms);
    assert(e == bt * (e / bt) + e % bt && 0 <= e % bt < bt) by (nonlinear_arith)
        requires
            bt > 0,
    ;
    assert(bt * (e / bt) == (e / bt) * bt) by (nonlinear_arith);
    if now <= c@.genesis_timestamp_ms {
        assert(0int / bt == 0 && 0int % bt == 0) by (nonlinear_arith)
            requires
                bt > 0,
        ;
        assert(0 * bt == 0);
    }
}

/// A slot begins as many block times after the genesis as its number tells; until
/// then a clock tells how long it takes, and nothing afterwards.
pub proof fn law_clocks_tell_when_slots_begin(
    c: &SlotClock,
    slot: u64,
    since_ms: u64,
    t: u64,
    wait: u64,
    d: u64,
)
    requires
        call_ensures(SlotClock::slot_timestamp, (c, slot), t),
        call_ensures(SlotClock::until_slot_after, (c, slot, since_ms), wait),
        call_ensures(SlotClock::slot_duration, (c,), d),
    ensures
        t == c@.genesis_timestamp_ms + slot * d,
        d == c@.block_time_ms,
        t > c@.started_ms + since_ms ==> c@.started_ms + since_ms + wait == t,
        t <= c@.started_ms + since_ms ==> wait == 0,
{
}

/// An address is on this host exactly where one of its parts is in the block of
/// 127.0.0.0/8.
pub proof fn law_loopback_addresses_begin_with_127(parts: &Vec<Option<[u8; 4]>>, r: bool)
    requires
        call_ensures(peer_book::any_loopback, (parts,), r),
    ensures
        (forall|i: int|
            0 <= i < parts@.len() ==> (#[trigger] parts@[i]) is None || parts@[i]->0@[0] != 127)
            ==> !r,
        (exists|i: int|
            0 <= i < parts@.len() && (#[trigger] parts@[i]) is Some && parts@[i]->0@[0] == 127)
            ==> r,
{
}

/// A peer is recorded where both its texts can be read: under its id, at its address,
/// in place of any address before. No other peer is touched.
pub proof fn law_peers_are_recorded(peer_id: &str, addr: &str)
    ensures
        forall|b: &mut PeerBook, r: bool| #[trigger]
            call_ensures(PeerBook::record, (b, peer_id, addr), r) ==> {
                let id = peer_book::peer_id_of(peer_id@);
                let at = peer_book::multiaddr_of(addr@);
                &&& r <==> id is Some && at is Some
                &&& r ==> (*final(b))@.contains_key(id->0) && (*final(b))@[id->0] == at->0
                &&& !r ==> (*final(b))@ == (*b)@
                &&& forall|k: Seq<char>|
                    id != Some(k) ==> ((#[trigger] (*final(b))@.contains_key(k)) <==> (
                    *b)@.contains_key(k)) && (*final(b))@[k] == (*b)@[k]
            },
{
}

/// Of a saved list the later address of a peer counts.
pub proof fn law_later_addresses_count(entries: Seq<EntryModel>, e: EntryModel)
    ensures
        peer_book::loaded(Seq::empty()) == Map::<Seq<char>, Seq<char>>::empty(),
        peer_book::peer_id_of(e.peer_id) is Some && peer_book::multiaddr_of(e.multiaddr) is Some
            ==> peer_book::loaded(entries.push(e)) == peer_book::loaded(entries).insert(
            peer_book::peer_id_of(e.peer_id)->0,
            peer_book::multiaddr_of(e.multiaddr)->0,
        ),
        peer_book::peer_id_of(e.peer_id) is None || peer_book::multiaddr_of(e.multiaddr) is None
            ==> peer_book::loaded(entries.push(e)) == peer_book::loaded(entries),
{
    assert(entries.push(e).drop_last() =~= entries);
}

/// Whether a peer is the node itself or one that it is connected to.
pub open spec fn is_reached(id: Seq<char>, local: Seq<char>, connected: Seq<String>) -> bool {
    id == local || exists|i: int| 0 <= i < connected.len() && (#[trigger] connected[i])@ == id
}

proof fn lemma_redial(entries: Seq<EntryModel>, local: Seq<char>, connected: Seq<String>) -> (at:
    Seq<int>)
    ensures
        at.len() == peer_book::to_redial(entries, local, connected).len(),
        forall|i: int|
            0 <= i < at.len() ==> 0 <= #[trigger] at[i] < entries.len() && !is_reached(
                entries[at[i]].peer_id,
                local,
                connected,
            ) && peer_book::to_redial(entries, local, connected)[i] == entries[at[i]],
        forall|i: int, j: int| 0 <= i < j < at.len() ==> #[trigger] at[i] < #[trigger] at[j],
        forall|p: int|
            0 <= p < entries.len() && !is_reached((#[trigger] entries[p]).peer_id, local, connected)
                ==> at.contains(p),
    decreases entries.len(),
{
    if entries.len() == 0 {
        Seq::empty()
    } else {
        let rest = entries.drop_last();
        let last = entries.len() - 1;
        let before = lemma_redial(rest, local, connected);
        let at = if is_reached(entries.last().peer_id, local, connected) {
            before
        } else {
            before.push(last)
        };
        assert forall|p: int|
            0 <= p < entries.len() && !is_reached(
                (#[trigger] entries[p]).peer_id,
                local,
                connected,
            ) implies at.contains(p) by {
            if p < last {
                assert(rest[p] == entries[p]);
                let i = choose|i: int| 0 <= i < before.len() && before[i] == p;
                assert(before.contains(p));
                assert(at[i] == p);
            } else {
                assert(at[before.len() as int] == p);
            }
        }
        at
    }
}

/// The peers that are dialled again are those that are neither the node itself nor
/// connected, in the order of the saved list, and all of them.
pub proof fn law_lost_peers_are_dialled_again(
    entries: &Vec<PeerEntry>,
    local: &str,
    connected: &Vec<String>,
    r: Vec<PeerEntry>,
) -> (at: Seq<int>)
    requires
        call_ensures(peer_book::redial_saved_peers, (entries, local, connected), r),
    ensures
        at.len() == r@.len(),
        forall|i: int|
            0 <= i < at.len() ==> 0 <= #[trigger] at[i] < entries@.len() && !is_reached(
                entries@[at[i]].peer_id@,
                local@,
                connected@,
            ) && r@[i].peer_id@ == entries@[at[i]].peer_id@ && r@[i].multiaddr@
                == entries@[at[i]].multiaddr@,
        forall|i: int, j: int| 0 <= i < j < at.len() ==> #[trigger] at[i] < #[trigger] at[j],
        forall|p: int|
            0 <= p < entries@.len() && !is_reached(
                (#[trigger] entries@[p]).peer_id@,
                local@,
                connected@,
            ) ==> at.contains(p),
{
    let e = peer_book::entries_view(entries@);
    let v = peer_book::entries_view(r@);
    assert(e.len() == entries@.len() && v.len() == r@.len());
    let at = lemma_redial(e, local@, connected@);
    assert forall|i: int| 0 <= i < at.len() implies 0 <= #[trigger] at[i] < entries@.len()
        && !is_reached(entries@[at[i]].peer_id@, local@, connected@) && r@[i].peer_id@
        == entries@[at[i]].peer_id@ && r@[i].multiaddr@ == entries@[at[i]].multiaddr@ by {
        assert(v[i] == r@[i]@);
        assert(e[at[i]] == entries@[at[i]]@);
    }
    assert forall|p: int|
        0 <= p < entries@.len() && !is_reached(
            (#[trigger] entries@[p]).peer_id@,
            local@,
            connected@,
        ) implies at.contains(p) by {
        assert(e[p] == entries@[p]@);
    }
    at
}

/// A peer is asked to prove itself once at a time; its answer is held to what it was
/// asked, and only once.
pub proof fn law_peers_are_asked_once_at_a_time(peer: &str, nonce: Key)
    ensures
        forall|p: &mut PendingNonces, sent: bool| #[trigger]
            call_ensures(PendingNonces::begin, (p, peer, nonce), sent) ==> {
                &&& sent <==> !(*p)@.contains_key(peer@)
                &&& (*final(p))@.contains_key(peer@)
                &&& sent ==> (*final(p))@[peer@] == nonce@
                &&& !sent ==> (*final(p))@ == (*p)@
                &&& forall|k: Seq<char>|
                    k != peer@ ==> ((#[trigger] (*final(p))@.contains_key(k)) <==> (
                    *p)@.contains_key(k)) && (*final(p))@[k] == (*p)@[k]
            },
        forall|p: &mut PendingNonces, r: Option<Key>| #[trigger]
            call_ensures(PendingNonces::take, (p, peer), r) ==> {
                &&& r is Some <==> (*p)@.contains_key(peer@)
                &&& r is Some ==> r->0@ == (*p)@[peer@]
                &&& !(*final(p))@.contains_key(peer@)
                &&& forall|k: Seq<char>|
                    k != peer@ ==> ((#[trigger] (*final(p))@.contains_key(k)) <==> (
                    *p)@.contains_key(k)) && (*final(p))@[k] == (*p)@[k]
            },
{
}

/// A label is its name, two spaces in, and filled up to a width of twenty.
pub proof fn law_labels_are_filled_up(name: &str, value: String, r: Row)
    requires
        call_ensures(dashboard::kv, (name, value), r),
    ensures
        r@.value == value@,
        name@.len() <= 18 ==> r@.label.len() == 20,
        name@.len() > 18 ==> r@.label.len() == name@.len() + 2,
        r@.label.subrange(2, 2 + name@.len() as int) == name@,
        forall|i: int|
            0 <= i < r@.label.len() && (i < 2 || i >= 2 + name@.len()) ==> #[trigger] r@.label[i]
                == ' ',
{
    assert(r@.label.subrange(2, 2 + name@.len() as int) =~= name@);
}

/// What the dashboard tells of the chain, line by line. The lag of finality is how
/// far the head is past the finalized slot.
pub proof fn law_chain_figures_are_told(c: &ChainFigures, now_ms: u64, r: Vec<Row>)
    requires
        call_ensures(dashboard::chain_rows, (c, now_ms), r),
    ensures
        r@.len() == 7,
        codec_laws::worth_of(r@[0]@.value, 10) == c.head_slot,
        codec_laws::worth_of(r@[1]@.value, 10) == c.finalized_slot,
        c.head_slot >= c.finalized_slot ==> c.finalized_slot + codec_laws::worth_of(
            r@[2]@.value,
            10,
        ) == c.head_slot,
        c.head_slot < c.finalized_slot ==> codec_laws::worth_of(r@[2]@.value, 10) == 0,
        codec_laws::worth_of(r@[3]@.value, 10) == c.epoch,
        codec_laws::worth_of(r@[4]@.value, 10) == c.base_fee,
        r@[5]@.value == "slot="@ + text::decimal(c.last_block_slot as nat) + " txs="@
            + text::decimal(c.last_block_txs as nat) + " gas="@ + text::decimal(
            c.last_block_gas as nat,
        ) + " elapsed_ms="@ + text::decimal(c.last_block_ms as nat),
        now_ms >= c.last_block_at_ms ==> r@[6]@.value == text::decimal(
            (now_ms - c.last_block_at_ms) as nat,
        ) + " ms"@,
        now_ms < c.last_block_at_ms ==> r@[6]@.value == text::decimal(0) + " ms"@,
        r@[0]@.label == dashboard::label_text("head_slot"@),
        r@[1]@.label == dashboard::label_text("finalized"@),
        r@[2]@.label == dashboard::label_text("finality_lag"@),
        r@[3]@.label == dashboard::label_text("epoch"@),
        r@[4]@.label == dashboard::label_text("base_fee"@),
        r@[5]@.label == dashboard::label_text("last_block"@),
        r@[6]@.label == dashboard::label_text("since_last"@),
{
    let v = dashboard::rows(r@);
    assert(v.len() == r@.len());
    assert(forall|i: int| 0 <= i < r@.len() ==> #[trigger] v[i] == r@[i]@);
    codec_laws::law_decimal_and_hex_texts(c.head_slot as nat);
    codec_laws::law_decimal_and_hex_texts(c.finalized_slot as nat);
    codec_laws::law_decimal_and_hex_texts(dashboard::past(c.head_slot, c.finalized_slot));
    codec_laws::law_decimal_and_hex_texts(c.epoch as nat);
    codec_laws::law_decimal_and_hex_texts(c.base_fee as nat);
    assert(v[0] == r@[0]@ && v[1] == r@[1]@ && v[2] == r@[2]@ && v[3] == r@[3]@);
    assert(v[4] == r@[4]@ && v[5] == r@[5]@ && v[6] == r@[6]@);
}

/// What the dashboard tells of the peers, of the pool and of all that was counted.
pub proof fn law_counts_are_told(
    peers: u64,
    committee_size: u64,
    proposer: &Key,
    plain: u64,
    encrypted: u64,
    c: &Counters,
    p: Vec<Row>,
    m: Vec<Row>,
    t: Vec<Row>,
)
    requires
        call_ensures(dashboard::peer_rows, (peers, committee_size, proposer), p),
        call_ensures(dashboard::mempool_rows, (plain, encrypted), m),
        call_ensures(dashboard::total_rows, (c,), t),
    ensures
        p@.len() == 3 && m@.len() == 2 && t@.len() == 3,
        codec_laws::worth_of(p@[0]@.value, 10) == peers,
        codec_laws::worth_of(p@[1]@.value, 10) == committee_size,
        (forall|i: int| 0 <= i < 32 ==> #[trigger] proposer@[i] == 0) ==> p@[2]@.value == "—"@,
        (exists|i: int| 0 <= i < 32 && #[trigger] proposer@[i] != 0) ==> p@[2]@.value
            == hexcodec::prefixed_hex_text(proposer@.take(8)),
        codec_laws::worth_of(m@[0]@.value, 10) == plain,
        codec_laws::worth_of(m@[1]@.value, 10) == encrypted,
        codec_laws::worth_of(t@[0]@.value, 10) == c.blocks,
        codec_laws::worth_of(t@[1]@.value, 10) == c.txs,
        t@[2]@.value == text::decimal(c.accepts as nat) + " ok / "@ + text::decimal(
            c.rejects as nat,
        ) + " err"@,
{
    let pv = dashboard::rows(p@);
    let mv = dashboard::rows(m@);
    let tv = dashboard::rows(t@);
    assert(pv.len() == p@.len() && mv.len() == m@.len() && tv.len() == t@.len());
    assert(pv[0] == p@[0]@ && pv[1] == p@[1]@ && pv[2] == p@[2]@);
    assert(mv[0] == m@[0]@ && mv[1] == m@[1]@);
    assert(tv[0] == t@[0]@ && tv[1] == t@[1]@ && tv[2] == t@[2]@);
    codec_laws::law_decimal_and_hex_texts(peers as nat);
    codec_laws::law_decimal_and_hex_texts(committee_size as nat);
    codec_laws::law_decimal_and_hex_texts(plain as nat);
    codec_laws::law_decimal_and_hex_texts(encrypted as nat);
    codec_laws::law_decimal_and_hex_texts(c.blocks as nat);
    codec_laws::law_decimal_and_hex_texts(c.txs as nat);
}

/// What grew since the last look is what there is now beyond what there was then.
pub proof fn law_growth_is_since_the_last_look(now: &Counters)
    ensures
        forall|t: &mut ThroughputState, g: Counters| #[trigger]
            call_ensures(ThroughputState::tick, (t, now), g) ==> {
                let b = (*t).last;
                &&& (*final(t)).last == *now
                &&& now.blocks >= b.blocks ==> b.blocks + g.blocks == now.blocks
                &&& now.txs >= b.txs ==> b.txs + g.txs == now.txs
                &&& now.accepts >= b.accepts ==> b.accepts + g.accepts == now.accepts
                &&& now.rejects >= b.rejects ==> b.rejects + g.rejects == now.rejects
                &&& now.blocks < b.blocks ==> g.blocks == 0
                &&& now.txs < b.txs ==> g.txs == 0
                &&& now.accepts < b.accepts ==> g.accepts == 0
                &&& now.rejects < b.rejects ==> g.rejects == 0
            },
{
}

/// The header tells the node's role and the first six bytes of its address.
pub proof fn law_headers_tell_role_and_address(
    is_validator: bool,
    local: &Key,
    r: (String, String),
)
    requires
        call_ensures(dashboard::header_texts, (is_validator, local), r),
    ensures
        is_validator ==> r.0@ == "· role="@ + "validator"@ + " "@,
        !is_validator ==> r.0@ == "· role="@ + "full"@ + " "@,
        r.1@ == "· addr="@ + "0x"@ + hexcodec::hex_text(local@.take(6)),
{
    assert("· addr="@ + ("0x"@ + hexcodec::hex_text(local@.take(6))) =~= "· addr="@ + "0x"@
        + hexcodec::hex_text(local@.take(6)));
}

/// The keys of a committee are the bytes that its list writes in hex, one for one;
/// where a text writes none, the first such is complained of.
pub proof fn law_committee_keys_are_read_in_order(
    listed: &Vec<String>,
    prefix: &str,
    r: Result<Vec<Vec<u8>>, String>,
)
    requires
        call_ensures(startup::committee_keys, (listed, prefix), r),
    ensures
        r is Ok ==> r->Ok_0@.len() == listed@.len(),
        r is Ok ==> forall|i: int|
            0 <= i < listed@.len() ==> hexcodec::prefixed_bytes((#[trigger] listed@[i])@, prefix@)
                == Ok::<Seq<u8>, Seq<char>>(r->Ok_0@[i]@),
        r is Err ==> exists|i: int|
            0 <= i < listed@.len() && hexcodec::prefixed_bytes(
                (#[trigger] listed@[i])@,
                prefix@,
            ) == Err::<Seq<u8>, Seq<char>>(r->Err_0@) && forall|j: int|
                0 <= j < i ==> hexcodec::prefixed_bytes((#[trigger] listed@[j])@, prefix@) is Ok,
{
    if r is Ok {
        let keys = r->Ok_0@;
        assert forall|i: int| 0 <= i < listed@.len() implies hexcodec::prefixed_bytes(
            (#[trigger] listed@[i])@,
            prefix@,
        ) == Ok::<Seq<u8>, Seq<char>>(keys[i]@) by {
            assert(keys[i]@ == keys[i]@);
        }
    }
}

/// A saved list is loaded as it was recorded; a peer that is looked up is at the
/// address that is held, and every one that is listed is held.
pub proof fn law_peer_books_tell_what_they_hold(
    b: &PeerBook,
    peer_id: &str,
    r: Option<&String>,
    list: Vec<PeerEntry>,
    n: usize,
    empty: bool,
    entries: &Vec<PeerEntry>,
    saved: PeerBook,
)
    requires
        b.wf(),
        call_ensures(PeerBook::from_entries, (entries,), saved),
        call_ensures(PeerBook::get, (b, peer_id), r),
        call_ensures(PeerBook::iter, (b,), list),
        call_ensures(PeerBook::len, (b,), n),
        call_ensures(PeerBook::is_empty, (b,), empty),
    ensures
        r is Some <==> b@.contains_key(peer_id@),
        r is Some ==> r->0@ == b@[peer_id@],
        list@.len() == n && n == b@.len(),
        empty <==> n == 0,
        saved@ == peer_book::loaded(peer_book::entries_view(entries@)),
        forall|i: int|
            0 <= i < list@.len() ==> b@.contains_key((#[trigger] list@[i]).peer_id@)
                && b@[list@[i].peer_id@] == list@[i].multiaddr@,
        forall|i: int, j: int|
            0 <= i < j < list@.len() ==> (#[trigger] list@[i]).peer_id@ != (
            #[trigger] list@[j]).peer_id@,
        b@.contains_key(peer_id@) ==> exists|i: int|
            0 <= i < list@.len() && (#[trigger] list@[i]).peer_id@ == peer_id@,
{
    let v = peer_book::entries_view(list@);
    assert(v.len() == list@.len());
    assert forall|i: int| 0 <= i < list@.len() implies b@.contains_key(
        (#[trigger] list@[i]).peer_id@,
    ) && b@[list@[i].peer_id@] == list@[i].multiaddr@ by {
        assert(v[i] == list@[i]@);
    }
    assert forall|i: int, j: int| 0 <= i < j < list@.len() implies (#[trigger] list@[i]).peer_id@
        != (#[trigger] list@[j]).peer_id@ by {
        assert(v[i] == list@[i]@ && v[j] == list@[j]@);
    }
    if b@.contains_key(peer_id@) {
        let i = choose|i: int| 0 <= i < v.len() && (#[trigger] v[i]).peer_id == peer_id@;
        assert(v[i] == list@[i]@);
    }
}

/// Whenever it is asked, a clock is less than a slot into its slot, and something of
/// that remains; slots are as long as it was told, within ten milliseconds and ten
/// seconds.
pub proof fn law_clocks_stay_in_their_slot(
    c: &SlotClock,
    into: u64,
    remaining: u64,
    genesis_ms: u64,
    block_time_ms: u64,
    made: SlotClock,
)
    requires
        c.wf(),
        call_ensures(SlotClock::ms_into_slot, (c,), into),
        call_ensures(SlotClock::time_remaining, (c,), remaining),
        call_ensures(SlotClock::with_block_time, (genesis_ms, block_time_ms), made),
    ensures
        into < c@.block_time_ms,
        1 <= remaining <= c@.block_time_ms,
        10 <= made@.block_time_ms <= 10_000,
        10 <= block_time_ms <= 10_000 ==> made@.block_time_ms == block_time_ms,
        genesis_ms > 0 ==> made@.genesis_timestamp_ms == genesis_ms,
        genesis_ms == 0 ==> made@.genesis_timestamp_ms == made@.started_ms,
{
}

} // verus!
