//! What the answers of the JSON-RPC interface come to: what an estimate covers,
//! which requests are refused, what a request is read as, and what clients are
//! shown.
use vstd::prelude::*;
use vstd::utf8;

use crate::codec_laws;
use crate::hexcodec;
use crate::hexcodec::RpcFault;
use crate::keymap;
use crate::keymap::Key;
use crate::mempool::{FeePayer, TransactionType};
use crate::receipt_store::{LogEntry, Receipt};
use crate::rpc;
use crate::rpc::{
    AuthKeys,
    CallMethod,
    CallOutcome,
    CallRequest,
    RelayVerdict,
    RequestObject,
    ValidationFailure,
};
use crate::rpc_views;
use crate::rpc_views::{
    BlockTxFields,
    BlockTxView,
    LogView,
    ReceiptView,
    TopicEntry,
    ValidatorRow,
    ValidatorView,
};
use crate::text;
use crate::words;

verus! {

/// The estimate of a call that uses gas covers the base cost of 21000 and all that
/// the call uses, with a tenth of that on top, rounded down; one that uses none is
/// the base cost. More gas never makes for a smaller estimate.
pub proof fn law_estimates_cover_the_call(gas_used: u64, more: u64)
    ensures
        ({
            let e = rpc::estimated_gas(gas_used);
            let margin = e - 21_000 - gas_used;
            &&& gas_used > 0 ==> e >= 21_000 + gas_used
            &&& gas_used > 0 ==> 10 * margin <= gas_used < 10 * margin + 10
            &&& gas_used == 0 ==> e == 21_000
        }),
        gas_used <= more ==> rpc::estimated_gas(gas_used) <= rpc::estimated_gas(more),
{
}

/// A deployment costs 32000, and sixteen more for each byte.
pub proof fn law_deployments_pay_by_the_byte(n: nat)
    ensures
        rpc::deploy_gas(0) == 32_000,
        rpc::deploy_gas(n + 1) == rpc::deploy_gas(n) + 16,
        rpc::deploy_gas(n) >= 32_000 + n,
{
}

/// A simulated call gets the gas that it asks for, but no more than 400 million; one
/// that asks for none gets 100 million.
pub proof fn law_calls_get_the_gas_they_ask_for(g: u64)
    ensures
        rpc::call_gas(None) == 100_000_000,
        rpc::call_gas(Some(g)) <= 400_000_000,
        rpc::call_gas(Some(g)) <= g,
        rpc::call_gas(Some(g)) == g || (rpc::call_gas(Some(g)) == 400_000_000 && g > 400_000_000),
{
}

/// A request is for the node's chain or is refused: one that names no chain is for
/// it, and the refusal of another one names both.
pub proof fn law_requests_are_for_the_node_s_chain(supplied: Option<u64>, node: u64)
    ensures
        rpc::request_chain_id(supplied, node) is Ok <==> supplied is None || supplied->0 == node,
        rpc::request_chain_id(supplied, node) is Ok ==> rpc::request_chain_id(supplied, node)->Ok_0
            == node,
        rpc::request_chain_id(supplied, node) is Err ==> rpc::request_chain_id(
            supplied,
            node,
        )->Err_0 == "chainId mismatch: tx claims "@ + text::decimal(supplied->0 as nat)
            + " but node is on "@ + text::decimal(node as nat),
{
}

/// An encrypted transaction is verified against the sender's key exactly where the
/// sender has one; without one it is refused everywhere but on the development
/// network.
pub proof fn law_encrypted_senders_are_verified(sender_pk: Option<Vec<u8>>, chain_id: u64)
    ensures
        ({
            let p = rpc::encrypted_policy(sender_pk, chain_id);
            &&& p is Verify <==> sender_pk is Some
            &&& p is Verify ==> p->Verify_0 == sender_pk->0
            &&& p is Reject <==> sender_pk is None && chain_id != 31337
            &&& p is StructuralOnly <==> sender_pk is None && chain_id == 31337
        }),
{
}

/// On the development network only the validator refuses, and everywhere what it
/// refuses is refused: with the code of what it found, each of which has its own,
/// but for the two of gas and the two of size.
pub proof fn law_refusals_carry_their_codes(
    tx_type: TransactionType,
    auth_keys: AuthKeys,
    fee_payer: FeePayer,
    chain_id: u64,
    failure: Option<(ValidationFailure, Seq<char>)>,
)
    ensures
        ({
            let r = rpc::ingress_refusal(tx_type, auth_keys, fee_payer, chain_id, failure);
            &&& chain_id == 31337 ==> (r is Some <==> failure is Some)
            &&& failure is Some ==> r is Some
            &&& r is Some ==> exists|why: Seq<char>| (r->0).1 == #[trigger] (
            "ingress validation: "@ + why)
            &&& chain_id == 31337 && failure is Some ==> (r->0).1 == "ingress validation: "@ + (
            failure->0).1 && (r->0).0 == rpc::validation_code((failure->0).0)
            &&& chain_id != 31337 && tx_type != TransactionType::RegisterPubkey && !(
            auth_keys is Single) ==> r is Some && (r->0).0 == -32001
            &&& chain_id != 31337 && !(fee_payer is Sender) ==> r is Some && (r->0).0 == -32001
            &&& (auth_keys is Single || tx_type == TransactionType::RegisterPubkey)
                && fee_payer is Sender && failure is Some ==> (r->0).0 == rpc::validation_code(
                (failure->0).0,
            )
        }),
        rpc::validation_code(ValidationFailure::InvalidSignature) == -32001,
        rpc::validation_code(ValidationFailure::InvalidNonce) == -32002,
        rpc::validation_code(ValidationFailure::InsufficientBalance) == -32003,
        rpc::validation_code(ValidationFailure::WrongChainId) == -32004,
        rpc::validation_code(ValidationFailure::GasLimitTooLow) == -32005,
        rpc::validation_code(ValidationFailure::GasLimitTooHigh) == -32005,
        rpc::validation_code(ValidationFailure::DeadlineExpired) == -32006,
        rpc::validation_code(ValidationFailure::TxTooLarge) == -32007,
        rpc::validation_code(ValidationFailure::CalldataTooLarge) == -32007,
        rpc::validation_code(ValidationFailure::InvalidAccessList) == -32008,
        rpc::validation_code(ValidationFailure::Other) == -32000,
{
}

/// Why a sender or a fee payer is refused, which none is on the development network:
/// only a single key signs, and only the sender pays.
pub proof fn law_policies_name_what_is_missing(
    auth_keys: AuthKeys,
    fee_payer: FeePayer,
    chain_id: u64,
)
    ensures
        ({
            let a = rpc::auth_refusal(auth_keys, chain_id);
            let f = rpc::fee_payer_refusal(fee_payer, chain_id);
            &&& a is Some <==> chain_id != 31337 && !(auth_keys is Single)
            &&& f is Some <==> chain_id != 31337 && !(fee_payer is Sender)
            &&& a is Some && auth_keys is Unset ==> a->0
                == "sender has no registered auth_key (audit 226)"@
            &&& a is Some && auth_keys is MultiSig ==> a->0
                == "MultiSig auth_keys not yet enforced; rejecting on production (audit 304)"@
            &&& f is Some && fee_payer is Paymaster ==> f->0
                == "FeePayer::Paymaster not yet wired; rejecting on production (audit 305)"@
            &&& f is Some && fee_payer is GasTank ==> f->0
                == "FeePayer::GasTank not yet wired; rejecting on production (audit 305)"@
        }),
{
}

/// An address field is the address that its text writes, and the zero address where
/// it is not there; a text that writes none is an error of its own.
pub proof fn law_address_fields_are_read(s: Option<String>)
    ensures
        s is None ==> rpc::address_field(s) == Ok::<Option<Key>, RpcFault>(None),
        s is None ==> rpc::address_or_zero(s) is Ok && forall|i: int|
            0 <= i < 32 ==> #[trigger] rpc::address_or_zero(s)->Ok_0@[i] == 0,
        s is Some ==> rpc::address_or_zero(s) == hexcodec::address_of(s->0@),
        s is Some && hexcodec::address_of(s->0@) is Ok ==> rpc::address_field(s) == Ok::<
            Option<Key>,
            RpcFault,
        >(Some(hexcodec::address_of(s->0@)->Ok_0)),
        s is Some && hexcodec::address_of(s->0@) is Err ==> rpc::address_field(s) == Err::<
            Option<Key>,
            RpcFault,
        >(hexcodec::address_of(s->0@)->Err_0),
{
    if s is None {
        lemma_zero_key();
    }
}

/// The zero address is zero in every byte.
pub proof fn lemma_zero_key()
    ensures
        keymap::all_zero(keymap::zeros()),
{
    let k: Key = [
        0u8, 0u8, 0u8, 0u8, 0u8, 0u8, 0u8, 0u8, 0u8, 0u8, 0u8, 0u8, 0u8, 0u8, 0u8, 0u8, 0u8, 0u8,
        0u8, 0u8, 0u8, 0u8, 0u8, 0u8, 0u8, 0u8, 0u8, 0u8, 0u8, 0u8, 0u8, 0u8,
    ];
    assert(keymap::all_zero(k)) by {
        assert forall|i: int| 0 <= i < 32 implies k@[i] == 0 by {}
    }
}

/// A decimal field is the number that it writes, a hex field the number that it
/// writes with or without `0x`, and a field of bytes the bytes that it writes in hex.
/// Where one is not there it stands for zero, or for no bytes.
pub proof fn law_number_fields_are_read(s: String, n: nat, bytes: Seq<u8>)
    ensures
        n <= u128::MAX && s@ == text::decimal(n) ==> rpc::decimal_field(Some(s)) == n,
        n <= u128::MAX && s@ == text::prefixed_hex(n) ==> rpc::hex_number_field(Some(s)) == n,
        n <= u128::MAX && s@ == text::hexadecimal(n) ==> rpc::hex_number_field(Some(s)) == n,
        s@ == hexcodec::prefixed_hex_text(bytes) ==> rpc::bytes_field(Some(s)) == bytes,
        s@ == hexcodec::hex_text(bytes) ==> rpc::bytes_field(Some(s)) == bytes,
        rpc::decimal_field(None) == 0,
        rpc::hex_number_field(None) == 0,
        rpc::bytes_field(None).len() == 0,
        rpc::decimal_field(Some(s)) <= u128::MAX,
        rpc::hex_number_field(Some(s)) <= u128::MAX,
{
    codec_laws::law_written_numbers_are_read_back(n, 10, u128::MAX as nat);
    codec_laws::law_written_numbers_are_read_back(n, 16, u128::MAX as nat);
    hexcodec::law_hex_round_trip(bytes);
    codec_laws::lemma_prefixed_number(n);
}

/// A number that a request leaves out is what stands for it.
pub proof fn law_defaults_stand_in(v: Option<u64>, default: u64)
    ensures
        v is None ==> rpc::number_or(v, default) == default,
        v is Some ==> rpc::number_or(v, default) == v->0,
{
}

/// The type of a requested transaction is the one that it names; where it names none
/// that is known, a transaction to nobody deploys and any other one is a plain one.
pub proof fn law_requested_types_are_named(name: Option<Seq<char>>, to: Key)
    ensures
        ({
            let t = rpc::requested_type(name, to);
            let named = name == Some("stakeDeposit"@) || name == Some("stakeWithdraw"@) || name
                == Some("deploy"@) || name == Some("slash"@);
            let nobody = forall|i: int| 0 <= i < 32 ==> #[trigger] to@[i] == 0;
            &&& t == TransactionType::StakeDeposit <==> name == Some("stakeDeposit"@)
            &&& t == TransactionType::StakeWithdraw <==> name == Some("stakeWithdraw"@)
            &&& t == TransactionType::Slash <==> name == Some("slash"@)
            &&& t == TransactionType::Deploy <==> name == Some("deploy"@) || (!named && nobody)
            &&& t == TransactionType::Standard <==> !named && !nobody
        }),
{
    reveal_strlit("stakeDeposit");
    reveal_strlit("stakeWithdraw");
    reveal_strlit("deploy");
    reveal_strlit("slash");
    assert("stakeDeposit"@.len() == 12 && "stakeWithdraw"@.len() == 13 && "deploy"@.len() == 6
        && "slash"@.len() == 5);
}

/// Whether an address field is there and writes an address.
pub open spec fn names_address(s: Option<String>) -> bool {
    s is Some && hexcodec::address_of(s->0@) is Ok
}

/// Whether an address field is there and writes none.
pub open spec fn garbles_address(s: Option<String>) -> bool {
    s is Some && hexcodec::address_of(s->0@) is Err
}

/// A transaction is sent for somebody only in development mode, only where the
/// request names the sender, and only where it garbles no address. The first of
/// these that is missing is what the refusal tells.
pub proof fn law_send_requests_are_refused(dev_mode: bool, o: RequestObject)
    ensures
        ({
            let f = rpc::send_fault(dev_mode, o);
            &&& f is None <==> dev_mode && names_address(o.from) && !garbles_address(o.to)
            &&& !dev_mode ==> (f->0).0 == -32601
            &&& dev_mode && o.from is None ==> f == Some((-32602i32, "missing 'from' field"@))
            &&& dev_mode && garbles_address(o.from) ==> f == Some(
                hexcodec::address_of(o.from->0@)->Err_0,
            )
            &&& dev_mode && names_address(o.from) && garbles_address(o.to) ==> f == Some(
                hexcodec::address_of(o.to->0@)->Err_0,
            )
        }),
{
}

/// A call is refused where it garbles an address, and where it names no recipient
/// though it has to; a sender it need not name.
pub proof fn law_calls_are_refused(o: RequestObject, to_required: bool)
    ensures
        ({
            let f = rpc::call_fault(o, to_required);
            &&& f is None <==> !garbles_address(o.from) && !garbles_address(o.to) && (
            !to_required || o.to is Some)
            &&& garbles_address(o.from) ==> f == Some(hexcodec::address_of(o.from->0@)->Err_0)
            &&& !garbles_address(o.from) && garbles_address(o.to) ==> f == Some(
                hexcodec::address_of(o.to->0@)->Err_0,
            )
            &&& !garbles_address(o.from) && o.to is None && to_required ==> f == Some(
                (-32602i32, "missing 'to' for call"@),
            )
        }),
{
}

/// A call is read as what its object says: both addresses, the bytes, the gas within
/// its bound; and a value only where an access list is asked for.
pub proof fn law_calls_are_read(o: RequestObject, method: CallMethod, c: CallRequest)
    requires
        rpc::call_of(o, method, c),
    ensures
        names_address(o.from) ==> c.from == hexcodec::address_of(o.from->0@)->Ok_0,
        names_address(o.to) ==> c.to == hexcodec::address_of(o.to->0@)->Ok_0,
        o.from is None ==> forall|i: int| 0 <= i < 32 ==> #[trigger] c.from@[i] == 0,
        o.to is None ==> forall|i: int| 0 <= i < 32 ==> #[trigger] c.to@[i] == 0,
        c.calldata@ == rpc::bytes_field(o.data),
        method == CallMethod::CreateAccessList ==> c.value == rpc::hex_number_field(o.value),
        method != CallMethod::CreateAccessList ==> c.value == 0,
        o.gas is None ==> c.gas_limit == 100_000_000,
        o.gas is Some && o.gas->0 <= 400_000_000 ==> c.gas_limit == o.gas->0,
        o.gas is Some && o.gas->0 > 400_000_000 ==> c.gas_limit == 400_000_000,
{
    law_address_fields_are_read(o.from);
    law_address_fields_are_read(o.to);
    lemma_zero_key();
}

/// A request to encrypt is refused where the node cannot, where it garbles an
/// address, and where it is for another chain.
pub proof fn law_encryption_requests_are_refused(
    configured: bool,
    o: RequestObject,
    node_chain_id: u64,
)
    ensures
        ({
            let f = rpc::encryption_fault(configured, o, node_chain_id);
            &&& f is None <==> configured && !garbles_address(o.from) && !garbles_address(o.to) && (
            o.chain_id is None || o.chain_id->0 == node_chain_id)
            &&& !configured ==> f == Some((-32000i32, "threshold encryption not configured"@))
            &&& configured && garbles_address(o.from) ==> f == Some(
                hexcodec::address_of(o.from->0@)->Err_0,
            )
            &&& configured && !garbles_address(o.from) && garbles_address(o.to) ==> f == Some(
                hexcodec::address_of(o.to->0@)->Err_0,
            )
            &&& configured && !garbles_address(o.from) && !garbles_address(o.to) && f is Some ==> (
            f->0).0 == -32602
        }),
{
}

/// A call that succeeded answers with the bytes in memory where it left some, and
/// else with its register, in eight bytes of which the first counts the least; every
/// other one is an error.
pub proof fn law_calls_answer_with_their_result(o: CallOutcome, r1: u64, r2: u64, memory: Vec<u8>)
    ensures
        rpc::call_answer(o) is Ok <==> o is Returned,
        rpc::call_answer(o) is Err ==> (rpc::call_answer(o)->Err_0).0 == -32000,
        rpc::call_answer(CallOutcome::NoCode)->Err_0 == (-32000i32, "no code at address"@),
        o is LoadFailed ==> (rpc::call_answer(o)->Err_0).1 == "failed to load code: "@
            + o->LoadFailed_0@,
        o is Failed ==> (rpc::call_answer(o)->Err_0).1 == "execution failed: "@ + o->Failed_0@,
        r2 > 0 ==> rpc::call_answer(CallOutcome::Returned { r1, r2, memory }) == Ok::<
            Seq<char>,
            RpcFault,
        >(hexcodec::prefixed_hex_text(memory@)),
        r2 == 0 ==> exists|b: Seq<u8>|
            b.len() == 8 && words::le_value(b) == r1 && rpc::call_answer(
                CallOutcome::Returned { r1, r2, memory },
            ) == Ok::<Seq<char>, RpcFault>(#[trigger] hexcodec::prefixed_hex_text(b)),
{
    let b = words::le_bytes(r1 as nat, 8);
    reveal_with_fuel(words::pow256, 9);
    words::law_le_round_trip(r1 as nat, 8);
    assert(hexcodec::prefixed_hex_text(b) == hexcodec::prefixed_hex_text(b));
}

/// A simulated call sees as many earlier slots as there are, up to 256, and none at
/// the genesis.
pub proof fn law_calls_see_256_slots_back(head_slot: u64)
    ensures
        rpc::hash_window(true, head_slot) == 0,
        rpc::hash_window(false, head_slot) <= 256,
        rpc::hash_window(false, head_slot) <= head_slot,
        rpc::hash_window(false, head_slot) == 256 || rpc::hash_window(false, head_slot)
            == head_slot,
{
}

/// What memory knows of a block comes before what the disk knows; what neither knows
/// is zero.
pub proof fn law_memory_comes_before_disk(
    memory: Option<Key>,
    disk: Option<Key>,
    head_memory: Option<(u64, Key)>,
    head_disk: Option<(u64, Key)>,
)
    ensures
        memory is Some ==> rpc::known_hash((memory, disk)) == memory->0,
        memory is None && disk is Some ==> rpc::known_hash((memory, disk)) == disk->0,
        memory is None && disk is None ==> forall|i: int|
            0 <= i < 32 ==> #[trigger] rpc::known_hash((memory, disk))@[i] == 0,
        head_memory is Some ==> rpc::known_head(head_memory, head_disk) == head_memory->0,
        head_memory is None && head_disk is Some ==> rpc::known_head(head_memory, head_disk)
            == head_disk->0,
        head_memory is None && head_disk is None ==> rpc::known_head(head_memory, head_disk).0 == 0
            && forall|i: int|
            0 <= i < 32 ==> #[trigger] rpc::known_head(head_memory, head_disk).1@[i] == 0,
{
    lemma_zero_key();
}

/// The nonce of an encrypted transaction is let in exactly where it is one of the
/// sixteen from the committed one on, or where none is committed; the refusal tells
/// whether it is past them or below.
pub proof fn law_sixteen_nonces_are_in_flight(nonce: u64, base: u64)
    requires
        base + 16 <= u64::MAX,
    ensures
        rpc::window_refusal(nonce, None) is None,
        rpc::window_refusal(nonce, Some(base)) is None <==> base <= nonce < base + 16,
        rpc::window_refusal(nonce, Some(base)) is Some ==> (rpc::window_refusal(
            nonce,
            Some(base),
        )->0).0 == -32008,
        nonce < base ==> (rpc::window_refusal(nonce, Some(base))->0).1 == "encrypted-tx nonce "@
            + text::decimal(nonce as nat) + " is below the chain's committed nonce "@
            + text::decimal(base as nat),
        nonce >= base + 16 ==> (rpc::window_refusal(nonce, Some(base))->0).1
            == "encrypted-tx nonce "@ + text::decimal(nonce as nat)
            + " is past the in-flight window ["@ + text::decimal(base as nat) + ", "@
            + text::decimal((base + 16) as nat) + "); submit when prior nonces commit"@,
{
}

/// An encrypted transaction is answered with its hash exactly where it was taken.
pub proof fn law_taken_transactions_are_answered_with_their_hash(
    verdict: RelayVerdict,
    tx_hash: Key,
)
    ensures
        rpc::encrypted_answer(verdict, tx_hash) is Ok <==> verdict is Taken,
        verdict is Taken ==> rpc::encrypted_answer(verdict, tx_hash)->Ok_0
            == hexcodec::prefixed_hex_text(tx_hash@),
        verdict is NoKey ==> (rpc::encrypted_answer(verdict, tx_hash)->Err_0).0 == -32001,
        verdict is NotTaken ==> (rpc::encrypted_answer(verdict, tx_hash)->Err_0).0 == -32000,
{
}

/// A topic filter passes an event exactly where, at each place for which it names
/// alternatives, the event has a topic that is one of them.
pub proof fn law_topic_filters_name_alternatives(
    filter: Seq<Vec<Vec<u8>>>,
    topics: Seq<Vec<u8>>,
    place: int,
)
    requires
        0 <= place < filter.len(),
    ensures
        filter[place]@.len() > 0 && place >= topics.len() ==> !rpc_views::topics_pass(
            filter,
            topics,
        ),
        filter[place]@.len() > 0 && place < topics.len() && (forall|i: int|
            0 <= i < filter[place]@.len() ==> (#[trigger] filter[place]@[i])@ != topics[place]@)
            ==> !rpc_views::topics_pass(filter, topics),
        (forall|p: int|
            0 <= p < filter.len() ==> (#[trigger] filter[p])@.len() == 0 || (p < topics.len()
                && exists|i: int|
                0 <= i < filter[p]@.len() && (#[trigger] filter[p]@[i])@ == topics[p]@))
            ==> rpc_views::topics_pass(filter, topics),
{
    if filter[place]@.len() > 0 && place < topics.len() && (forall|i: int|
        0 <= i < filter[place]@.len() ==> (#[trigger] filter[place]@[i])@ != topics[place]@) {
        assert(!rpc_views::one_of(filter[place]@, topics[place]@));
    }
    if forall|p: int|
        0 <= p < filter.len() ==> (#[trigger] filter[p])@.len() == 0 || (p < topics.len()
            && exists|i: int|
            0 <= i < filter[p]@.len() && (#[trigger] filter[p]@[i])@ == topics[p]@) {
        assert forall|i: int| 0 <= i < filter.len() && (#[trigger] filter[i])@.len()
            > 0 implies i < topics.len() && rpc_views::one_of(filter[i]@, topics[i]@) by {}
    }
}

/// Filtering by topics leaves the events that pass, in their order, and no others.
pub proof fn law_topic_filters_select(logs: Seq<(u64, LogEntry)>, topics: Seq<Vec<Vec<u8>>>) -> (at:
    Seq<int>)
    ensures
        at.len() == rpc_views::topic_filtered(logs, topics).len(),
        forall|i: int|
            0 <= i < at.len() ==> 0 <= #[trigger] at[i] < logs.len() && rpc_views::topics_pass(
                topics,
                logs[at[i]].1.topics@,
            ) && rpc_views::topic_filtered(logs, topics)[i] == logs[at[i]],
        forall|i: int, j: int| 0 <= i < j < at.len() ==> #[trigger] at[i] < #[trigger] at[j],
        forall|p: int|
            0 <= p < logs.len() && rpc_views::topics_pass(topics, (#[trigger] logs[p]).1.topics@)
                ==> at.contains(p),
    decreases logs.len(),
{
    if logs.len() == 0 {
        Seq::empty()
    } else {
        let rest = logs.drop_last();
        let before = law_topic_filters_select(rest, topics);
        let last = logs.len() - 1;
        if rpc_views::topics_pass(topics, logs.last().1.topics@) {
            let at = before.push(last);
            assert forall|p: int|
                0 <= p < logs.len() && rpc_views::topics_pass(
                    topics,
                    (#[trigger] logs[p]).1.topics@,
                ) implies at.contains(p) by {
                if p < last {
                    assert(rest[p] == logs[p]);
                    let i = choose|i: int| 0 <= i < before.len() && before[i] == p;
                    assert(at[i] == p);
                } else {
                    assert(at[before.len() as int] == p);
                }
            }
            at
        } else {
            assert forall|p: int|
                0 <= p < logs.len() && rpc_views::topics_pass(
                    topics,
                    (#[trigger] logs[p]).1.topics@,
                ) implies before.contains(p) by {
                assert(p < last);
                assert(rest[p] == logs[p]);
            }
            before
        }
    }
}

/// A topic is written in hex after any number of `0x`. A single one stands for its
/// first 32 bytes, and for anything where it writes none; a list stands for each of
/// its texts, in their order.
pub proof fn law_topics_are_read(e: TopicEntry, items: Seq<Option<String>>, s: String, bytes: Seq<u8>)
    ensures
        e is Any ==> rpc_views::position_topics(e).len() == 0,
        e is One && rpc_views::topic_bytes(e->One_0@).len() == 0 ==> rpc_views::position_topics(
            e,
        ).len() == 0,
        e is One && rpc_views::topic_bytes(e->One_0@).len() > 0 ==> {
            let p = rpc_views::position_topics(e);
            let b = rpc_views::topic_bytes(e->One_0@);
            &&& p.len() == 1
            &&& p[0].len() <= 32
            &&& p[0] == b || (p[0].len() == 32 && b.len() > 32)
            &&& p[0] == b.take(p[0].len() as int)
        },
        e is OneOf ==> rpc_views::position_topics(e) == rpc_views::alternatives(e->OneOf_0@),
        rpc_views::alternatives(Seq::empty()).len() == 0,
        rpc_views::alternatives(items.push(None)) == rpc_views::alternatives(items),
        rpc_views::alternatives(items.push(Some(s))) == rpc_views::alternatives(items).push(
            rpc_views::topic_bytes(s@),
        ),
        s@ == hexcodec::prefixed_hex_text(bytes) ==> rpc_views::topic_bytes(s@) == bytes,
        s@ == hexcodec::hex_text(bytes) ==> rpc_views::topic_bytes(s@) == bytes,
{
    assert(items.push(None).drop_last() =~= items);
    assert(items.push(Some(s)).drop_last() =~= items);
    codec_laws::lemma_hex_without_all_prefixes(bytes);
    if e is One {
        let b = rpc_views::topic_bytes(e->One_0@);
        assert(b.take(b.len() as int) =~= b);
    }
}

/// What a validator's status is called.
pub proof fn law_statuses_have_names(status: u8)
    ensures
        status == 0 ==> rpc_views::status_text(status) == "active"@,
        status == 1 ==> rpc_views::status_text(status) == "unbonding"@,
        status == 2 ==> rpc_views::status_text(status) == "exited"@,
        status > 2 ==> rpc_views::status_text(status) == "unknown"@,
{
}

/// The validators that are shown are those with an address of 32 bytes and a
/// record, each under its index, in ascending order.
pub proof fn law_complete_validators_are_shown(rows: Seq<ValidatorRow>, n: nat)
    requires
        n <= rows.len(),
    ensures
        ({
            let c = rpc_views::complete_rows(rows, n);
            &&& forall|i: int|
                0 <= i < c.len() ==> 0 <= #[trigger] c[i] < n && rows[c[i]].address is Some
                    && rows[c[i]].address->0@.len() == 32 && rows[c[i]].entry is Some
            &&& forall|i: int, j: int| 0 <= i < j < c.len() ==> #[trigger] c[i] < #[trigger] c[j]
            &&& forall|p: int|
                0 <= p < n && (#[trigger] rows[p]).address is Some && rows[p].address->0@.len()
                    == 32 && rows[p].entry is Some ==> c.contains(p)
        }),
    decreases n,
{
    let c = rpc_views::complete_rows(rows, n);
    if n > 0 {
        let before = rpc_views::complete_rows(rows, (n - 1) as nat);
        law_complete_validators_are_shown(rows, (n - 1) as nat);
        assert forall|p: int|
            0 <= p < n && (#[trigger] rows[p]).address is Some && rows[p].address->0@.len() == 32
                && rows[p].entry is Some implies c.contains(p) by {
            if p < n - 1 {
                let i = choose|i: int| 0 <= i < before.len() && before[i] == p;
                assert(c[i] == p);
            } else {
                assert(c[before.len() as int] == p);
            }
        }
    }
}

/// A row shows the validator's own address, stake, status and index.
pub proof fn law_rows_show_their_validator(v: ValidatorView, r: ValidatorRow, i: int)
    requires
        rpc_views::shows_row(v, r, i),
    ensures
        v.address@ == hexcodec::prefixed_hex_text(r.address->0@),
        codec_laws::worth_of(v.stake@, 10) == r.entry->0.stake,
        v.index == i,
        r.entry->0.status == 0 <==> v.status@ == "active"@,
{
    codec_laws::law_decimal_and_hex_texts(r.entry->0.stake as nat);
    reveal_strlit("active");
    reveal_strlit("unbonding");
    reveal_strlit("exited");
    reveal_strlit("unknown");
    assert("active"@.len() == 6 && "unbonding"@.len() == 9 && "exited"@.len() == 6
        && "unknown"@.len() == 7);
    assert("active"@[0] == 'a' && "exited"@[0] == 'e');
}

/// A receipt shows its own numbers: gas in hex, fees in decimal, and every event.
pub proof fn law_receipts_show_their_numbers(v: ReceiptView, r: Receipt)
    requires
        rpc_views::shows_receipt(v, r),
    ensures
        v.tx_hash@ == hexcodec::prefixed_hex_text(r.tx_hash@),
        v.success == r.success,
        codec_laws::worth_of(v.gas_used@.skip(2), 16) == r.gas_used,
        codec_laws::worth_of(v.effective_gas@.skip(2), 16) == r.effective_gas,
        codec_laws::worth_of(v.fee_paid@, 10) == r.fee_paid,
        codec_laws::worth_of(v.fee_burned@, 10) == r.fee_burned,
        codec_laws::worth_of(v.fee_validator@, 10) == r.fee_validator,
        codec_laws::worth_of(v.fee_treasury@, 10) == r.fee_treasury,
        v.logs@.len() == r.logs@.len(),
        forall|i: int|
            0 <= i < r.logs@.len() ==> (#[trigger] v.logs@[i]).address@
                == hexcodec::prefixed_hex_text(r.logs@[i].address@) && v.logs@[i].data@
                == hexcodec::prefixed_hex_text(r.logs@[i].data@) && v.logs@[i].topics@.len()
                == r.logs@[i].topics@.len(),
        v.return_data is Some <==> r.return_data@.len() > 0,
        v.return_data is Some ==> v.return_data->0@ == hexcodec::prefixed_hex_text(
            r.return_data@,
        ),
{
    codec_laws::law_decimal_and_hex_texts(r.gas_used as nat);
    codec_laws::law_decimal_and_hex_texts(r.effective_gas as nat);
    codec_laws::law_decimal_and_hex_texts(r.fee_paid as nat);
    codec_laws::law_decimal_and_hex_texts(r.fee_burned as nat);
    codec_laws::law_decimal_and_hex_texts(r.fee_validator as nat);
    codec_laws::law_decimal_and_hex_texts(r.fee_treasury as nat);
    assert forall|i: int| 0 <= i < r.logs@.len() implies (#[trigger] v.logs@[i]).topics@.len()
        == r.logs@[i].topics@.len() by {
        law_events_show_every_topic(v.logs@[i], r.logs@[i]);
    }
}

/// An event shows its address, its data and each of its topics.
pub proof fn law_events_show_every_topic(v: LogView, l: LogEntry)
    requires
        rpc_views::shows_log(v, l),
    ensures
        v.address@ == hexcodec::prefixed_hex_text(l.address@),
        v.data@ == hexcodec::prefixed_hex_text(l.data@),
        v.topics@.len() == l.topics@.len(),
        forall|i: int|
            0 <= i < l.topics@.len() ==> (#[trigger] v.topics@[i])@ == hexcodec::prefixed_hex_text(
                l.topics@[i]@,
            ),
{
    let shown = rpc_views::texts(v.topics@);
    let owed = rpc_views::byte_texts_of(l.topics@);
    assert(shown.len() == v.topics@.len());
    assert(owed.len() == l.topics@.len());
    assert forall|i: int| 0 <= i < l.topics@.len() implies (#[trigger] v.topics@[i])@
        == hexcodec::prefixed_hex_text(l.topics@[i]@) by {
        assert(shown[i] == v.topics@[i]@);
        assert(owed[i] == hexcodec::prefixed_hex_text(l.topics@[i]@));
    }
}

/// A transaction of a block shows its own fields, and its place.
pub proof fn law_block_transactions_show_their_fields(v: BlockTxView, t: BlockTxFields, i: int)
    requires
        rpc_views::shows_tx(v, t, i),
    ensures
        v.hash@ == hexcodec::prefixed_hex_text(t.hash@),
        v.from@ == hexcodec::prefixed_hex_text(t.from@),
        v.to@ == hexcodec::prefixed_hex_text(t.to@),
        codec_laws::worth_of(v.value@, 10) == t.value,
        v.nonce == t.nonce,
        v.gas_limit == t.gas_limit,
        v.tx_type == t.tx_type,
        v.index_in_block == i,
{
    codec_laws::law_decimal_and_hex_texts(t.value as nat);
}

/// The events of receipts come receipt by receipt.
pub proof fn law_events_come_receipt_by_receipt(receipts: Seq<Receipt>, r: Receipt)
    ensures
        rpc_views::all_logs(Seq::empty()).len() == 0,
        rpc_views::all_logs(receipts.push(r)) == rpc_views::all_logs(receipts) + r.logs@,
{
    assert(receipts.push(r).drop_last() =~= receipts);
}

/// The slots that were only read keep their order.
pub proof fn law_read_slots_keep_their_order(accessed: Seq<Key>, written: Seq<Key>, k: Key)
    ensures
        rpc_views::unwritten(Seq::empty(), written).len() == 0,
        written.contains(k) ==> rpc_views::unwritten(accessed.push(k), written)
            == rpc_views::unwritten(accessed, written),
        !written.contains(k) ==> rpc_views::unwritten(accessed.push(k), written)
            == rpc_views::unwritten(accessed, written).push(k),
{
    assert(accessed.push(k).drop_last() =~= accessed);
}

/// A number field that writes no number stands for zero, as one that is not there
/// does; and a field of bytes that writes none for no bytes.
pub proof fn law_garbled_fields_are_zero(s: String)
    ensures
        text::number_in(utf8::encode_utf8(s@), 10, u128::MAX as nat) is None ==> rpc::decimal_field(
            Some(s),
        ) == 0,
        text::number_in(
            hexcodec::without_0x(utf8::encode_utf8(s@)),
            16,
            u128::MAX as nat,
        ) is None ==> rpc::hex_number_field(Some(s)) == 0,
        !hexcodec::is_hex(hexcodec::without_0x(utf8::encode_utf8(s@))) ==> rpc::bytes_field(
            Some(s),
        ).len() == 0,
{
}

} // verus!
