//! What clients of the JSON-RPC interface get for their requests, stated of the
//! operations that answer them.
use vstd::prelude::*;

use crate::codec_laws;
use crate::hexcodec;
use crate::hexcodec::RpcError;
use crate::keymap::Key;
use crate::mempool::{FeePayer, PendingPool, Transaction, TransactionType};
use crate::rpc;
use crate::rpc::{
    AccessListStep,
    AuthKeys,
    BlockContext,
    CallBlockContext,
    CallMethod,
    CallOutcome,
    CallRequest,
    ChainHead,
    EncryptedRequest,
    EncryptedTxIngestPolicy,
    RelayVerdict,
    RequestObject,
    SendRequest,
    ValidationFailure,
};
use crate::rpc_laws;
use crate::text;
use crate::words;

verus! {

/// The estimate of a call that uses gas is at least the base cost of 21000 and what
/// the call uses, and above that by a tenth of what it uses, rounded down; of one
/// that uses none, the base cost.
pub proof fn law_estimates_cover_what_is_used(gas_used: u64, s: String)
    requires
        call_ensures(rpc::estimate_after_simulation, (gas_used,), s),
    ensures
        s@.take(2) == "0x"@,
        gas_used == 0 ==> codec_laws::worth_of(s@.skip(2), 16) == 21_000,
        gas_used > 0 ==> {
            let estimate = codec_laws::worth_of(s@.skip(2), 16);
            let margin = estimate - (21_000 + gas_used);
            &&& estimate >= 21_000 + gas_used
            &&& margin == gas_used as int / 10
            &&& 10 * margin <= gas_used < 10 * margin + 10
        },
{
    codec_laws::law_decimal_and_hex_texts(rpc::estimated_gas(gas_used));
}

/// A call that needs no simulation is a deployment, at 32000 and sixteen for each
/// byte, or one to an account without code, at the base cost. Any other one needs
/// one.
pub proof fn law_simple_calls_are_estimated_at_once(
    call: &CallRequest,
    has_code: bool,
    r: Option<String>,
    step: AccessListStep,
)
    requires
        call_ensures(rpc::estimate_without_simulation, (call, has_code), r),
        call_ensures(rpc::access_list_step, (call, has_code), step),
    ensures
        ({
            let to_nobody = forall|i: int| 0 <= i < 32 ==> #[trigger] call.to@[i] == 0;
            &&& r is None <==> !to_nobody && has_code
            &&& to_nobody ==> codec_laws::worth_of(r->0@.skip(2), 16) == 32_000 + 16
                * call.calldata@.len()
            &&& !to_nobody && !has_code ==> codec_laws::worth_of(r->0@.skip(2), 16) == 21_000
            &&& step is Deployment <==> to_nobody
            &&& step is Transfer <==> !to_nobody && !has_code
            &&& step is Simulation <==> r is None
        }),
{
    codec_laws::law_decimal_and_hex_texts(rpc::deploy_gas(call.calldata@.len()));
    codec_laws::law_decimal_and_hex_texts(21_000);
}

/// The gas of a call is what it asks for up to 400 million, and 100 million where it
/// asks for none.
pub proof fn law_call_gas_is_clamped(supplied: Option<u64>, g: u64)
    requires
        call_ensures(rpc::clamp_call_gas, (supplied,), g),
    ensures
        supplied is None ==> g == 100_000_000,
        supplied is Some ==> g <= supplied->0 && g <= 400_000_000 && (g == supplied->0 || g
            == 400_000_000),
{
}

/// A request is for the node's chain, by naming it or by naming none.
pub proof fn law_chains_are_not_mixed(supplied: Option<u64>, node: u64, r: Result<u64, String>)
    requires
        call_ensures(rpc::resolve_request_chain_id, (supplied, node), r),
    ensures
        r is Ok <==> supplied is None || supplied->0 == node,
        r is Ok ==> r->Ok_0 == node,
        r is Err ==> r->Err_0@ == "chainId mismatch: tx claims "@ + text::decimal(
            supplied->0 as nat,
        ) + " but node is on "@ + text::decimal(node as nat),
{
}

/// What is asked of a sender before a transaction is taken, and only on the
/// development network is nothing asked.
pub proof fn law_senders_are_held_to_the_policies(
    sender_pk: Option<Vec<u8>>,
    auth_keys: &AuthKeys,
    fee_payer: &FeePayer,
    chain_id: u64,
    p: EncryptedTxIngestPolicy,
    a: Result<(), &'static str>,
    f: Result<(), &'static str>,
    skips: bool,
)
    requires
        call_ensures(rpc::encrypted_tx_ingest_policy, (sender_pk, chain_id), p),
        call_ensures(rpc::plaintext_tx_ingest_policy, (auth_keys, chain_id), a),
        call_ensures(rpc::fee_payer_ingest_policy, (fee_payer, chain_id), f),
        call_ensures(rpc::skips_signature, (chain_id,), skips),
    ensures
        skips <==> chain_id == 31337,
        a is Ok <==> chain_id == 31337 || *auth_keys is Single,
        f is Ok <==> chain_id == 31337 || *fee_payer is Sender,
        p is Verify <==> sender_pk is Some,
        p is Verify ==> p->Verify_0 == sender_pk->0,
        p is StructuralOnly <==> sender_pk is None && chain_id == 31337,
        p is Reject <==> sender_pk is None && chain_id != 31337,
{
}

/// A transaction that is not on the development network passes only with one key of
/// its sender's, or to register it, and only where the sender pays; and nowhere does
/// one pass that the validator refused.
pub proof fn law_refused_transactions_do_not_pass(
    tx_type: TransactionType,
    auth_keys: &AuthKeys,
    fee_payer: &FeePayer,
    chain_id: u64,
    failure: Option<(ValidationFailure, String)>,
    r: Result<(), RpcError>,
)
    requires
        call_ensures(
            rpc::ingress_validate,
            (tx_type, auth_keys, fee_payer, chain_id, failure),
            r,
        ),
    ensures
        r is Ok <==> failure is None && (chain_id == 31337 || ((*auth_keys is Single || tx_type
            == TransactionType::RegisterPubkey) && *fee_payer is Sender)),
        r is Err && failure is Some && (chain_id == 31337 || ((*auth_keys is Single || tx_type
            == TransactionType::RegisterPubkey) && *fee_payer is Sender)) ==> (r->Err_0@).1
            == "ingress validation: "@ + (failure->0).1@,
        r is Err && failure is None ==> (r->Err_0@).0 == -32001,
{
}

/// A request to send is read field by field: the addresses, the value in decimal, the
/// bytes in hex, 21000 for the gas where it names none, and the nonce that it names.
pub proof fn law_send_requests_are_read(
    dev_mode: bool,
    o: &RequestObject,
    r: Result<SendRequest, RpcError>,
)
    requires
        call_ensures(rpc::parse_send_transaction, (dev_mode, o), r),
    ensures
        r is Ok <==> dev_mode && rpc_laws::names_address(o.from) && !rpc_laws::garbles_address(
            o.to,
        ),
        r is Ok ==> {
            let s = r->Ok_0;
            &&& s.from == hexcodec::address_of(o.from->0@)->Ok_0
            &&& o.to is Some ==> s.to == hexcodec::address_of(o.to->0@)->Ok_0
            &&& o.to is None ==> forall|i: int| 0 <= i < 32 ==> #[trigger] s.to@[i] == 0
            &&& s.value == rpc::decimal_field(o.value)
            &&& s.data@ == rpc::bytes_field(o.data)
            &&& o.gas is None ==> s.gas_limit == 21_000
            &&& o.gas is Some ==> s.gas_limit == o.gas->0
            &&& s.explicit_nonce == o.nonce
            &&& o.tx_type is None && o.to is None ==> s.tx_type == TransactionType::Deploy
        },
        r is Err && dev_mode && o.from is None ==> r->Err_0@ == (
            -32602i32,
            "missing 'from' field"@,
        ),
        r is Err && !dev_mode ==> (r->Err_0@).0 == -32601,
{
    rpc_laws::law_send_requests_are_refused(dev_mode, *o);
    rpc_laws::law_address_fields_are_read(o.from);
    rpc_laws::law_address_fields_are_read(o.to);
    rpc_laws::lemma_zero_key();
    if r is Ok {
        rpc_laws::law_requested_types_are_named(rpc::opt_text(o.tx_type), r->Ok_0.to);
    }
}

/// A transaction is built of its request, unsigned and paid by its sender. Its nonce
/// is the one that is named; where none is, one that no pending transaction of the
/// sender has, neither below the one on chain nor below the pending ones.
pub proof fn law_transactions_are_built_of_their_request(
    req: SendRequest,
    pool: &PendingPool,
    on_chain_nonce: u64,
    chain_id: u64,
    tx: Transaction,
)
    requires
        pool.wf(),
        call_ensures(rpc::build_transaction, (req, pool, on_chain_nonce, chain_id), tx),
    ensures
        tx.from == req.from && tx.to == req.to && tx.value == req.value && tx.data == req.data,
        tx.gas_limit == req.gas_limit && tx.tx_type == req.tx_type && tx.chain_id == chain_id,
        tx.signature@.len() == 0 && tx.access_list@.len() == 0 && tx.deadline is None,
        tx.fee_payer == FeePayer::Sender,
        req.explicit_nonce is Some ==> tx.nonce == req.explicit_nonce->0,
        req.explicit_nonce is None ==> tx.nonce >= on_chain_nonce,
        req.explicit_nonce is None && (forall|k: Key| #[trigger]
            pool@.txs.contains_key(k) ==> pool@.txs[k].from != req.from) ==> tx.nonce
            == on_chain_nonce,
        req.explicit_nonce is None && tx.nonce < u64::MAX ==> forall|k: Key| #[trigger]
            pool@.txs.contains_key(k) && pool@.txs[k].from == req.from ==> pool@.txs[k].nonce
                < tx.nonce,
        req.explicit_nonce is None && tx.nonce > on_chain_nonce && tx.nonce < u64::MAX
            ==> exists|k: Key| #[trigger]
            pool@.txs.contains_key(k) && pool@.txs[k].from == req.from && pool@.txs[k].nonce + 1
                == tx.nonce,
{
    let sent = crate::mempool::sent_by(pool@.txs, req.from);
    if sent == Set::<Key>::empty() {
        assert forall|k: Key| #[trigger] pool@.txs.contains_key(k) implies pool@.txs[k].from
            != req.from by {
            assert(!sent.contains(k));
        }
    } else {
        let k = choose|k: Key| sent.contains(k);
        assert(exists|k: Key| sent.contains(k)) by {
            if forall|k: Key| !sent.contains(k) {
                assert(sent =~= Set::empty());
            }
        }
        assert(pool@.txs.contains_key(k));
    }
}

/// A submitted transaction is answered with its hash and is pending from then on, at
/// the time it came; or it is refused and the pool is as it was. One that ingress
/// refused is refused with just that.
pub proof fn law_submitted_transactions_are_pending(
    tx_hash: Key,
    tx: Transaction,
    ingress: Result<(), RpcError>,
    now: u64,
)
    ensures
        forall|p: &mut PendingPool, r: Result<String, RpcError>| #[trigger]
            call_ensures(rpc::submit_transaction, (p, tx_hash, tx, ingress, now), r) ==> {
                let (b, a) = ((*p)@, (*final(p))@);
                &&& r is Ok ==> r->Ok_0@ == "0x"@ + hexcodec::hex_text(tx_hash@)
                &&& r is Ok ==> a.txs.contains_key(tx_hash) && a.txs[tx_hash] == tx
                    && a.times.contains_key(tx_hash) && a.times[tx_hash] == now
                &&& r is Ok ==> forall|k: Key|
                    k != tx_hash ==> ((#[trigger] a.txs.contains_key(k)) <==> b.txs.contains_key(
                        k,
                    )) && a.txs[k] == b.txs[k]
                &&& r is Err ==> a == b
                &&& ingress is Err ==> r is Err && r->Err_0@ == ingress->Err_0@
                &&& b.txs.len() >= 100_000 ==> r is Err
                &&& (exists|k: Key| #[trigger]
                    b.txs.contains_key(k) && b.txs[k].from == tx.from && b.txs[k].nonce
                        == tx.nonce) ==> r is Err
                &&& crate::mempool::sent_by(b.txs, tx.from).len() >= 128 ==> r is Err
                &&& r is Err && ingress is Ok ==> b.txs.len() >= 100_000
                    || crate::mempool::sent_by(b.txs, tx.from).len() >= 128 || exists|k: Key|
                    #[trigger]
                    b.txs.contains_key(k) && b.txs[k].from == tx.from && b.txs[k].nonce == tx.nonce
            },
{
}

/// Raw transactions, plain and encrypted, are the bytes that their hex writes, with
/// or without `0x`; what is no hex is refused as a bad parameter.
pub proof fn law_raw_transactions_are_their_bytes(
    tx_hex: &str,
    r: Result<Vec<u8>, RpcError>,
    e: Result<Vec<u8>, RpcError>,
    bytes: Seq<u8>,
)
    requires
        call_ensures(rpc::parse_raw_transaction, (tx_hex,), r),
        call_ensures(rpc::parse_raw_encrypted, (tx_hex,), e),
    ensures
        r is Ok <==> e is Ok,
        r is Ok ==> r->Ok_0@ == e->Ok_0@,
        tx_hex@ == "0x"@ + hexcodec::hex_text(bytes) ==> r is Ok && r->Ok_0@ == bytes,
        tx_hex@ == hexcodec::hex_text(bytes) ==> r is Ok && r->Ok_0@ == bytes,
        r is Err ==> (r->Err_0@).0 == -32602 && (e->Err_0@).0 == -32602,
{
    codec_laws::lemma_hex_is_read(bytes);
}

/// A call without a permit is told that the server is busy.
pub proof fn law_calls_need_a_permit(permit: bool, r: Result<(), RpcError>)
    requires
        call_ensures(rpc::concurrency_gate, (permit,), r),
    ensures
        r is Ok <==> permit,
        r is Err ==> r->Err_0@ == (-32000i32, "server busy: too many concurrent calls"@),
{
}

/// A call is read field by field, and has to name whom it calls exactly where it is
/// one to be answered.
pub proof fn law_call_objects_are_read(
    o: &RequestObject,
    method: CallMethod,
    r: Result<CallRequest, RpcError>,
)
    requires
        call_ensures(rpc::parse_call, (o, method), r),
    ensures
        r is Ok <==> !rpc_laws::garbles_address(o.from) && !rpc_laws::garbles_address(o.to) && (
        method != CallMethod::Call || o.to is Some),
        r is Ok ==> {
            let c = r->Ok_0;
            &&& o.from is Some ==> c.from == hexcodec::address_of(o.from->0@)->Ok_0
            &&& o.to is Some ==> c.to == hexcodec::address_of(o.to->0@)->Ok_0
            &&& o.from is None ==> forall|i: int| 0 <= i < 32 ==> #[trigger] c.from@[i] == 0
            &&& o.to is None ==> forall|i: int| 0 <= i < 32 ==> #[trigger] c.to@[i] == 0
            &&& c.calldata@ == rpc::bytes_field(o.data)
            &&& c.value == if method == CallMethod::CreateAccessList {
                rpc::hex_number_field(o.value)
            } else {
                0
            }
            &&& c.gas_limit <= 400_000_000
            &&& o.gas is None ==> c.gas_limit == 100_000_000
            &&& o.gas is Some && o.gas->0 <= 400_000_000 ==> c.gas_limit == o.gas->0
        },
{
    rpc_laws::law_calls_are_refused(*o, method == CallMethod::Call);
    if r is Ok {
        rpc_laws::law_calls_are_read(*o, method, r->Ok_0);
    }
}

/// What a call left in memory is looked for exactly where its second register says
/// that there is some, at the place that the first one names.
pub proof fn law_results_are_in_memory(r1: u64, r2: u64, r: Option<(u64, u64)>)
    requires
        call_ensures(rpc::returned_range, (r1, r2), r),
    ensures
        r is Some <==> r2 != 0,
        r is Some ==> (r->0).0 == r1 && (r->0).1 == r2,
{
}

/// Only a call that returned has a result: its memory, or else its register.
pub proof fn law_call_results_are_told(o: CallOutcome, r: Result<String, RpcError>)
    requires
        call_ensures(rpc::call_result, (o,), r),
    ensures
        r is Ok <==> o is Returned,
        o is Returned && o->r2 > 0 ==> r->Ok_0@ == "0x"@ + hexcodec::hex_text(o->memory@),
        o is Returned && o->r2 == 0 ==> exists|b: Seq<u8>|
            b.len() == 8 && words::le_value(b) == o->r1 && r->Ok_0@
                == #[trigger] hexcodec::prefixed_hex_text(b),
        r is Err ==> (r->Err_0@).0 == -32000,
        o is NoCode ==> (r->Err_0@).1 == "no code at address"@,
        o is LoadFailed ==> (r->Err_0@).1 == "failed to load code: "@ + o->LoadFailed_0@,
        o is Failed ==> (r->Err_0@).1 == "execution failed: "@ + o->Failed_0@,
{
    if o is Returned {
        rpc_laws::law_calls_answer_with_their_result(o, o->r1, o->r2, o->memory);
    }
}

/// A simulated call sees the slots before the head, the last one first, up to 256 of
/// them, and none at the genesis.
pub proof fn law_simulations_see_the_slots_before(
    is_genesis: bool,
    head_slot: u64,
    n: u64,
    r: Vec<u64>,
)
    requires
        call_ensures(rpc::hash_window_len, (is_genesis, head_slot), n),
        call_ensures(rpc::hash_window_slots, (is_genesis, head_slot), r),
    ensures
        r@.len() == n,
        is_genesis ==> n == 0,
        !is_genesis && head_slot <= 256 ==> n == head_slot,
        !is_genesis && head_slot > 256 ==> n == 256,
        forall|i: int| 0 <= i < r@.len() ==> #[trigger] r@[i] + i + 1 == head_slot,
{
}

/// What a simulated call sees of the chain is what memory, or else the disk, knows of
/// the head and of the slots before it; at the genesis it is nothing.
pub proof fn law_simulations_see_the_head(
    is_genesis: bool,
    head_slot: u64,
    memory: Option<(u64, Key)>,
    disk: Option<(u64, Key)>,
    recent: &Vec<(Option<Key>, Option<Key>)>,
    r: CallBlockContext,
)
    requires
        recent@.len() == rpc::hash_window(is_genesis, head_slot),
        call_ensures(
            rpc::build_call_block_context,
            (is_genesis, head_slot, memory, disk, recent),
            r,
        ),
    ensures
        is_genesis ==> r.block_number == 0 && r.timestamp == 0 && r.block_hashes@.len() == 0
            && forall|i: int| 0 <= i < 32 ==> #[trigger] r.proposer@[i] == 0,
        !is_genesis ==> r.block_number == head_slot,
        !is_genesis && memory is Some ==> r.timestamp == (memory->0).0 && r.proposer == (
        memory->0).1,
        !is_genesis && memory is None && disk is Some ==> r.timestamp == (disk->0).0 && r.proposer
            == (disk->0).1,
        !is_genesis && memory is None && disk is None ==> r.timestamp == 0,
        r.block_hashes@.len() == recent@.len(),
        forall|i: int|
            0 <= i < recent@.len() && recent@[i].0 is Some ==> #[trigger] r.block_hashes@[i]
                == words::word_of(recent@[i].0->0),
        forall|i: int|
            0 <= i < recent@.len() && recent@[i].0 is None && recent@[i].1 is Some
                ==> #[trigger] r.block_hashes@[i] == words::word_of(recent@[i].1->0),
{
    rpc_laws::lemma_zero_key();
}

/// A call object is read as an unsigned plain transaction on the node's chain, with a
/// million of gas where it names none, in a block at the head whose slots count 400
/// milliseconds each.
pub proof fn law_call_objects_run_at_the_head(
    o: &RequestObject,
    chain: &ChainHead,
    r: Result<(Transaction, BlockContext), RpcError>,
)
    requires
        chain.head_slot * 400 <= u64::MAX,
        call_ensures(rpc::parse_call_object, (o, chain), r),
    ensures
        r is Ok <==> !rpc_laws::garbles_address(o.from) && !rpc_laws::garbles_address(o.to),
        r is Ok ==> {
            let (tx, b) = r->Ok_0;
            &&& o.from is Some ==> tx.from == hexcodec::address_of(o.from->0@)->Ok_0
            &&& o.to is Some ==> tx.to == hexcodec::address_of(o.to->0@)->Ok_0
            &&& tx.value == rpc::decimal_field(o.value)
            &&& tx.data@ == rpc::bytes_field(o.data)
            &&& o.gas is None ==> tx.gas_limit == 1_000_000
            &&& o.gas is Some ==> tx.gas_limit == o.gas->0
            &&& tx.nonce == 0 && tx.signature@.len() == 0 && tx.access_list@.len() == 0
            &&& tx.fee_payer == FeePayer::Sender && tx.deadline is None
            &&& tx.tx_type == TransactionType::Standard
            &&& tx.chain_id == chain.chain_id && b.chain_id == chain.chain_id
            &&& b.height == chain.head_slot
            &&& b.timestamp == 400 * chain.head_slot
            &&& b.base_fee == chain.base_fee && b.block_gas_limit == chain.block_gas_limit
            &&& !b.dev_skip_signature && !b.block_sigs_pre_verified
        },
{
    rpc_laws::law_calls_are_refused(*o, false);
    rpc_laws::law_address_fields_are_read(o.from);
    rpc_laws::law_address_fields_are_read(o.to);
}

/// A request to encrypt is read field by field, with 100000 of gas and nonce 0 where
/// it names none. It declares that it touches the recipient, or the sender where
/// there is no recipient.
pub proof fn law_encryption_requests_are_read(
    configured: bool,
    o: &RequestObject,
    node_chain_id: u64,
    r: Result<EncryptedRequest, RpcError>,
)
    requires
        call_ensures(rpc::parse_encrypted_request, (configured, o, node_chain_id), r),
    ensures
        r is Ok <==> configured && !rpc_laws::garbles_address(o.from)
            && !rpc_laws::garbles_address(o.to) && (o.chain_id is None || o.chain_id->0
            == node_chain_id),
        r is Ok ==> {
            let e = r->Ok_0;
            let to_nobody = forall|i: int| 0 <= i < 32 ==> #[trigger] e.to@[i] == 0;
            &&& o.from is Some ==> e.from == hexcodec::address_of(o.from->0@)->Ok_0
            &&& o.to is Some ==> e.to == hexcodec::address_of(o.to->0@)->Ok_0
            &&& e.value == rpc::decimal_field(o.value)
            &&& e.data@ == rpc::bytes_field(o.data)
            &&& e.signature@ == rpc::bytes_field(o.signature)
            &&& o.gas is None ==> e.gas_limit == 100_000
            &&& o.gas is Some ==> e.gas_limit == o.gas->0
            &&& o.nonce is None ==> e.nonce == 0
            &&& o.nonce is Some ==> e.nonce == o.nonce->0
            &&& e.chain_id == node_chain_id
            &&& e.access_list@.len() == 1
            &&& e.access_list@[0].reads@.len() == 0 && e.access_list@[0].writes@.len() == 0
            &&& to_nobody ==> e.access_list@[0].address == e.from
            &&& !to_nobody ==> e.access_list@[0].address == e.to
        },
{
    rpc_laws::law_encryption_requests_are_refused(configured, *o, node_chain_id);
    rpc_laws::law_address_fields_are_read(o.from);
    rpc_laws::law_address_fields_are_read(o.to);
}

/// An encrypted transaction's nonce is one of the sixteen from the committed one on,
/// or it is refused; without a committed one every nonce is let in.
pub proof fn law_nonces_stay_in_the_window(
    nonce: u64,
    committed: Option<u64>,
    r: Result<(), RpcError>,
)
    requires
        call_ensures(rpc::check_nonce_window, (nonce, committed), r),
        committed is Some ==> committed->0 + 16 <= u64::MAX,
    ensures
        committed is None ==> r is Ok,
        committed is Some ==> (r is Ok <==> committed->0 <= nonce < committed->0 + 16),
        r is Err ==> (r->Err_0@).0 == -32008,
{
}

/// An encrypted transaction is answered with its hash exactly where it was taken, and
/// the key is told exactly where there is one.
pub proof fn law_relays_are_answered(
    verdict: RelayVerdict,
    tx_hash: &Key,
    key: Option<Vec<u8>>,
    r: Result<String, RpcError>,
    k: Result<String, RpcError>,
)
    requires
        call_ensures(rpc::encrypted_result, (verdict, tx_hash), r),
        call_ensures(rpc::threshold_public_key, (key,), k),
    ensures
        r is Ok <==> verdict is Taken,
        r is Ok ==> r->Ok_0@ == "0x"@ + hexcodec::hex_text(tx_hash@),
        verdict is NoKey ==> (r->Err_0@).0 == -32001,
        verdict is NotTaken ==> (r->Err_0@).0 == -32000,
        k is Ok <==> key is Some,
        k is Ok ==> k->Ok_0@ == "0x"@ + hexcodec::hex_text(key->0@),
        k is Err ==> k->Err_0@ == (-32000i32, "threshold encryption not configured"@),
{
}

/// The balance of an account that is read is its own; of bytes that are no account it
/// is the number that the first sixteen write, the least first, where there are as
/// many.
pub proof fn law_balances_are_read(data: &[u8], account: Option<u128>, r: Option<u128>)
    requires
        call_ensures(rpc::read_account_balance, (data, account), r),
    ensures
        account is Some ==> r == account,
        account is None ==> (r is Some <==> data@.len() >= 16),
        account is None && r is Some ==> r->0 == words::le_value(data@.take(16)),
{
    if data@.len() >= 16 {
        codec_laws::lemma_sixteen_bytes(data@.take(16));
    }
}

/// What is said of requests that cannot be read or served.
pub proof fn law_bad_requests_are_told_why(
    reason: &str,
    code: i32,
    tx: RpcError,
    failed: RpcError,
    wire: RpcError,
    plain: RpcError,
    block: RpcError,
)
    requires
        call_ensures(rpc::invalid_tx_encoding, (reason,), tx),
        call_ensures(rpc::encryption_failed, (reason,), failed),
        call_ensures(rpc::invalid_encrypted_encoding, (), wire),
        call_ensures(rpc::rpc_err, (code, reason), plain),
        call_ensures(crate::rpc_views::block_not_found, (), block),
    ensures
        tx@ == (-32602i32, "invalid tx encoding: "@ + reason@),
        failed@ == (-32000i32, "encryption failed: "@ + reason@),
        wire@ == (-32602i32, "invalid EncryptedTx wire format"@),
        plain@ == (code, reason@),
        block@ == (-32602i32, "block not found for hash"@),
{
}

} // verus!
