//! What clients are shown, stated of the operations that show it.
use vstd::prelude::*;

use crate::codec_laws;
use crate::hexcodec;
use crate::hexcodec::RpcError;
use crate::keymap::Key;
use crate::mempool::PendingPool;
use crate::receipt_store;
use crate::receipt_store::{LogEntry, Receipt, ReceiptStore};
use crate::rpc;
use crate::rpc::CallRequest;
use crate::rpc_laws;
use crate::rpc_views;
use crate::rpc_views::{
    AccessListView,
    AccessView,
    BlockTxFields,
    BlockTxView,
    BlockView,
    FilterObject,
    HeadEvent,
    HeaderFields,
    LogFilter,
    LogView,
    ReceiptView,
    SlotLogView,
    SyncingView,
    TransactionStatus,
    ValidatorRow,
    ValidatorView,
};
use crate::store_laws;
use crate::words;

verus! {

/// Keys are shown one by one, in hex.
pub proof fn law_keys_are_shown_in_hex(keys: &Vec<Key>, r: Vec<String>)
    requires
        call_ensures(rpc_views::key_texts, (keys,), r),
    ensures
        r@.len() == keys@.len(),
        forall|i: int| 0 <= i < keys@.len() ==> (#[trigger] r@[i])@ == "0x"@ + hexcodec::hex_text(
            keys@[i]@,
        ),
{
    lemma_texts_of_keys(r@, keys@);
}

proof fn lemma_texts_of_keys(r: Seq<String>, keys: Seq<Key>)
    requires
        rpc_views::texts(r) == rpc_views::key_texts_of(keys),
    ensures
        r.len() == keys.len(),
        forall|i: int| 0 <= i < keys.len() ==> (#[trigger] r[i])@ == "0x"@ + hexcodec::hex_text(
            keys[i]@,
        ),
{
    let t = rpc_views::texts(r);
    let k = rpc_views::key_texts_of(keys);
    assert(t.len() == r.len() && k.len() == keys.len());
    assert forall|i: int| 0 <= i < keys.len() implies (#[trigger] r[i])@ == "0x"@
        + hexcodec::hex_text(keys[i]@) by {
        assert(t[i] == r[i]@);
        assert(k[i] == hexcodec::prefixed_hex_text(keys[i]@));
    }
}

/// An event is shown with its address, its data and every topic, in hex; a receipt
/// with its numbers and every event.
pub proof fn law_receipts_and_events_are_shown(
    l: &LogEntry,
    r: &Receipt,
    lv: LogView,
    rv: ReceiptView,
)
    requires
        call_ensures(rpc_views::log_view, (l,), lv),
        call_ensures(rpc_views::receipt_to_json, (r,), rv),
    ensures
        lv.address@ == "0x"@ + hexcodec::hex_text(l.address@),
        lv.data@ == "0x"@ + hexcodec::hex_text(l.data@),
        lv.topics@.len() == l.topics@.len(),
        forall|i: int|
            0 <= i < l.topics@.len() ==> (#[trigger] lv.topics@[i])@ == "0x"@ + hexcodec::hex_text(
                l.topics@[i]@,
            ),
        rv.tx_hash@ == "0x"@ + hexcodec::hex_text(r.tx_hash@),
        rv.success == r.success,
        codec_laws::worth_of(rv.gas_used@.skip(2), 16) == r.gas_used,
        codec_laws::worth_of(rv.effective_gas@.skip(2), 16) == r.effective_gas,
        codec_laws::worth_of(rv.fee_paid@, 10) == r.fee_paid,
        codec_laws::worth_of(rv.fee_burned@, 10) == r.fee_burned,
        codec_laws::worth_of(rv.fee_validator@, 10) == r.fee_validator,
        codec_laws::worth_of(rv.fee_treasury@, 10) == r.fee_treasury,
        rv.logs@.len() == r.logs@.len(),
        rv.return_data is Some <==> r.return_data@.len() > 0,
        rv.return_data is Some ==> rv.return_data->0@ == "0x"@ + hexcodec::hex_text(
            r.return_data@,
        ),
{
    rpc_laws::law_events_show_every_topic(lv, *l);
    rpc_laws::law_receipts_show_their_numbers(rv, *r);
}

/// A receipt is found exactly where the store has one under the hash that was asked
/// for, and tells its success and every event.
pub proof fn law_receipts_are_found_by_hash(
    store: &ReceiptStore,
    tx_hash: &str,
    r: Result<Option<ReceiptView>, RpcError>,
)
    requires
        store.wf(),
        call_ensures(rpc_views::transaction_receipt, (store, tx_hash), r),
    ensures
        r is Ok <==> hexcodec::hash_of(tx_hash@) is Ok,
        r is Ok ==> (r->Ok_0 is Some <==> store@.receipts.contains_key(
            hexcodec::hash_of(tx_hash@)->Ok_0,
        )),
        r is Ok && r->Ok_0 is Some ==> r->Ok_0->0.success == store@.receipts[hexcodec::hash_of(
            tx_hash@,
        )->Ok_0].success && r->Ok_0->0.logs@.len() == store@.receipts[hexcodec::hash_of(
            tx_hash@,
        )->Ok_0].logs@.len(),
{
}

/// A transaction is included where there is a receipt of it, pending where there is
/// none and the pool has it, and else not found. An included one is told with its
/// slot, its success and its gas, a pending one with its age in seconds.
pub proof fn law_transactions_are_in_one_place(
    store: &ReceiptStore,
    pool: &PendingPool,
    tx_hash: &Key,
    now: u64,
    s: TransactionStatus,
)
    requires
        store.wf(),
        pool.wf(),
        call_ensures(rpc_views::transaction_status, (store, pool, tx_hash, now), s),
    ensures
        s is Included <==> store@.receipts.contains_key(*tx_hash),
        s is Pending <==> !store@.receipts.contains_key(*tx_hash) && pool@.txs.contains_key(
            *tx_hash,
        ),
        s is NotFound <==> !store@.receipts.contains_key(*tx_hash) && !pool@.txs.contains_key(
            *tx_hash,
        ),
        s is Included ==> s->slot == store@.included[*tx_hash] && s->success
            == store@.receipts[*tx_hash].success && codec_laws::worth_of(s->gas_used@.skip(2), 16)
            == store@.receipts[*tx_hash].gas_used && codec_laws::worth_of(
            s->effective_gas@.skip(2),
            16,
        ) == store@.receipts[*tx_hash].effective_gas,
        s is Pending && pool@.times.contains_key(*tx_hash) && now >= pool@.times[*tx_hash]
            ==> s->age_secs * 1_000_000_000 <= now - pool@.times[*tx_hash] < s->age_secs
            * 1_000_000_000 + 1_000_000_000,
        s is Pending && (!pool@.times.contains_key(*tx_hash) || now < pool@.times[*tx_hash])
            ==> s->age_secs == 0,
{
    if s is Included {
        codec_laws::law_decimal_and_hex_texts(store@.receipts[*tx_hash].gas_used as nat);
        codec_laws::law_decimal_and_hex_texts(store@.receipts[*tx_hash].effective_gas as nat);
    }
}

/// A filter reaches from the first slot to the last where it names none, and refuses
/// only an address that is none; it has a position for each that it is given.
pub proof fn law_filters_reach_over_all_slots(o: &FilterObject, r: Result<LogFilter, RpcError>)
    requires
        call_ensures(rpc_views::parse_log_filter, (o,), r),
    ensures
        r is Ok <==> !rpc_laws::garbles_address(o.address),
        r is Ok ==> {
            let f = r->Ok_0;
            &&& o.from_block is None ==> f.from_slot == 0
            &&& o.from_block is Some ==> f.from_slot == o.from_block->0
            &&& o.to_block is None ==> f.to_slot == u64::MAX
            &&& o.to_block is Some ==> f.to_slot == o.to_block->0
            &&& o.address is None ==> f.address is None
            &&& o.address is Some ==> f.address == Some(
                hexcodec::address_of(o.address->0@)->Ok_0,
            )
            &&& o.topics is None ==> f.topics@.len() == 0
            &&& o.topics is Some ==> f.topics@.len() == o.topics->0@.len()
        },
{
    rpc_laws::law_address_fields_are_read(o.address);
}

/// An event that passes a topic filter has, at each position with alternatives, a
/// topic that is one of them.
pub proof fn law_events_pass_by_their_topics(
    filter: &Vec<Vec<Vec<u8>>>,
    topics: &Vec<Vec<u8>>,
    r: bool,
    place: int,
)
    requires
        call_ensures(rpc_views::log_matches, (filter, topics), r),
        0 <= place < filter@.len(),
        filter@[place]@.len() > 0,
    ensures
        r ==> place < topics@.len(),
        r ==> exists|i: int|
            0 <= i < filter@[place]@.len() && (#[trigger] filter@[place]@[i])@ == topics@[place]@,
{
    rpc_laws::law_topic_filters_name_alternatives(filter@, topics@, place);
}

/// Every event that is shown is one of a receipt that its slot lists, in the range
/// and at the address that the filter names, and its topics pass.
pub proof fn law_shown_events_pass_the_filter(
    store: &ReceiptStore,
    f: &LogFilter,
    out: Vec<SlotLogView>,
    i: int,
) -> (e: (u64, LogEntry))
    requires
        store.wf(),
        call_ensures(rpc_views::get_logs, (store, f), out),
        0 <= i < out@.len(),
    ensures
        out@[i].slot == e.0,
        out@[i].log.address@ == "0x"@ + hexcodec::hex_text(e.1.address@),
        out@[i].log.data@ == "0x"@ + hexcodec::hex_text(e.1.data@),
        f.from_slot <= e.0 <= f.to_slot,
        f.address is Some ==> e.1.address == f.address->0,
        rpc_views::topics_pass(f.topics@, e.1.topics@),
        store@.slots.contains_key(e.0),
        exists|k: Key|
            store@.slots[e.0].contains(k) && store@.receipts.contains_key(k) && #[trigger]
                store@.receipts[k].logs@.contains(e.1),
{
    let all = receipt_store::logs_between(
        store@,
        f.from_slot as int,
        f.to_slot + 1,
        f.address,
    );
    store_laws::lemma_logs_between(store@, f.from_slot as int, f.to_slot + 1, f.address);
    let at = rpc_laws::law_topic_filters_select(all, f.topics@);
    let e = rpc_views::topic_filtered(all, f.topics@)[i];
    assert(all[at[i]] == e);
    assert(store_laws::is_log_of(
        store@,
        all[at[i]],
        f.from_slot as int,
        f.to_slot + 1,
        f.address,
    ));
    e
}

/// A subscription without an address passes every event; one with an address those
/// whose address is the same but for its case.
pub proof fn law_subscriptions_pass_by_address(
    filter: &Option<String>,
    address: &Option<String>,
    r: bool,
    a: &str,
    b: &str,
    same: bool,
)
    requires
        call_ensures(rpc_views::subscription_passes, (filter, address), r),
        call_ensures(rpc_views::passes_lowercase, (a, b), same),
    ensures
        *filter is None ==> r,
        *filter is Some && *address is None ==> !r,
        *filter is Some && *address is Some && filter->0@ == address->0@ ==> r,
        *filter is Some && *address is Some && r ==> rpc_views::lowercased(filter->0@)
            == rpc_views::lowercased(address->0@),
        *filter is Some && *address is Some && rpc_views::lowercased(filter->0@)
            == rpc_views::lowercased(address->0@) ==> r,
        same <==> a@ == b@,
{
}

/// The count of validators is the number that the first eight stored bytes write, the
/// least first; zero where there are fewer.
pub proof fn law_validators_are_counted(stored: &Option<Vec<u8>>, n: u64)
    requires
        call_ensures(rpc_views::validator_count, (stored,), n),
    ensures
        *stored is Some && (*stored)->0@.len() >= 8 ==> n == words::le_value(
            (*stored)->0@.take(8),
        ),
        *stored is None || (*stored)->0@.len() < 8 ==> n == 0,
{
}

/// The validators that are shown are the complete ones, each under its index, in
/// ascending order; and all of them.
pub proof fn law_validators_are_shown(rows: &Vec<ValidatorRow>, out: Vec<ValidatorView>)
    requires
        rows@.len() <= u64::MAX,
        call_ensures(rpc_views::validators_view, (rows,), out),
    ensures
        forall|i: int, j: int|
            0 <= i < j < out@.len() ==> (#[trigger] out@[i]).index < (#[trigger] out@[j]).index,
        forall|j: int|
            0 <= j < out@.len() ==> {
                let v = #[trigger] out@[j];
                &&& v.index < rows@.len()
                &&& rows@[v.index as int].address is Some && rows@[v.index as int].entry is Some
                &&& v.address@ == "0x"@ + hexcodec::hex_text(
                    rows@[v.index as int].address->0@,
                )
                &&& codec_laws::worth_of(v.stake@, 10) == rows@[v.index as int].entry->0.stake
                &&& v.status@ == rpc_views::status_text(rows@[v.index as int].entry->0.status)
            },
        forall|p: int|
            0 <= p < rows@.len() && (#[trigger] rows@[p]).address is Some
                && rows@[p].address->0@.len() == 32 && rows@[p].entry is Some ==> exists|j: int|
                0 <= j < out@.len() && (#[trigger] out@[j]).index == p,
{
    let c = rpc_views::complete_rows(rows@, rows@.len());
    rpc_laws::law_complete_validators_are_shown(rows@, rows@.len());
    assert forall|j: int| 0 <= j < out@.len() implies {
        let v = #[trigger] out@[j];
        &&& v.index < rows@.len()
        &&& v.index == c[j]
        &&& rows@[v.index as int].address is Some && rows@[v.index as int].entry is Some
        &&& v.address@ == "0x"@ + hexcodec::hex_text(rows@[v.index as int].address->0@)
        &&& codec_laws::worth_of(v.stake@, 10) == rows@[v.index as int].entry->0.stake
        &&& v.status@ == rpc_views::status_text(rows@[v.index as int].entry->0.status)
    } by {
        rpc_laws::law_rows_show_their_validator(out@[j], rows@[c[j]], c[j]);
    }
    assert forall|i: int, j: int| 0 <= i < j < out@.len() implies (#[trigger] out@[i]).index < (
    #[trigger] out@[j]).index by {
        assert(c[i] < c[j]);
    }
    assert forall|p: int|
        0 <= p < rows@.len() && (#[trigger] rows@[p]).address is Some
            && rows@[p].address->0@.len() == 32 && rows@[p].entry is Some implies exists|j: int|
        0 <= j < out@.len() && (#[trigger] out@[j]).index == p by {
        let j = choose|j: int| 0 <= j < c.len() && c[j] == p;
        assert(c.contains(p));
        assert(out@[j].index == c[j]);
    }
}

/// The transactions of a block are shown with their own fields, each under its place;
/// of a block that is not known none is.
pub proof fn law_block_transactions_are_shown(
    block: &Option<Vec<BlockTxFields>>,
    out: Vec<BlockTxView>,
)
    requires
        call_ensures(rpc_views::decode_block_transactions, (block,), out),
    ensures
        *block is None ==> out@.len() == 0,
        *block is Some ==> out@.len() == (*block)->0@.len(),
        *block is Some ==> forall|i: int|
            0 <= i < out@.len() ==> {
                let (v, t) = (#[trigger] out@[i], (*block)->0@[i]);
                &&& v.hash@ == "0x"@ + hexcodec::hex_text(t.hash@)
                &&& v.from@ == "0x"@ + hexcodec::hex_text(t.from@)
                &&& v.to@ == "0x"@ + hexcodec::hex_text(t.to@)
                &&& codec_laws::worth_of(v.value@, 10) == t.value
                &&& v.nonce == t.nonce
                &&& v.gas_limit == t.gas_limit
                &&& v.tx_type == t.tx_type
                &&& v.index_in_block == i
            },
{
    if *block is Some {
        assert forall|i: int| 0 <= i < out@.len() implies {
            let (v, t) = (#[trigger] out@[i], (*block)->0@[i]);
            &&& v.hash@ == "0x"@ + hexcodec::hex_text(t.hash@)
            &&& v.from@ == "0x"@ + hexcodec::hex_text(t.from@)
            &&& v.to@ == "0x"@ + hexcodec::hex_text(t.to@)
            &&& codec_laws::worth_of(v.value@, 10) == t.value
            &&& v.nonce == t.nonce
            &&& v.gas_limit == t.gas_limit
            &&& v.tx_type == t.tx_type
            &&& v.index_in_block == i
        } by {
            rpc_laws::law_block_transactions_show_their_fields(out@[i], (*block)->0@[i], i);
        }
    }
}

/// A block is shown with its header's own fields and with as many transactions and
/// hashes as are known.
pub proof fn law_blocks_show_their_header(
    h: &HeaderFields,
    hashes: &Option<Vec<Key>>,
    block: &Option<Vec<BlockTxFields>>,
    v: BlockView,
)
    requires
        call_ensures(rpc_views::block_view, (h, hashes, block), v),
    ensures
        v.slot == h.slot && v.epoch == h.epoch,
        v.block_hash@ == "0x"@ + hexcodec::hex_text(h.block_hash@),
        v.parent_hash@ == "0x"@ + hexcodec::hex_text(h.parent_hash@),
        v.state_root@ == "0x"@ + hexcodec::hex_text(h.state_root@),
        v.tx_root@ == "0x"@ + hexcodec::hex_text(h.tx_root@),
        v.proposer@ == "0x"@ + hexcodec::hex_text(h.proposer@),
        codec_laws::worth_of(v.timestamp@.skip(2), 16) == h.timestamp,
        *hashes is None ==> v.transaction_hashes@.len() == 0,
        *hashes is Some ==> v.transaction_hashes@.len() == (*hashes)->0@.len() && forall|i: int|
            0 <= i < (*hashes)->0@.len() ==> (#[trigger] v.transaction_hashes@[i])@ == "0x"@
                + hexcodec::hex_text((*hashes)->0@[i]@),
        *block is None ==> v.transactions@.len() == 0,
        *block is Some ==> v.transactions@.len() == (*block)->0@.len(),
{
    codec_laws::law_decimal_and_hex_texts(h.timestamp as nat);
    assert(rpc_views::texts(v.transaction_hashes@).len() == v.transaction_hashes@.len());
    if *hashes is Some {
        lemma_texts_of_keys(v.transaction_hashes@, (*hashes)->0@);
    }
}

/// Whether an entry of an access list is for this address, with these reads and
/// writes in hex.
pub open spec fn lists_access(v: AccessView, address: Key, reads: Seq<Key>, writes: Seq<Key>) -> bool {
    &&& v.address@ == "0x"@ + hexcodec::hex_text(address@)
    &&& v.reads@.len() == reads.len()
    &&& forall|i: int| 0 <= i < reads.len() ==> (#[trigger] v.reads@[i])@ == "0x"@
        + hexcodec::hex_text(reads[i]@)
    &&& v.writes@.len() == writes.len()
    &&& forall|i: int| 0 <= i < writes.len() ==> (#[trigger] v.writes@[i])@ == "0x"@
        + hexcodec::hex_text(writes[i]@)
}

/// What access lists hold: of a deployment nothing, of a transfer both balances as
/// written, at the base cost; of a simulated call what it wrote, and apart from that
/// what it only read.
pub proof fn law_access_lists_hold_what_is_touched(
    call: &CallRequest,
    from: &Key,
    from_slot: &Key,
    to: &Key,
    to_slot: &Key,
    accessed: &Vec<Key>,
    written: &Vec<Key>,
    gas_used: u64,
    d: AccessListView,
    t: AccessListView,
    s: AccessListView,
)
    requires
        call_ensures(rpc_views::deploy_access_list, (call,), d),
        call_ensures(rpc_views::transfer_access_list, (from, from_slot, to, to_slot), t),
        call_ensures(rpc_views::simulated_access_list, (to, accessed, written, gas_used), s),
    ensures
        d.access_list@.len() == 0,
        codec_laws::worth_of(d.gas_used@.skip(2), 16) == 32_000 + 16 * call.calldata@.len(),
        t.access_list@.len() == 2,
        lists_access(t.access_list@[0], *from, Seq::empty(), seq![*from_slot]),
        lists_access(t.access_list@[1], *to, Seq::empty(), seq![*to_slot]),
        codec_laws::worth_of(t.gas_used@.skip(2), 16) == 21_000,
        s.access_list@.len() == 1,
        lists_access(
            s.access_list@[0],
            *to,
            rpc_views::unwritten(accessed@, written@),
            written@,
        ),
        codec_laws::worth_of(s.gas_used@.skip(2), 16) == gas_used,
{
    codec_laws::law_decimal_and_hex_texts(rpc::deploy_gas(call.calldata@.len()));
    codec_laws::law_decimal_and_hex_texts(gas_used as nat);
    lemma_access(t.access_list@[0], *from, Seq::empty(), seq![*from_slot]);
    lemma_access(t.access_list@[1], *to, Seq::empty(), seq![*to_slot]);
    lemma_access(
        s.access_list@[0],
        *to,
        rpc_views::unwritten(accessed@, written@),
        written@,
    );
    reveal_strlit("0x5208");
    let g = t.gas_used@.skip(2);
    assert(g =~= seq!['5', '2', '0', '8']);
    assert(g.drop_last() =~= seq!['5', '2', '0']);
    assert(g.drop_last().drop_last() =~= seq!['5', '2']);
    assert(g.drop_last().drop_last().drop_last() =~= seq!['5']);
    assert(g.drop_last().drop_last().drop_last().drop_last() =~= Seq::<char>::empty());
    reveal_with_fuel(codec_laws::worth_of, 6);
}

proof fn lemma_access(v: AccessView, address: Key, reads: Seq<Key>, writes: Seq<Key>)
    requires
        rpc_views::shows_access(v, address, reads, writes),
    ensures
        lists_access(v, address, reads, writes),
{
    lemma_texts_of_keys(v.reads@, reads);
    lemma_texts_of_keys(v.writes@, writes);
}

/// The slots that were only read are those that were accessed and not written, in the
/// order of access.
pub proof fn law_read_slots_were_not_written(accessed: Seq<Key>, written: Seq<Key>) -> (at: Seq<
    int,
>)
    ensures
        at.len() == rpc_views::unwritten(accessed, written).len(),
        forall|i: int|
            0 <= i < at.len() ==> 0 <= #[trigger] at[i] < accessed.len() && !written.contains(
                accessed[at[i]],
            ) && rpc_views::unwritten(accessed, written)[i] == accessed[at[i]],
        forall|i: int, j: int| 0 <= i < j < at.len() ==> #[trigger] at[i] < #[trigger] at[j],
        forall|p: int|
            0 <= p < accessed.len() && !written.contains(#[trigger] accessed[p]) ==> at.contains(
                p,
            ),
    decreases accessed.len(),
{
    if accessed.len() == 0 {
        Seq::empty()
    } else {
        let rest = accessed.drop_last();
        let last = accessed.len() - 1;
        let before = law_read_slots_were_not_written(rest, written);
        let at = if written.contains(accessed.last()) {
            before
        } else {
            before.push(last)
        };
        assert forall|p: int|
            0 <= p < accessed.len() && !written.contains(
                #[trigger] accessed[p],
            ) implies at.contains(p) by {
            if p < last {
                assert(rest[p] == accessed[p]);
                let i = choose|i: int| 0 <= i < before.len() && before[i] == p;
                assert(before.contains(p));
                assert(at[i] == p);
            } else {
                assert(at[before.len() as int] == p);
            }
        }
        at
    }
}

/// The slot of a balance is derived from the address with a four behind it.
pub proof fn law_balance_slots_are_marked(address: &Key, r: Vec<u8>)
    requires
        call_ensures(rpc_views::balance_slot_preimage, (address,), r),
    ensures
        r@.len() == 33,
        r@.take(32) == address@,
        r@[32] == 4,
{
    assert(r@.take(32) =~= address@);
}

/// What is not stored is shown as zero, or as no bytes; what is stored as it is.
pub proof fn law_missing_values_are_shown_as_zero(
    stored: &Option<Vec<u8>>,
    account: Option<u128>,
    n: Option<u64>,
    b: String,
    c: String,
    s: String,
)
    requires
        call_ensures(rpc_views::balance_text, (stored, account), b),
        call_ensures(rpc_views::count_text, (n,), c),
        call_ensures(rpc_views::stored_text, (stored,), s),
    ensures
        *stored is None ==> codec_laws::worth_of(b@, 10) == 0,
        *stored is Some && account is Some ==> codec_laws::worth_of(b@, 10) == account->0,
        *stored is Some && account is None && (*stored)->0@.len() < 16 ==> codec_laws::worth_of(
            b@,
            10,
        ) == 0,
        *stored is Some && account is None && (*stored)->0@.len() >= 16 ==> codec_laws::worth_of(
            b@,
            10,
        ) == words::le_value((*stored)->0@.take(16)),
        n is None ==> codec_laws::worth_of(c@, 10) == 0,
        n is Some ==> codec_laws::worth_of(c@, 10) == n->0,
        *stored is None ==> s@ == "0x"@,
        *stored is Some ==> s@ == "0x"@ + hexcodec::hex_text((*stored)->0@),
{
    codec_laws::law_decimal_and_hex_texts(0);
    codec_laws::law_decimal_and_hex_texts(rpc::number_or(n, 0) as nat);
    if account is Some {
        codec_laws::law_decimal_and_hex_texts(account->0 as nat);
    }
    if *stored is Some && (*stored)->0@.len() >= 16 {
        let v = words::le_value((*stored)->0@.take(16));
        codec_laws::lemma_sixteen_bytes((*stored)->0@.take(16));
        codec_laws::law_decimal_and_hex_texts(v);
    }
    if *stored is None {
        assert(hexcodec::hex_text(Seq::empty()) =~= Seq::<char>::empty());
        assert("0x"@ + hexcodec::hex_text(Seq::empty()) =~= "0x"@);
    }
}

/// The state of the chain and a new head are shown by their own numbers.
pub proof fn law_heads_are_shown(
    head_slot: u64,
    epoch: u64,
    state_root: &Key,
    timestamp: u64,
    proposer: &Key,
    tx_count: u64,
    v: SyncingView,
    e: HeadEvent,
)
    requires
        call_ensures(rpc_views::syncing_view, (head_slot, epoch, state_root), v),
        call_ensures(rpc_views::head_event, (head_slot, timestamp, proposer, tx_count), e),
    ensures
        v.head_slot == head_slot && v.epoch == epoch,
        v.state_root@ == "0x"@ + hexcodec::hex_text(state_root@),
        codec_laws::worth_of(e.slot@.skip(2), 16) == head_slot,
        codec_laws::worth_of(e.timestamp@.skip(2), 16) == timestamp,
        codec_laws::worth_of(e.tx_count@.skip(2), 16) == tx_count,
        e.proposer@ == "0x"@ + hexcodec::hex_text(proposer@),
{
    codec_laws::law_decimal_and_hex_texts(head_slot as nat);
    codec_laws::law_decimal_and_hex_texts(timestamp as nat);
    codec_laws::law_decimal_and_hex_texts(tx_count as nat);
}

proof fn lemma_all_logs(receipts: Seq<Receipt>, i: int, j: int)
    requires
        0 <= i < receipts.len(),
        0 <= j < receipts[i].logs@.len(),
    ensures
        rpc_views::all_logs(receipts).contains(receipts[i].logs@[j]),
    decreases receipts.len(),
{
    let rest = receipts.drop_last();
    let before = rpc_views::all_logs(rest);
    let all = rpc_views::all_logs(receipts);
    if i < receipts.len() - 1 {
        assert(rest[i] == receipts[i]);
        lemma_all_logs(rest, i, j);
        let k = choose|k: int| 0 <= k < before.len() && before[k] == receipts[i].logs@[j];
        assert(all[k] == receipts[i].logs@[j]);
    } else {
        assert(all[before.len() + j] == receipts[i].logs@[j]);
    }
}

/// Every event of the receipts is told to subscribers.
pub proof fn law_every_event_is_told(receipts: &Vec<Receipt>, r: Vec<LogView>, i: int, j: int)
    requires
        call_ensures(rpc_views::log_events, (receipts,), r),
        0 <= i < receipts@.len(),
        0 <= j < receipts@[i].logs@.len(),
    ensures
        exists|k: int|
            0 <= k < r@.len() && (#[trigger] r@[k]).address@ == "0x"@ + hexcodec::hex_text(
                receipts@[i].logs@[j].address@,
            ) && r@[k].data@ == "0x"@ + hexcodec::hex_text(receipts@[i].logs@[j].data@),
{
    lemma_all_logs(receipts@, i, j);
    let all = rpc_views::all_logs(receipts@);
    let k = choose|k: int| 0 <= k < all.len() && all[k] == receipts@[i].logs@[j];
    assert(rpc_views::shows_log(r@[k], all[k]));
}

} // verus!
