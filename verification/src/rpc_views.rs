//! What the JSON-RPC answers say: numbers, hashes and bytes as the texts that
//! clients read.
use vstd::prelude::*;
use vstd::utf8;

use crate::hexcodec;
use crate::hexcodec::{
    decode_or_empty,
    key_text,
    parse_address,
    parse_hash,
    prefixed_hex_of,
    strip_all_0x,
    RpcError,
    RpcFault,
};
use crate::keymap;
use crate::keymap::{key_eq, key_from_slice, Key};
use crate::mempool;
use crate::mempool::PendingPool;
use crate::receipt_store;
use crate::receipt_store::{LogEntry, Receipt, ReceiptStore};
use crate::rpc;
use crate::rpc::{read_account_balance, CallRequest};
use crate::text;
use crate::text::{bytes_eq, str_eq, to_decimal, to_prefixed_hex};
use crate::words;
use crate::words::decode_u64;

verus! {

/// Texts by their views.
pub open spec fn texts(v: Seq<String>) -> Seq<Seq<char>> {
    v.map_values(|s: String| s@)
}

/// Keys in hex.
pub open spec fn key_texts_of(keys: Seq<Key>) -> Seq<Seq<char>> {
    keys.map_values(|k: Key| hexcodec::prefixed_hex_text(k@))
}

/// Byte strings in hex.
pub open spec fn byte_texts_of(list: Seq<Vec<u8>>) -> Seq<Seq<char>> {
    list.map_values(|b: Vec<u8>| hexcodec::prefixed_hex_text(b@))
}

/// Keys in hex.
pub fn key_texts(keys: &Vec<Key>) -> (r: Vec<String>)
    ensures
        texts(r@) == key_texts_of(keys@),
{
    let mut out: Vec<String> = Vec::new();
    let mut i: usize = 0;
    while i < keys.len()
        invariant
            i <= keys@.len(),
            out@.len() == i,
            forall|j: int|
                0 <= j < i ==> (#[trigger] out@[j])@ == hexcodec::prefixed_hex_text(keys@[j]@),
        decreases keys@.len() - i,
    {
        out.push(key_text(&keys[i]));
        i = i + 1;
    }
    assert(texts(out@) =~= key_texts_of(keys@));
    out
}

fn byte_texts(list: &Vec<Vec<u8>>) -> (r: Vec<String>)
    ensures
        texts(r@) == byte_texts_of(list@),
{
    let mut out: Vec<String> = Vec::new();
    let mut i: usize = 0;
    while i < list.len()
        invariant
            i <= list@.len(),
            out@.len() == i,
            forall|j: int|
                0 <= j < i ==> (#[trigger] out@[j])@ == hexcodec::prefixed_hex_text(list@[j]@),
        decreases list@.len() - i,
    {
        out.push(prefixed_hex_of(list[i].as_slice()));
        i = i + 1;
    }
    assert(texts(out@) =~= byte_texts_of(list@));
    out
}

/// An event as a client reads it.
#[derive(Debug)]
pub struct LogView {
    pub address: String,
    pub topics: Vec<String>,
    pub data: String,
}

/// Whether `v` shows the event `l`.
pub open spec fn shows_log(v: LogView, l: LogEntry) -> bool {
    &&& v.address@ == hexcodec::prefixed_hex_text(l.address@)
    &&& texts(v.topics@) == byte_texts_of(l.topics@)
    &&& v.data@ == hexcodec::prefixed_hex_text(l.data@)
}

/// An event as a client reads it.
pub fn log_view(l: &LogEntry) -> (v: LogView)
    ensures
        shows_log(v, *l),
{
    LogView {
        address: key_text(&l.address),
        topics: byte_texts(&l.topics),
        data: prefixed_hex_of(l.data.as_slice()),
    }
}

/// A receipt as a client reads it.
#[derive(Debug)]
pub struct ReceiptView {
    pub tx_hash: String,
    pub success: bool,
    pub gas_used: String,
    pub effective_gas: String,
    pub fee_paid: String,
    pub fee_burned: String,
    pub fee_validator: String,
    pub fee_treasury: String,
    pub logs: Vec<LogView>,
    /// Only there where the call returned something.
    pub return_data: Option<String>,
}

/// Whether `v` shows the receipt `r`.
pub open spec fn shows_receipt(v: ReceiptView, r: Receipt) -> bool {
    &&& v.tx_hash@ == hexcodec::prefixed_hex_text(r.tx_hash@)
    &&& v.success == r.success
    &&& v.gas_used@ == text::prefixed_hex(r.gas_used as nat)
    &&& v.effective_gas@ == text::prefixed_hex(r.effective_gas as nat)
    &&& v.fee_paid@ == text::decimal(r.fee_paid as nat)
    &&& v.fee_burned@ == text::decimal(r.fee_burned as nat)
    &&& v.fee_validator@ == text::decimal(r.fee_validator as nat)
    &&& v.fee_treasury@ == text::decimal(r.fee_treasury as nat)
    &&& v.logs@.len() == r.logs@.len()
    &&& forall|i: int| 0 <= i < v.logs@.len() ==> shows_log(#[trigger] v.logs@[i], r.logs@[i])
    &&& rpc::opt_text(v.return_data) == if r.return_data@.len() == 0 {
        None::<Seq<char>>
    } else {
        Some(hexcodec::prefixed_hex_text(r.return_data@))
    }
}

/// Turns a receipt into what a client reads.
pub fn receipt_to_json(r: &Receipt) -> (v: ReceiptView)
    ensures
        shows_receipt(v, *r),
{
    let mut logs: Vec<LogView> = Vec::new();
    let mut i: usize = 0;
    while i < r.logs.len()
        invariant
            i <= r.logs@.len(),
            logs@.len() == i,
            forall|j: int| 0 <= j < i ==> shows_log(#[trigger] logs@[j], r.logs@[j]),
        decreases r.logs@.len() - i,
    {
        logs.push(log_view(&r.logs[i]));
        i = i + 1;
    }
    ReceiptView {
        tx_hash: key_text(&r.tx_hash),
        success: r.success,
        gas_used: to_prefixed_hex(r.gas_used as u128),
        effective_gas: to_prefixed_hex(r.effective_gas as u128),
        fee_paid: to_decimal(r.fee_paid),
        fee_burned: to_decimal(r.fee_burned),
        fee_validator: to_decimal(r.fee_validator),
        fee_treasury: to_decimal(r.fee_treasury),
        logs,
        return_data: if r.return_data.len() == 0 {
            None
        } else {
            Some(prefixed_hex_of(r.return_data.as_slice()))
        },
    }
}

/// The receipt of the transaction that a client asks for by its hash, if there is
/// one.
pub fn transaction_receipt(receipts: &ReceiptStore, tx_hash: &str) -> (r: Result<
    Option<ReceiptView>,
    RpcError,
>)
    requires
        receipts.wf(),
    ensures
        match r {
            Ok(found) => hexcodec::hash_of(tx_hash@) is Ok && ({
                let h = hexcodec::hash_of(tx_hash@)->Ok_0;
                match found {
                    Some(v) => receipts@.receipts.contains_key(h) && shows_receipt(
                        v,
                        receipts@.receipts[h],
                    ),
                    None => !receipts@.receipts.contains_key(h),
                }
            }),
            Err(e) => hexcodec::hash_of(tx_hash@) == Err::<Key, RpcFault>(e@),
        },
{
    let hash = match parse_hash(tx_hash) {
        Ok(h) => h,
        Err(e) => {
            return Err(e);
        },
    };
    match receipts.get(&hash) {
        Some(r) => Ok(Some(receipt_to_json(r))),
        None => Ok(None),
    }
}

/// How a transaction stands.
#[derive(Debug)]
pub enum TransactionStatus {
    /// It is in the block of `slot`.
    Included { slot: u64, success: bool, gas_used: String, effective_gas: String },
    /// It waits, for so many seconds already.
    Pending { age_secs: u64 },
    NotFound,
}

/// How a transaction stands at `now`: in a block, waiting, or neither.
pub fn transaction_status(
    receipts: &ReceiptStore,
    pool: &PendingPool,
    tx_hash: &Key,
    now: u64,
) -> (s: TransactionStatus)
    requires
        receipts.wf(),
        pool.wf(),
    ensures
        match s {
            TransactionStatus::Included { slot, success, gas_used, effective_gas } => {
                &&& receipts@.receipts.contains_key(*tx_hash)
                &&& success == receipts@.receipts[*tx_hash].success
                &&& gas_used@ == text::prefixed_hex(
                    receipts@.receipts[*tx_hash].gas_used as nat,
                )
                &&& effective_gas@ == text::prefixed_hex(
                    receipts@.receipts[*tx_hash].effective_gas as nat,
                )
                &&& receipts@.included.contains_key(*tx_hash)
                &&& slot == receipts@.included[*tx_hash]
            },
            TransactionStatus::Pending { age_secs } => {
                &&& !receipts@.receipts.contains_key(*tx_hash)
                &&& pool@.txs.contains_key(*tx_hash)
                &&& age_secs == if pool@.times.contains_key(*tx_hash) {
                    mempool::age(now, pool@.times[*tx_hash]) / 1_000_000_000
                } else {
                    0
                }
            },
            TransactionStatus::NotFound => !receipts@.receipts.contains_key(*tx_hash)
                && !pool@.txs.contains_key(*tx_hash),
        },
{
    if let (Some(r), Some(slot)) = (receipts.get(tx_hash), receipts.slot_of(tx_hash)) {
        return TransactionStatus::Included {
            slot,
            success: r.success,
            gas_used: to_prefixed_hex(r.gas_used as u128),
            effective_gas: to_prefixed_hex(r.effective_gas as u128),
        };
    }
    if pool.get(tx_hash).is_some() {
        return TransactionStatus::Pending { age_secs: pool.age_secs(tx_hash, now) };
    }
    TransactionStatus::NotFound
}

/// One position of a topic filter, as a request writes it.
pub enum TopicEntry {
    /// Anything matches.
    Any,
    /// One topic.
    One(String),
    /// One of a list, whose items need not all be texts.
    OneOf(Vec<Option<String>>),
}

/// The fields of a log filter: each as far as it is there with the expected type.
pub struct FilterObject {
    pub from_block: Option<u64>,
    pub to_block: Option<u64>,
    pub address: Option<String>,
    pub topics: Option<Vec<TopicEntry>>,
}

/// A log filter. A position of `topics` that is empty matches anything.
pub struct LogFilter {
    pub from_slot: u64,
    pub to_slot: u64,
    pub address: Option<Key>,
    pub topics: Vec<Vec<Vec<u8>>>,
}

/// The bytes of a topic; none where the text is not hex.
pub open spec fn topic_bytes(s: Seq<char>) -> Seq<u8> {
    hexcodec::hex_or_empty(hexcodec::without_all_0x(utf8::encode_utf8(s)))
}

/// The alternatives in a list of texts; what is not a text is left out.
pub open spec fn alternatives(items: Seq<Option<String>>) -> Seq<Seq<u8>>
    decreases items.len(),
{
    if items.len() == 0 {
        Seq::empty()
    } else {
        let before = alternatives(items.drop_last());
        match items.last() {
            Some(s) => before.push(topic_bytes(s@)),
            None => before,
        }
    }
}

/// The alternatives at one position: of a single topic its first 32 bytes.
pub open spec fn position_topics(e: TopicEntry) -> Seq<Seq<u8>> {
    match e {
        TopicEntry::Any => Seq::empty(),
        TopicEntry::One(s) => {
            let b = topic_bytes(s@);
            if b.len() == 0 {
                Seq::empty()
            } else if b.len() <= 32 {
                seq![b]
            } else {
                seq![b.take(32)]
            }
        },
        TopicEntry::OneOf(items) => alternatives(items@),
    }
}

/// Byte strings by their views.
pub open spec fn byte_lists(v: Seq<Vec<u8>>) -> Seq<Seq<u8>> {
    v.map_values(|b: Vec<u8>| b@)
}

fn read_topic(s: &String) -> (r: Vec<u8>)
    ensures
        r@ == topic_bytes(s@),
{
    decode_or_empty(strip_all_0x(s.as_str().as_bytes()))
}

fn read_position(e: &TopicEntry) -> (r: Vec<Vec<u8>>)
    ensures
        byte_lists(r@) == position_topics(*e),
{
    let mut out: Vec<Vec<u8>> = Vec::new();
    assert(byte_lists(out@) =~= Seq::empty());
    match e {
        TopicEntry::Any => {},
        TopicEntry::One(s) => {
            let mut b = read_topic(s);
            if b.len() > 0 {
                if b.len() > 32 {
                    let ghost b0 = b@;
                    b.truncate(32);
                    assert(b@ =~= b0.take(32));
                }
                out.push(b);
                assert(byte_lists(out@) =~= seq![b@]);
            }
        },
        TopicEntry::OneOf(items) => {
            let mut i: usize = 0;
            assert(items@.take(0) =~= Seq::empty());
            while i < items.len()
                invariant
                    i <= items@.len(),
                    byte_lists(out@) == alternatives(items@.take(i as int)),
                decreases items@.len() - i,
            {
                let ghost t1 = items@.take(i + 1);
                assert(t1.drop_last() =~= items@.take(i as int));
                assert(t1.last() == items@[i as int]);
                if let Some(s) = &items[i] {
                    let ghost o0 = out@;
                    out.push(read_topic(s));
                    assert(byte_lists(out@) =~= byte_lists(o0).push(topic_bytes(s@)));
                }
                i = i + 1;
            }
            assert(items@.take(i as int) =~= items@);
        },
    }
    out
}

/// Reads a log filter. Only its address can be refused.
pub fn parse_log_filter(o: &FilterObject) -> (r: Result<LogFilter, RpcError>)
    ensures
        match r {
            Ok(f) => {
                &&& rpc::address_field(o.address) == Ok::<Option<Key>, RpcFault>(f.address)
                &&& f.from_slot == rpc::number_or(o.from_block, 0)
                &&& f.to_slot == rpc::number_or(o.to_block, u64::MAX)
                &&& match o.topics {
                    Some(t) => f.topics@.len() == t@.len() && forall|i: int|
                        0 <= i < t@.len() ==> byte_lists((#[trigger] f.topics@[i])@)
                            == position_topics(t@[i]),
                    None => f.topics@.len() == 0,
                }
            },
            Err(e) => rpc::address_field(o.address) == Err::<Option<Key>, RpcFault>(e@),
        },
{
    let address: Option<Key> = match &o.address {
        Some(s) => match parse_address(s.as_str()) {
            Ok(k) => Some(k),
            Err(e) => {
                return Err(e);
            },
        },
        None => None,
    };
    let mut topics: Vec<Vec<Vec<u8>>> = Vec::new();
    if let Some(t) = &o.topics {
        let mut i: usize = 0;
        while i < t.len()
            invariant
                i <= t@.len(),
                topics@.len() == i,
                forall|j: int|
                    0 <= j < i ==> byte_lists((#[trigger] topics@[j])@) == position_topics(t@[j]),
            decreases t@.len() - i,
        {
            topics.push(read_position(&t[i]));
            i = i + 1;
        }
    }
    Ok(
        LogFilter {
            from_slot: match o.from_block {
                Some(n) => n,
                None => 0,
            },
            to_slot: match o.to_block {
                Some(n) => n,
                None => u64::MAX,
            },
            address,
            topics,
        },
    )
}

/// Whether one of the alternatives is this topic.
pub open spec fn one_of(alternatives: Seq<Vec<u8>>, topic: Seq<u8>) -> bool {
    exists|i: int| 0 <= i < alternatives.len() && (#[trigger] alternatives[i])@ == topic
}

/// Whether the topics of an event pass a filter: at every position with
/// alternatives, the event has a topic and it is one of them.
pub open spec fn topics_pass(filter: Seq<Vec<Vec<u8>>>, topics: Seq<Vec<u8>>) -> bool {
    forall|i: int|
        0 <= i < filter.len() && (#[trigger] filter[i])@.len() > 0 ==> i < topics.len() && one_of(
            filter[i]@,
            topics[i]@,
        )
}

fn matches_one(alternatives: &Vec<Vec<u8>>, topic: &Vec<u8>) -> (r: bool)
    ensures
        r == one_of(alternatives@, topic@),
{
    let mut i: usize = 0;
    while i < alternatives.len()
        invariant
            i <= alternatives@.len(),
            forall|j: int| 0 <= j < i ==> (#[trigger] alternatives@[j])@ != topic@,
        decreases alternatives@.len() - i,
    {
        if bytes_eq(alternatives[i].as_slice(), topic.as_slice()) {
            assert(alternatives@[i as int]@ == topic@);
            return true;
        }
        i = i + 1;
    }
    false
}

/// Whether the topics of an event pass a filter.
pub fn log_matches(filter: &Vec<Vec<Vec<u8>>>, topics: &Vec<Vec<u8>>) -> (r: bool)
    ensures
        r == topics_pass(filter@, topics@),
{
    let mut i: usize = 0;
    while i < filter.len()
        invariant
            i <= filter@.len(),
            forall|j: int|
                0 <= j < i && (#[trigger] filter@[j])@.len() > 0 ==> j < topics@.len() && one_of(
                    filter@[j]@,
                    topics@[j]@,
                ),
        decreases filter@.len() - i,
    {
        if filter[i].len() > 0 {
            assert(filter@[i as int]@.len() > 0);
            if i >= topics.len() {
                return false;
            }
            if !matches_one(&filter[i], &topics[i]) {
                return false;
            }
        }
        i = i + 1;
    }
    true
}

/// An event with its slot, as a client reads it.
#[derive(Debug)]
pub struct SlotLogView {
    pub slot: u64,
    pub log: LogView,
}

/// The events of a list whose topics pass a filter.
pub open spec fn topic_filtered(
    logs: Seq<(u64, LogEntry)>,
    topics: Seq<Vec<Vec<u8>>>,
) -> Seq<(u64, LogEntry)>
    decreases logs.len(),
{
    if logs.len() == 0 {
        Seq::empty()
    } else {
        let before = topic_filtered(logs.drop_last(), topics);
        if topics_pass(topics, logs.last().1.topics@) {
            before.push(logs.last())
        } else {
            before
        }
    }
}

/// Whether `out` shows the events `logs`, in order.
pub open spec fn shows_logs(out: Seq<SlotLogView>, logs: Seq<(u64, LogEntry)>) -> bool {
    &&& out.len() == logs.len()
    &&& forall|i: int|
        0 <= i < out.len() ==> (#[trigger] out[i]).slot == logs[i].0 && shows_log(
            out[i].log,
            logs[i].1,
        )
}

/// The events that pass a filter.
pub fn get_logs(store: &ReceiptStore, f: &LogFilter) -> (out: Vec<SlotLogView>)
    requires
        store.wf(),
    ensures
        shows_logs(
            out@,
            topic_filtered(
                receipt_store::logs_between(
                    store@,
                    f.from_slot as int,
                    f.to_slot + 1,
                    f.address,
                ),
                f.topics@,
            ),
        ),
{
    let found = store.get_logs(f.from_slot, f.to_slot, f.address.as_ref());
    let ghost all = receipt_store::logs_view(found@);
    let mut out: Vec<SlotLogView> = Vec::new();
    let mut i: usize = 0;
    assert(all.take(0) =~= Seq::empty());
    while i < found.len()
        invariant
            i <= found@.len(),
            all == receipt_store::logs_view(found@),
            shows_logs(out@, topic_filtered(all.take(i as int), f.topics@)),
        decreases found@.len() - i,
    {
        let e = &found[i];
        let ghost t1 = all.take(i + 1);
        assert(t1.drop_last() =~= all.take(i as int));
        assert(t1.last() == (e.0, *e.1));
        if log_matches(&f.topics, &e.1.topics) {
            out.push(SlotLogView { slot: e.0, log: log_view(e.1) });
        }
        i = i + 1;
    }
    assert(all.take(i as int) =~= all);
    out
}

/// How `str::to_lowercase` writes a text.
pub uninterp spec fn lowercased(s: Seq<char>) -> Seq<char>;

/// `str::to_lowercase`: its result is a function of the text.
#[verifier::external_body]
fn lowercase(s: &str) -> (r: String)
    ensures
        r@ == lowercased(s@),
{
    s.to_lowercase()
}

/// An optional text in lower case.
pub open spec fn lowercased_opt(s: Option<String>) -> Option<Seq<char>> {
    match s {
        Some(t) => Some(lowercased(t@)),
        None => None,
    }
}

/// Whether an event goes to a subscriber with this address filter; case does not
/// matter.
pub fn subscription_passes(filter: &Option<String>, log_address: &Option<String>) -> (r: bool)
    ensures
        r == (filter is None || lowercased_opt(*log_address) == lowercased_opt(*filter)),
{
    match filter {
        None => true,
        Some(f) => match log_address {
            None => false,
            Some(a) => {
                let x = lowercase(a.as_str());
                let y = lowercase(f.as_str());
                passes_lowercase(x.as_str(), y.as_str())
            },
        },
    }
}

/// Whether two addresses in lower case are the same.
pub fn passes_lowercase(address: &str, filter: &str) -> (r: bool)
    ensures
        r == (address@ == filter@),
{
    str_eq(address, filter)
}

/// A validator's record.
#[derive(Clone, Copy, Debug)]
pub struct ValidatorEntry {
    pub stake: u128,
    pub status: u8,
}

/// What the state holds for one validator index: the bytes under the index, and
/// the record under the address that they are.
pub struct ValidatorRow {
    pub address: Option<Vec<u8>>,
    pub entry: Option<ValidatorEntry>,
}

/// A validator as a client reads it.
#[derive(Debug)]
pub struct ValidatorView {
    pub address: String,
    pub stake: String,
    pub status: &'static str,
    pub index: u64,
}

/// What a status number is called.
pub open spec fn status_text(status: u8) -> Seq<char> {
    if status == 0 {
        "active"@
    } else if status == 1 {
        "unbonding"@
    } else if status == 2 {
        "exited"@
    } else {
        "unknown"@
    }
}

fn status_name(status: u8) -> (s: &'static str)
    ensures
        s@ == status_text(status),
{
    if status == 0 {
        "active"
    } else if status == 1 {
        "unbonding"
    } else if status == 2 {
        "exited"
    } else {
        "unknown"
    }
}

/// Whether a row is complete: an address of 32 bytes, and a record.
pub open spec fn complete_row(r: ValidatorRow) -> bool {
    r.address is Some && r.address->0@.len() == 32 && r.entry is Some
}

/// The indices of the complete rows among the first `n`.
pub open spec fn complete_rows(rows: Seq<ValidatorRow>, n: nat) -> Seq<int>
    decreases n,
{
    if n == 0 {
        Seq::empty()
    } else {
        let before = complete_rows(rows, (n - 1) as nat);
        if complete_row(rows[n - 1]) {
            before.push(n - 1)
        } else {
            before
        }
    }
}

/// Whether `v` shows the row `r` at the index `i`.
pub open spec fn shows_row(v: ValidatorView, r: ValidatorRow, i: int) -> bool {
    &&& v.address@ == hexcodec::prefixed_hex_text(r.address->0@)
    &&& v.stake@ == text::decimal(r.entry->0.stake as nat)
    &&& v.status@ == status_text(r.entry->0.status)
    &&& v.index == i
}

/// The number of registered validators in the state.
pub fn validator_count(stored: &Option<Vec<u8>>) -> (n: u64)
    ensures
        n == match *stored {
            Some(b) => if b@.len() >= 8 {
                words::le_value(b@.take(8))
            } else {
                0
            },
            None => 0,
        },
{
    match stored {
        Some(b) => decode_u64(b.as_slice()),
        None => 0,
    }
}

/// The registered validators; rows that are not complete are left out.
pub fn validators_view(rows: &Vec<ValidatorRow>) -> (out: Vec<ValidatorView>)
    requires
        rows@.len() <= u64::MAX,
    ensures
        out@.len() == complete_rows(rows@, rows@.len()).len(),
        forall|j: int|
            0 <= j < out@.len() ==> shows_row(
                #[trigger] out@[j],
                rows@[complete_rows(rows@, rows@.len())[j]],
                complete_rows(rows@, rows@.len())[j],
            ),
{
    let mut out: Vec<ValidatorView> = Vec::new();
    let mut i: usize = 0;
    while i < rows.len()
        invariant
            i <= rows@.len() <= u64::MAX,
            out@.len() == complete_rows(rows@, i as nat).len(),
            forall|j: int|
                0 <= j < out@.len() ==> shows_row(
                    #[trigger] out@[j],
                    rows@[complete_rows(rows@, i as nat)[j]],
                    complete_rows(rows@, i as nat)[j],
                ),
        decreases rows@.len() - i,
    {
        let row = &rows[i];
        let ghost c0 = complete_rows(rows@, i as nat);
        if let Some(b) = &row.address {
            if let Some(k) = key_from_slice(b.as_slice()) {
                if let Some(entry) = &row.entry {
                    out.push(
                        ValidatorView {
                            address: key_text(&k),
                            stake: to_decimal(entry.stake),
                            status: status_name(entry.status),
                            index: i as u64,
                        },
                    );
                    assert(complete_rows(rows@, (i + 1) as nat) == c0.push(i as int));
                }
            }
        }
        i = i + 1;
    }
    out
}

/// A block header's fields.
#[derive(Clone, Copy, Debug)]
pub struct HeaderFields {
    pub slot: u64,
    pub epoch: u64,
    pub block_hash: Key,
    pub parent_hash: Key,
    pub state_root: Key,
    pub tx_root: Key,
    pub timestamp: u64,
    pub proposer: Key,
}

/// A transaction's fields that a block listing shows.
#[derive(Clone, Copy, Debug)]
pub struct BlockTxFields {
    pub hash: Key,
    pub from: Key,
    pub to: Key,
    pub value: u128,
    pub nonce: u64,
    pub gas_limit: u64,
    pub tx_type: u8,
}

/// A transaction in a block listing.
#[derive(Debug)]
pub struct BlockTxView {
    pub hash: String,
    pub from: String,
    pub to: String,
    pub value: String,
    pub nonce: u64,
    pub gas_limit: u64,
    pub tx_type: u8,
    pub index_in_block: usize,
}

/// A block as a client reads it.
#[derive(Debug)]
pub struct BlockView {
    pub slot: u64,
    pub epoch: u64,
    pub block_hash: String,
    pub parent_hash: String,
    pub state_root: String,
    pub tx_root: String,
    pub timestamp: String,
    pub proposer: String,
    pub transaction_hashes: Vec<String>,
    pub transactions: Vec<BlockTxView>,
}

/// Whether `v` shows the transaction `t` at the index `i`.
pub open spec fn shows_tx(v: BlockTxView, t: BlockTxFields, i: int) -> bool {
    &&& v.hash@ == hexcodec::prefixed_hex_text(t.hash@)
    &&& v.from@ == hexcodec::prefixed_hex_text(t.from@)
    &&& v.to@ == hexcodec::prefixed_hex_text(t.to@)
    &&& v.value@ == text::decimal(t.value as nat)
    &&& v.nonce == t.nonce
    &&& v.gas_limit == t.gas_limit
    &&& v.tx_type == t.tx_type
    &&& v.index_in_block == i
}

/// The transactions of a block; none where the block is not on disk.
pub fn decode_block_transactions(block: &Option<Vec<BlockTxFields>>) -> (out: Vec<BlockTxView>)
    ensures
        match *block {
            Some(txs) => out@.len() == txs@.len() && forall|i: int|
                0 <= i < out@.len() ==> shows_tx(#[trigger] out@[i], txs@[i], i),
            None => out@.len() == 0,
        },
{
    let mut out: Vec<BlockTxView> = Vec::new();
    if let Some(txs) = block {
        let mut i: usize = 0;
        while i < txs.len()
            invariant
                i <= txs@.len(),
                out@.len() == i,
                forall|j: int| 0 <= j < i ==> shows_tx(#[trigger] out@[j], txs@[j], j),
            decreases txs@.len() - i,
        {
            let t = &txs[i];
            out.push(
                BlockTxView {
                    hash: key_text(&t.hash),
                    from: key_text(&t.from),
                    to: key_text(&t.to),
                    value: to_decimal(t.value),
                    nonce: t.nonce,
                    gas_limit: t.gas_limit,
                    tx_type: t.tx_type,
                    index_in_block: i,
                },
            );
            i = i + 1;
        }
    }
    out
}

/// A block as a client reads it: `hashes` are the transactions that have
/// receipts, `block` the transactions on disk.
pub fn block_view(
    h: &HeaderFields,
    hashes: &Option<Vec<Key>>,
    block: &Option<Vec<BlockTxFields>>,
) -> (v: BlockView)
    ensures
        v.slot == h.slot,
        v.epoch == h.epoch,
        v.block_hash@ == hexcodec::prefixed_hex_text(h.block_hash@),
        v.parent_hash@ == hexcodec::prefixed_hex_text(h.parent_hash@),
        v.state_root@ == hexcodec::prefixed_hex_text(h.state_root@),
        v.tx_root@ == hexcodec::prefixed_hex_text(h.tx_root@),
        v.timestamp@ == text::prefixed_hex(h.timestamp as nat),
        v.proposer@ == hexcodec::prefixed_hex_text(h.proposer@),
        texts(v.transaction_hashes@) == match *hashes {
            Some(l) => key_texts_of(l@),
            None => Seq::empty(),
        },
        match *block {
            Some(txs) => v.transactions@.len() == txs@.len() && forall|i: int|
                0 <= i < txs@.len() ==> shows_tx(#[trigger] v.transactions@[i], txs@[i], i),
            None => v.transactions@.len() == 0,
        },
{
    let transaction_hashes: Vec<String> = match hashes {
        Some(l) => key_texts(l),
        None => {
            let none: Vec<String> = Vec::new();
            assert(texts(none@) =~= Seq::empty());
            none
        },
    };
    BlockView {
        slot: h.slot,
        epoch: h.epoch,
        block_hash: key_text(&h.block_hash),
        parent_hash: key_text(&h.parent_hash),
        state_root: key_text(&h.state_root),
        tx_root: key_text(&h.tx_root),
        timestamp: to_prefixed_hex(h.timestamp as u128),
        proposer: key_text(&h.proposer),
        transaction_hashes,
        transactions: decode_block_transactions(block),
    }
}

/// The error of a hash that no block has.
pub fn block_not_found() -> (e: RpcError)
    ensures
        e@ == (-32602i32, "block not found for hash"@),
{
    rpc::rpc_err(-32602, "block not found for hash")
}

/// An account in an access list, as a client reads it.
#[derive(Debug)]
pub struct AccessView {
    pub address: String,
    pub reads: Vec<String>,
    pub writes: Vec<String>,
}

/// An access list with the gas that goes with it.
#[derive(Debug)]
pub struct AccessListView {
    pub access_list: Vec<AccessView>,
    pub gas_used: String,
}

/// Whether `v` lists these reads and writes at this address.
pub open spec fn shows_access(v: AccessView, address: Key, reads: Seq<Key>, writes: Seq<Key>) -> bool {
    &&& v.address@ == hexcodec::prefixed_hex_text(address@)
    &&& texts(v.reads@) == key_texts_of(reads)
    &&& texts(v.writes@) == key_texts_of(writes)
}

/// The slots that were only read.
pub open spec fn unwritten(accessed: Seq<Key>, written: Seq<Key>) -> Seq<Key>
    decreases accessed.len(),
{
    if accessed.len() == 0 {
        Seq::empty()
    } else {
        let before = unwritten(accessed.drop_last(), written);
        if written.contains(accessed.last()) {
            before
        } else {
            before.push(accessed.last())
        }
    }
}

fn contains(list: &Vec<Key>, k: &Key) -> (r: bool)
    ensures
        r == list@.contains(*k),
{
    let mut i: usize = 0;
    while i < list.len()
        invariant
            i <= list@.len(),
            forall|j: int| 0 <= j < i ==> #[trigger] list@[j] != *k,
        decreases list@.len() - i,
    {
        if key_eq(&list[i], k) {
            assert(list@[i as int] == *k);
            return true;
        }
        i = i + 1;
    }
    false
}

fn only_read(accessed: &Vec<Key>, written: &Vec<Key>) -> (r: Vec<Key>)
    ensures
        r@ == unwritten(accessed@, written@),
{
    let mut out: Vec<Key> = Vec::new();
    let mut i: usize = 0;
    assert(accessed@.take(0) =~= Seq::empty());
    while i < accessed.len()
        invariant
            i <= accessed@.len(),
            out@ == unwritten(accessed@.take(i as int), written@),
        decreases accessed@.len() - i,
    {
        let ghost t1 = accessed@.take(i + 1);
        assert(t1.drop_last() =~= accessed@.take(i as int));
        assert(t1.last() == accessed@[i as int]);
        if !contains(written, &accessed[i]) {
            out.push(accessed[i]);
        }
        i = i + 1;
    }
    assert(accessed@.take(i as int) =~= accessed@);
    out
}

/// What is hashed for the storage slot of an account's balance.
pub fn balance_slot_preimage(address: &Key) -> (r: Vec<u8>)
    ensures
        r@ == address@.push(4u8),
{
    let mut b = keymap::key_bytes(address);
    b.push(4);
    b
}

/// The access list of a deployment, which touches nothing yet.
pub fn deploy_access_list(call: &CallRequest) -> (v: AccessListView)
    ensures
        v.access_list@.len() == 0,
        v.gas_used@ == text::prefixed_hex(rpc::deploy_gas(call.calldata@.len())),
{
    AccessListView {
        access_list: Vec::new(),
        gas_used: to_prefixed_hex(32_000 + call.calldata.len() as u128 * 16),
    }
}

fn single(k: &Key) -> (r: Vec<Key>)
    ensures
        r@ == seq![*k],
{
    let mut v: Vec<Key> = Vec::new();
    v.push(*k);
    assert(v@ =~= seq![*k]);
    v
}

fn no_texts() -> (r: Vec<String>)
    ensures
        texts(r@) == key_texts_of(Seq::empty()),
{
    let v: Vec<String> = Vec::new();
    assert(texts(v@) =~= key_texts_of(Seq::empty()));
    v
}

/// The access list of a plain transfer: it writes the balances of the sender and
/// of the recipient, whose storage slots these are.
pub fn transfer_access_list(from: &Key, from_slot: &Key, to: &Key, to_slot: &Key) -> (v:
    AccessListView)
    ensures
        v.access_list@.len() == 2,
        shows_access(v.access_list@[0], *from, Seq::empty(), seq![*from_slot]),
        shows_access(v.access_list@[1], *to, Seq::empty(), seq![*to_slot]),
        v.gas_used@ == "0x5208"@,
{
    let mut list: Vec<AccessView> = Vec::new();
    list.push(
        AccessView {
            address: key_text(from),
            reads: no_texts(),
            writes: key_texts(&single(from_slot)),
        },
    );
    list.push(
        AccessView {
            address: key_text(to),
            reads: no_texts(),
            writes: key_texts(&single(to_slot)),
        },
    );
    AccessListView { access_list: list, gas_used: "0x5208".to_owned() }
}

/// The access list of a simulated call: the slots that it wrote, and those that
/// it only read.
pub fn simulated_access_list(
    to: &Key,
    accessed: &Vec<Key>,
    written: &Vec<Key>,
    gas_used: u64,
) -> (v: AccessListView)
    ensures
        v.access_list@.len() == 1,
        shows_access(v.access_list@[0], *to, unwritten(accessed@, written@), written@),
        v.gas_used@ == text::prefixed_hex(gas_used as nat),
{
    let mut list: Vec<AccessView> = Vec::new();
    list.push(
        AccessView {
            address: key_text(to),
            reads: key_texts(&only_read(accessed, written)),
            writes: key_texts(written),
        },
    );
    AccessListView { access_list: list, gas_used: to_prefixed_hex(gas_used as u128) }
}

/// A balance in decimal: `stored` are the account's bytes, `account` the balance
/// of the account that they decode to.
pub fn balance_text(stored: &Option<Vec<u8>>, account: Option<u128>) -> (s: String)
    ensures
        s@ == text::decimal(
            match *stored {
                Some(b) => match account {
                    Some(n) => n as nat,
                    None => if b@.len() >= 16 {
                        words::le_value(b@.take(16)) as u128 as nat
                    } else {
                        0
                    },
                },
                None => 0,
            },
        ),
{
    let n: u128 = match stored {
        Some(b) => match read_account_balance(b.as_slice(), account) {
            Some(n) => n,
            None => 0,
        },
        None => 0,
    };
    to_decimal(n)
}

/// A number in decimal, zero where it is not there.
pub fn count_text(n: Option<u64>) -> (s: String)
    ensures
        s@ == text::decimal(rpc::number_or(n, 0) as nat),
{
    match n {
        Some(v) => to_decimal(v as u128),
        None => to_decimal(0),
    }
}

/// Stored bytes in hex, none where there are none.
pub fn stored_text(stored: &Option<Vec<u8>>) -> (s: String)
    ensures
        s@ == hexcodec::prefixed_hex_text(
            match *stored {
                Some(b) => b@,
                None => Seq::empty(),
            },
        ),
{
    match stored {
        Some(b) => prefixed_hex_of(b.as_slice()),
        None => {
            let empty: Vec<u8> = Vec::new();
            prefixed_hex_of(empty.as_slice())
        },
    }
}

/// Where the chain is, as a client reads it.
#[derive(Debug)]
pub struct SyncingView {
    pub head_slot: u64,
    pub epoch: u64,
    pub state_root: String,
}

/// Where the chain is.
pub fn syncing_view(head_slot: u64, epoch: u64, state_root: &Key) -> (v: SyncingView)
    ensures
        v.head_slot == head_slot,
        v.epoch == epoch,
        v.state_root@ == hexcodec::prefixed_hex_text(state_root@),
{
    SyncingView { head_slot, epoch, state_root: key_text(state_root) }
}

/// A new head, as a subscriber reads it.
#[derive(Debug)]
pub struct HeadEvent {
    pub slot: String,
    pub timestamp: String,
    pub proposer: String,
    pub tx_count: String,
}

/// Tells subscribers of a new head.
pub fn head_event(slot: u64, timestamp: u64, proposer: &Key, tx_count: u64) -> (e: HeadEvent)
    ensures
        e.slot@ == text::prefixed_hex(slot as nat),
        e.timestamp@ == text::prefixed_hex(timestamp as nat),
        e.proposer@ == hexcodec::prefixed_hex_text(proposer@),
        e.tx_count@ == text::prefixed_hex(tx_count as nat),
{
    HeadEvent {
        slot: to_prefixed_hex(slot as u128),
        timestamp: to_prefixed_hex(timestamp as u128),
        proposer: key_text(proposer),
        tx_count: to_prefixed_hex(tx_count as u128),
    }
}

/// The events of receipts, in their order.
pub open spec fn all_logs(receipts: Seq<Receipt>) -> Seq<LogEntry>
    decreases receipts.len(),
{
    if receipts.len() == 0 {
        Seq::empty()
    } else {
        all_logs(receipts.drop_last()) + receipts.last().logs@
    }
}

/// Tells subscribers of the events of a block.
pub fn log_events(receipts: &Vec<Receipt>) -> (r: Vec<LogView>)
    ensures
        r@.len() == all_logs(receipts@).len(),
        forall|i: int| 0 <= i < r@.len() ==> shows_log(#[trigger] r@[i], all_logs(receipts@)[i]),
{
    let mut out: Vec<LogView> = Vec::new();
    let mut i: usize = 0;
    assert(receipts@.take(0) =~= Seq::<Receipt>::empty());
    while i < receipts.len()
        invariant
            i <= receipts@.len(),
            out@.len() == all_logs(receipts@.take(i as int)).len(),
            forall|k: int|
                0 <= k < out@.len() ==> shows_log(
                    #[trigger] out@[k],
                    all_logs(receipts@.take(i as int))[k],
                ),
        decreases receipts@.len() - i,
    {
        let ghost before = all_logs(receipts@.take(i as int));
        let ghost logs = receipts@[i as int].logs@;
        proof {
            assert(receipts@.take(i + 1).drop_last() =~= receipts@.take(i as int));
            assert(receipts@.take(i + 1).last() == receipts@[i as int]);
        }
        let mut j: usize = 0;
        while j < receipts[i].logs.len()
            invariant
                i < receipts@.len(),
                logs == receipts@[i as int].logs@,
                j <= logs.len(),
                out@.len() == before.len() + j,
                forall|k: int|
                    0 <= k < out@.len() ==> shows_log(#[trigger] out@[k], (before + logs)[k]),
            decreases logs.len() - j,
        {
            out.push(log_view(&receipts[i].logs[j]));
            j = j + 1;
        }
        i = i + 1;
    }
    assert(receipts@.take(i as int) =~= receipts@);
    out
}

/// A slot that is written is never listed as only read, and every slot that was
/// touched is listed.
pub proof fn law_access_list_covers_every_slot(accessed: Seq<Key>, written: Seq<Key>, k: Key)
    ensures
        unwritten(accessed, written).contains(k) == (accessed.contains(k) && !written.contains(k)),
    decreases accessed.len(),
{
    if accessed.len() > 0 {
        let rest = accessed.drop_last();
        law_access_list_covers_every_slot(rest, written, k);
        let u = unwritten(accessed, written);
        let u0 = unwritten(rest, written);
        if accessed.contains(k) {
            let i = choose|i: int| 0 <= i < accessed.len() && accessed[i] == k;
            if i < rest.len() {
                assert(rest[i] == k);
            }
        }
        if rest.contains(k) {
            let i = choose|i: int| 0 <= i < rest.len() && rest[i] == k;
            assert(accessed[i] == k);
        }
        assert(accessed[accessed.len() - 1] == accessed.last());
        if !written.contains(accessed.last()) {
            assert(u == u0.push(accessed.last()));
            assert(u[u0.len() as int] == accessed.last());
            if u0.contains(k) {
                let i = choose|i: int| 0 <= i < u0.len() && u0[i] == k;
                assert(u[i] == k);
            }
            if u.contains(k) {
                let i = choose|i: int| 0 <= i < u.len() && u[i] == k;
                if i < u0.len() {
                    assert(u0[i] == k);
                }
            }
        }
    }
}

} // verus!
