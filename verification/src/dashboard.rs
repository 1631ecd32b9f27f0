//! What the terminal dashboard shows: figures of the node as labelled texts, and
//! how much its counters moved between two looks at them.
use vstd::prelude::*;

use crate::hexcodec;
use crate::hexcodec::prefixed_hex_of;
use crate::keymap;
use crate::keymap::{key_is_zero, Key};
use crate::text;
use crate::text::{join, push_decimal, to_decimal};

verus! {

/// How wide a label is at least.
pub const LABEL_WIDTH: usize = 18;

/// A line of the dashboard.
#[derive(Debug)]
pub struct Row {
    pub label: String,
    pub value: String,
}

/// A line by its texts.
pub struct RowModel {
    pub label: Seq<char>,
    pub value: Seq<char>,
}

impl View for Row {
    type V = RowModel;

    open spec fn view(&self) -> RowModel {
        RowModel { label: self.label@, value: self.value@ }
    }
}

/// Lines by their texts.
pub open spec fn rows(v: Seq<Row>) -> Seq<RowModel> {
    v.map_values(|r: Row| r@)
}

/// A name as a label: indented by two, and filled up with spaces.
pub open spec fn label_text(name: Seq<char>) -> Seq<char> {
    seq![' ', ' '] + name + Seq::new(
        (if name.len() < LABEL_WIDTH {
            LABEL_WIDTH - name.len()
        } else {
            0
        }) as nat,
        |i: int| ' ',
    )
}

/// A line of a name and its value.
pub open spec fn row(name: Seq<char>, value: Seq<char>) -> RowModel {
    RowModel { label: label_text(name), value }
}

/// A line of a name and its value.
pub fn kv(name: &str, value: String) -> (r: Row)
    ensures
        r@ == row(name@, value@),
{
    let mut label = String::new();
    label.push(' ');
    label.push(' ');
    label.append(name);
    let n: usize = name.unicode_len();
    let mut i: usize = n;
    let ghost start = label@;
    assert(start =~= seq![' ', ' '] + name@);
    assert(start + Seq::new(0, |i: int| ' ') =~= start);
    while i < LABEL_WIDTH
        invariant
            n <= i,
            n < LABEL_WIDTH ==> i <= LABEL_WIDTH,
            n >= LABEL_WIDTH ==> i == n,
            label@ == start + Seq::new((i - n) as nat, |i: int| ' '),
        decreases LABEL_WIDTH - i,
    {
        label.push(' ');
        i = i + 1;
        assert(label@ =~= start + Seq::new((i - n) as nat, |i: int| ' '));
    }
    assert(label@ =~= label_text(name@));
    Row { label, value }
}

fn number_row(name: &str, n: u128) -> (r: Row)
    ensures
        r@ == row(name@, text::decimal(n as nat)),
{
    kv(name, to_decimal(n))
}

/// The figures of the chain.
pub struct ChainFigures {
    pub head_slot: u64,
    pub finalized_slot: u64,
    pub epoch: u64,
    pub base_fee: u128,
    pub last_block_slot: u64,
    pub last_block_txs: u64,
    pub last_block_gas: u64,
    pub last_block_ms: u64,
    /// When the last block was processed, in Unix milliseconds.
    pub last_block_at_ms: u64,
}

/// How far `a` is past `b`; zero where it is not.
pub open spec fn past(a: u64, b: u64) -> nat {
    if a >= b {
        (a - b) as nat
    } else {
        0
    }
}

/// The text on the last block.
pub open spec fn last_block_text(c: ChainFigures) -> Seq<char> {
    "slot="@ + text::decimal(c.last_block_slot as nat) + " txs="@ + text::decimal(
        c.last_block_txs as nat,
    ) + " gas="@ + text::decimal(c.last_block_gas as nat) + " elapsed_ms="@ + text::decimal(
        c.last_block_ms as nat,
    )
}

/// The lines on the chain.
pub fn chain_rows(c: &ChainFigures, now_ms: u64) -> (r: Vec<Row>)
    ensures
        rows(r@) == seq![
            row("head_slot"@, text::decimal(c.head_slot as nat)),
            row("finalized"@, text::decimal(c.finalized_slot as nat)),
            row("finality_lag"@, text::decimal(past(c.head_slot, c.finalized_slot))),
            row("epoch"@, text::decimal(c.epoch as nat)),
            row("base_fee"@, text::decimal(c.base_fee as nat)),
            row("last_block"@, last_block_text(*c)),
            row("since_last"@, text::decimal(past(now_ms, c.last_block_at_ms)) + " ms"@),
        ],
{
    let mut last = "slot=".to_owned();
    push_decimal(&mut last, c.last_block_slot as u128);
    last.append(" txs=");
    push_decimal(&mut last, c.last_block_txs as u128);
    last.append(" gas=");
    push_decimal(&mut last, c.last_block_gas as u128);
    last.append(" elapsed_ms=");
    push_decimal(&mut last, c.last_block_ms as u128);
    let lag: u64 = c.head_slot.saturating_sub(c.finalized_slot);
    let since: u64 = now_ms.saturating_sub(c.last_block_at_ms);
    let mut since_text = to_decimal(since as u128);
    since_text.append(" ms");
    let mut out: Vec<Row> = Vec::new();
    out.push(number_row("head_slot", c.head_slot as u128));
    out.push(number_row("finalized", c.finalized_slot as u128));
    out.push(number_row("finality_lag", lag as u128));
    out.push(number_row("epoch", c.epoch as u128));
    out.push(number_row("base_fee", c.base_fee));
    out.push(kv("last_block", last));
    out.push(kv("since_last", since_text));
    assert(rows(out@) =~= seq![
        row("head_slot"@, text::decimal(c.head_slot as nat)),
        row("finalized"@, text::decimal(c.finalized_slot as nat)),
        row("finality_lag"@, text::decimal(past(c.head_slot, c.finalized_slot))),
        row("epoch"@, text::decimal(c.epoch as nat)),
        row("base_fee"@, text::decimal(c.base_fee as nat)),
        row("last_block"@, last_block_text(*c)),
        row("since_last"@, text::decimal(past(now_ms, c.last_block_at_ms)) + " ms"@),
    ]);
    out
}

/// The start of a proposer's address, or a dash where there is no proposer.
pub open spec fn proposer_text(proposer: Key) -> Seq<char> {
    if keymap::all_zero(proposer) {
        "—"@
    } else {
        hexcodec::prefixed_hex_text(proposer@.take(8))
    }
}

/// The lines on the peers and the committee.
pub fn peer_rows(peers: u64, committee_size: u64, proposer: &Key) -> (r: Vec<Row>)
    ensures
        rows(r@) == seq![
            row("peers"@, text::decimal(peers as nat)),
            row("committee_size"@, text::decimal(committee_size as nat)),
            row("current_proposer"@, proposer_text(*proposer)),
        ],
{
    let shown: String = if key_is_zero(proposer) {
        "—".to_owned()
    } else {
        let start = vstd::slice::slice_subrange(proposer.as_slice(), 0, 8);
        assert(start@ =~= proposer@.take(8));
        prefixed_hex_of(start)
    };
    let mut out: Vec<Row> = Vec::new();
    out.push(number_row("peers", peers as u128));
    out.push(number_row("committee_size", committee_size as u128));
    out.push(kv("current_proposer", shown));
    assert(rows(out@) =~= seq![
        row("peers"@, text::decimal(peers as nat)),
        row("committee_size"@, text::decimal(committee_size as nat)),
        row("current_proposer"@, proposer_text(*proposer)),
    ]);
    out
}

/// The lines on the pending transactions.
pub fn mempool_rows(plain: u64, encrypted: u64) -> (r: Vec<Row>)
    ensures
        rows(r@) == seq![
            row("plaintext"@, text::decimal(plain as nat)),
            row("encrypted"@, text::decimal(encrypted as nat)),
        ],
{
    let mut out: Vec<Row> = Vec::new();
    out.push(number_row("plaintext", plain as u128));
    out.push(number_row("encrypted", encrypted as u128));
    assert(rows(out@) =~= seq![
        row("plaintext"@, text::decimal(plain as nat)),
        row("encrypted"@, text::decimal(encrypted as nat)),
    ]);
    out
}

/// What the header says of the node: its role, and the start of its address.
pub fn header_texts(is_validator: bool, local: &Key) -> (r: (String, String))
    ensures
        r.0@ == "· role="@ + (if is_validator {
            "validator"@
        } else {
            "full"@
        }) + " "@,
        r.1@ == "· addr="@ + hexcodec::prefixed_hex_text(local@.take(6)),
{
    let role: &str = if is_validator {
        "validator"
    } else {
        "full"
    };
    let mut first = join("· role=", role);
    first.append(" ");
    let start = vstd::slice::slice_subrange(local.as_slice(), 0, 6);
    assert(start@ =~= local@.take(6));
    let addr = prefixed_hex_of(start);
    (first, join("· addr=", addr.as_str()))
}

/// Counters that only grow.
#[derive(Clone, Copy, Debug, PartialEq, Eq, Structural)]
pub struct Counters {
    pub blocks: u64,
    pub txs: u64,
    pub accepts: u64,
    pub rejects: u64,
}

/// The counters at the last look.
pub struct ThroughputState {
    pub last: Counters,
}

impl ThroughputState {
    /// A first look.
    pub fn new(now: &Counters) -> (t: Self)
        ensures
            t.last == *now,
    {
        ThroughputState { last: *now }
    }

    /// How much each counter grew since the last look; not at all where it was set
    /// back. The rates are this over the time between the looks.
    pub fn tick(&mut self, now: &Counters) -> (grown: Counters)
        ensures
            final(self).last == *now,
            grown.blocks == past(now.blocks, old(self).last.blocks),
            grown.txs == past(now.txs, old(self).last.txs),
            grown.accepts == past(now.accepts, old(self).last.accepts),
            grown.rejects == past(now.rejects, old(self).last.rejects),
    {
        let grown = Counters {
            blocks: now.blocks.saturating_sub(self.last.blocks),
            txs: now.txs.saturating_sub(self.last.txs),
            accepts: now.accepts.saturating_sub(self.last.accepts),
            rejects: now.rejects.saturating_sub(self.last.rejects),
        };
        self.last = *now;
        grown
    }
}

/// The lines on the totals.
pub fn total_rows(c: &Counters) -> (r: Vec<Row>)
    ensures
        rows(r@) == seq![
            row("blocks_total"@, text::decimal(c.blocks as nat)),
            row("txs_total"@, text::decimal(c.txs as nat)),
            row(
                "rpc_total"@,
                text::decimal(c.accepts as nat) + " ok / "@ + text::decimal(c.rejects as nat)
                    + " err"@,
            ),
        ],
{
    let mut rpc = to_decimal(c.accepts as u128);
    rpc.append(" ok / ");
    push_decimal(&mut rpc, c.rejects as u128);
    rpc.append(" err");
    let mut out: Vec<Row> = Vec::new();
    out.push(number_row("blocks_total", c.blocks as u128));
    out.push(number_row("txs_total", c.txs as u128));
    out.push(kv("rpc_total", rpc));
    assert(rows(out@) =~= seq![
        row("blocks_total"@, text::decimal(c.blocks as nat)),
        row("txs_total"@, text::decimal(c.txs as nat)),
        row(
            "rpc_total"@,
            text::decimal(c.accepts as nat) + " ok / "@ + text::decimal(c.rejects as nat)
                + " err"@,
        ),
    ]);
    out
}

/// The growth between any three looks adds up, as long as no counter is set back.
pub proof fn law_growth_adds_up(first: u64, second: u64, third: u64)
    requires
        first <= second <= third,
    ensures
        past(second, first) + past(third, second) == past(third, first),
{
}

} // verus!
