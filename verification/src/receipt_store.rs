//! Receipts and logs of recent blocks, for queries.
use vstd::prelude::*;

use crate::keymap::{key_eq, Key, KeyMap};

verus! {

/// For how many slots receipts are kept.
pub const MAX_RECEIPT_SLOTS: u64 = 10_000;

/// An event that a contract emitted.
#[derive(Debug)]
pub struct LogEntry {
    pub address: Key,
    pub topics: Vec<Vec<u8>>,
    pub data: Vec<u8>,
}

/// What became of a transaction.
#[derive(Debug)]
pub struct Receipt {
    pub tx_hash: Key,
    pub success: bool,
    pub gas_used: u64,
    pub gas_refund: u64,
    pub effective_gas: u64,
    pub fee_paid: u128,
    pub fee_burned: u128,
    pub fee_validator: u128,
    pub fee_treasury: u128,
    pub logs: Vec<LogEntry>,
    pub state_root: Key,
    pub return_data: Vec<u8>,
}

impl View for Receipt {
    type V = Receipt;

    open spec fn view(&self) -> Receipt {
        *self
    }
}

/// What a receipt store holds: the receipts by transaction, the slot with which
/// each receipt came in, and the transactions of each slot.
#[verifier::ext_equal]
pub struct ReceiptModel {
    pub receipts: Map<Key, Receipt>,
    pub included: Map<Key, u64>,
    pub slots: Map<u64, Seq<Key>>,
}

/// The hashes of receipts, in order.
pub open spec fn hashes_of(receipts: Seq<Receipt>) -> Seq<Key> {
    receipts.map_values(|r: Receipt| r.tx_hash)
}

/// Receipts by transaction, with more receipts put in; the later one wins.
pub open spec fn with_receipts(m: Map<Key, Receipt>, receipts: Seq<Receipt>) -> Map<Key, Receipt>
    decreases receipts.len(),
{
    if receipts.len() == 0 {
        m
    } else {
        with_receipts(m, receipts.drop_last()).insert(receipts.last().tx_hash, receipts.last())
    }
}

/// The slots of transactions, with more transactions put at `slot`.
pub open spec fn with_slot(m: Map<Key, u64>, hashes: Seq<Key>, slot: u64) -> Map<Key, u64>
    decreases hashes.len(),
{
    if hashes.len() == 0 {
        m
    } else {
        with_slot(m, hashes.drop_last(), slot).insert(hashes.last(), slot)
    }
}

/// What a list holds besides the transactions of another, in its order.
pub open spec fn besides(list: Seq<Key>, others: Seq<Key>) -> Seq<Key>
    decreases list.len(),
{
    if list.len() == 0 {
        Seq::empty()
    } else if others.contains(list.last()) {
        besides(list.drop_last(), others)
    } else {
        besides(list.drop_last(), others).push(list.last())
    }
}

/// The list of a slot, empty where the slot is not known.
pub open spec fn list_at(slots: Map<u64, Seq<Key>>, slot: u64) -> Seq<Key> {
    if slots.contains_key(slot) {
        slots[slot]
    } else {
        Seq::empty()
    }
}

/// Whether some slot lists a transaction.
pub open spec fn is_listed(slots: Map<u64, Seq<Key>>, k: Key) -> bool {
    exists|s: u64| #[trigger] slots.contains_key(s) && slots[s].contains(k)
}

/// The slots that are not below `before`.
pub open spec fn slots_from(slots: Map<u64, Seq<Key>>, before: int) -> Map<u64, Seq<Key>> {
    slots.remove_keys(Set::new(|s: u64| s < before))
}

/// The transactions that a slot lists, but none that is not below `before`.
pub open spec fn listed_last_below(slots: Map<u64, Seq<Key>>, before: int) -> Set<Key> {
    Set::new(|k: Key| is_listed(slots, k) && !is_listed(slots_from(slots, before), k))
}

/// The store without the slots below `before`, and without the receipts that no
/// other slot lists.
pub open spec fn pruned(m: ReceiptModel, before: int) -> ReceiptModel {
    ReceiptModel {
        receipts: m.receipts.remove_keys(listed_last_below(m.slots, before)),
        included: m.included.remove_keys(listed_last_below(m.slots, before)),
        slots: slots_from(m.slots, before),
    }
}

/// The store with a block's receipts: its slot lists them after what it lists
/// already.
pub open spec fn with_block(m: ReceiptModel, slot: u64, receipts: Seq<Receipt>) -> ReceiptModel {
    let hashes = hashes_of(receipts);
    ReceiptModel {
        receipts: with_receipts(m.receipts, receipts),
        included: with_slot(m.included, hashes, slot),
        slots: m.slots.insert(slot, besides(list_at(m.slots, slot), hashes) + hashes),
    }
}

/// The store after a block: its receipts are in, and slots that are too old are
/// gone.
pub open spec fn after_block(m: ReceiptModel, slot: u64, receipts: Seq<Receipt>) -> ReceiptModel {
    let grown = with_block(m, slot, receipts);
    if slot > MAX_RECEIPT_SLOTS {
        pruned(grown, slot - MAX_RECEIPT_SLOTS)
    } else {
        grown
    }
}

/// Whether the receipts are those of the transactions that slots list, each under
/// its own transaction and with the slot that it came in with.
pub open spec fn consistent(m: ReceiptModel) -> bool {
    &&& m.included.dom() == m.receipts.dom()
    &&& forall|k: Key| #[trigger] m.receipts.contains_key(k) <==> is_listed(m.slots, k)
    &&& forall|k: Key| #[trigger] m.receipts.contains_key(k) ==> m.receipts[k].tx_hash == k
}

/// Whether a log passes an address filter.
pub open spec fn passes(log: LogEntry, filter: Option<Key>) -> bool {
    match filter {
        Some(a) => log.address == a,
        None => true,
    }
}

/// The logs that pass the filter, each with its slot.
pub open spec fn passing_logs(logs: Seq<LogEntry>, slot: u64, filter: Option<Key>) -> Seq<
    (u64, LogEntry),
>
    decreases logs.len(),
{
    if logs.len() == 0 {
        Seq::empty()
    } else {
        let before = passing_logs(logs.drop_last(), slot, filter);
        if passes(logs.last(), filter) {
            before.push((slot, logs.last()))
        } else {
            before
        }
    }
}

/// The passing logs of transactions, in order; one without a receipt has none.
pub open spec fn logs_of(
    receipts: Map<Key, Receipt>,
    hashes: Seq<Key>,
    slot: u64,
    filter: Option<Key>,
) -> Seq<(u64, LogEntry)>
    decreases hashes.len(),
{
    if hashes.len() == 0 {
        Seq::empty()
    } else {
        let before = logs_of(receipts, hashes.drop_last(), slot, filter);
        if receipts.contains_key(hashes.last()) {
            before + passing_logs(receipts[hashes.last()].logs@, slot, filter)
        } else {
            before
        }
    }
}

/// The passing logs of the slots `from..end`, in ascending order of slots.
pub open spec fn logs_between(m: ReceiptModel, from: int, end: int, filter: Option<Key>) -> Seq<
    (u64, LogEntry),
>
    decreases end - from,
{
    if end <= from {
        Seq::empty()
    } else {
        let before = logs_between(m, from, end - 1, filter);
        let slot = (end - 1) as u64;
        if m.slots.contains_key(slot) {
            before + logs_of(m.receipts, m.slots[slot], slot, filter)
        } else {
            before
        }
    }
}

/// Logs by their values.
pub open spec fn logs_view(out: Seq<(u64, &LogEntry)>) -> Seq<(u64, LogEntry)> {
    out.map_values(|e: (u64, &LogEntry)| (e.0, *e.1))
}

proof fn lemma_no_logs(m: ReceiptModel, from: int, a: int, b: int, filter: Option<Key>)
    requires
        from <= a <= b,
        0 <= from,
        b <= u64::MAX + 1,
        forall|s: u64| a <= s < b ==> !#[trigger] m.slots.contains_key(s),
    ensures
        logs_between(m, from, a, filter) == logs_between(m, from, b, filter),
    decreases b - a,
{
    if a < b {
        lemma_no_logs(m, from, a, b - 1, filter);
        assert(!m.slots.contains_key((b - 1) as u64));
    }
}

/// Receipts by transaction, and the transactions of each slot in ascending order
/// of slots.
pub struct ReceiptStore {
    receipts: KeyMap<Receipt>,
    included: KeyMap<u64>,
    slot_txs: Vec<(u64, Vec<Key>)>,
}

spec fn slots_map(e: Seq<(u64, Vec<Key>)>) -> Map<u64, Seq<Key>> {
    Map::new(
        |s: u64| exists|i: int| 0 <= i < e.len() && (#[trigger] e[i]).0 == s,
        |s: u64|
            {
                let i = choose|i: int| 0 <= i < e.len() && (#[trigger] e[i]).0 == s;
                e[i].1@
            },
    )
}

spec fn ascending(e: Seq<(u64, Vec<Key>)>) -> bool {
    forall|i: int, j: int| #![trigger e[i], e[j]] 0 <= i < j < e.len() ==> e[i].0 < e[j].0
}

proof fn lemma_slot_entry(e: Seq<(u64, Vec<Key>)>, i: int)
    requires
        ascending(e),
        0 <= i < e.len(),
    ensures
        slots_map(e).contains_key(e[i].0),
        slots_map(e)[e[i].0] == e[i].1@,
{
    let c = choose|c: int| 0 <= c < e.len() && (#[trigger] e[c]).0 == e[i].0;
    assert(e[c].0 == e[i].0);
    if c < i {
        assert(e[c].0 < e[i].0);
    }
    if i < c {
        assert(e[i].0 < e[c].0);
    }
}

spec fn unlisted(list: Seq<Key>, slots: Map<u64, Seq<Key>>) -> Set<Key> {
    Set::new(|k: Key| list.contains(k) && !is_listed(slots, k))
}

impl View for ReceiptStore {
    type V = ReceiptModel;

    closed spec fn view(&self) -> ReceiptModel {
        ReceiptModel {
            receipts: self.receipts@,
            included: self.included@,
            slots: slots_map(self.slot_txs@),
        }
    }
}

fn copy_hashes(receipts: &Vec<Receipt>) -> (r: Vec<Key>)
    ensures
        r@ == hashes_of(receipts@),
{
    let mut out: Vec<Key> = Vec::new();
    let mut i: usize = 0;
    while i < receipts.len()
        invariant
            i <= receipts@.len(),
            out@ == hashes_of(receipts@).take(i as int),
        decreases receipts@.len() - i,
    {
        out.push(receipts[i].tx_hash);
        i = i + 1;
        assert(out@ =~= hashes_of(receipts@).take(i as int));
    }
    assert(out@ =~= hashes_of(receipts@));
    out
}

fn holds(list: &Vec<Key>, k: &Key) -> (r: bool)
    ensures
        r == list@.contains(*k),
{
    let mut i: usize = 0;
    while i < list.len()
        invariant
            i <= list@.len(),
            forall|j: int| 0 <= j < i ==> #[trigger] list@[j] != *k,
        decreases list@.len() - i,
    {
        if key_eq(&list[i], k) {
            assert(list@[i as int] == *k);
            return true;
        }
        i = i + 1;
    }
    false
}

fn joined(list: Vec<Key>, hashes: &Vec<Key>) -> (r: Vec<Key>)
    ensures
        r@ == besides(list@, hashes@) + hashes@,
{
    let mut out: Vec<Key> = Vec::new();
    let mut i: usize = 0;
    assert(list@.take(0) =~= Seq::empty());
    while i < list.len()
        invariant
            i <= list@.len(),
            out@ == besides(list@.take(i as int), hashes@),
        decreases list@.len() - i,
    {
        let ghost t1 = list@.take(i + 1);
        assert(t1.drop_last() =~= list@.take(i as int));
        assert(t1.last() == list@[i as int]);
        if !holds(hashes, &list[i]) {
            out.push(list[i]);
        }
        i = i + 1;
    }
    assert(list@.take(i as int) =~= list@);
    let ghost kept = out@;
    let mut j: usize = 0;
    assert(kept + hashes@.take(0) =~= kept);
    while j < hashes.len()
        invariant
            j <= hashes@.len(),
            out@ == kept + hashes@.take(j as int),
        decreases hashes@.len() - j,
    {
        out.push(hashes[j]);
        j = j + 1;
        assert(out@ =~= kept + hashes@.take(j as int));
    }
    assert(hashes@.take(j as int) =~= hashes@);
    out
}

impl ReceiptStore {
    spec fn ordered(&self) -> bool {
        &&& self.receipts.wf()
        &&& self.included.wf()
        &&& ascending(self.slot_txs@)
    }

    /// The slots are in ascending order, no transaction has two receipts, and the
    /// receipts are those of the transactions that slots list.
    pub closed spec fn wf(&self) -> bool {
        self.ordered() && consistent(self@)
    }

    /// The receipts are those of the transactions that slots list.
    pub proof fn lemma_consistent(&self)
        requires
            self.wf(),
        ensures
            consistent(self@),
    {
    }

    /// A store without receipts.
    pub fn new() -> (s: Self)
        ensures
            s.wf(),
            s@ == (ReceiptModel {
                receipts: Map::empty(),
                included: Map::empty(),
                slots: Map::empty(),
            }),
    {
        let s = ReceiptStore {
            receipts: KeyMap::new(),
            included: KeyMap::new(),
            slot_txs: Vec::new(),
        };
        assert(s@.slots =~= Map::empty());
        s
    }

    /// The receipt of a transaction.
    pub fn get(&self, tx_hash: &Key) -> (r: Option<&Receipt>)
        requires
            self.wf(),
        ensures
            match r {
                Some(v) => self@.receipts.contains_key(*tx_hash) && *v
                    == self@.receipts[*tx_hash],
                None => !self@.receipts.contains_key(*tx_hash),
            },
    {
        self.receipts.get(tx_hash)
    }

    /// How many receipts there are.
    pub fn len(&self) -> (n: usize)
        requires
            self.wf(),
        ensures
            n == self@.receipts.len(),
    {
        self.receipts.len()
    }

    /// The transactions of a slot, where the slot is known.
    pub fn tx_hashes_at_slot(&self, slot: u64) -> (r: Option<Vec<Key>>)
        requires
            self.wf(),
        ensures
            match r {
                Some(h) => self@.slots.contains_key(slot) && h@ == self@.slots[slot],
                None => !self@.slots.contains_key(slot),
            },
    {
        self.listed_at(slot)
    }

    /// The slot that a transaction's receipt came in with; there is one where there
    /// is a receipt.
    pub fn slot_of(&self, tx_hash: &Key) -> (r: Option<u64>)
        requires
            self.wf(),
        ensures
            r is Some == self@.receipts.contains_key(*tx_hash),
            match r {
                Some(s) => self@.included.contains_key(*tx_hash) && s == self@.included[*tx_hash],
                None => !self@.included.contains_key(*tx_hash),
            },
    {
        assert(self@.included.dom().contains(*tx_hash) == self@.receipts.dom().contains(*tx_hash));
        match self.included.get(tx_hash) {
            Some(s) => Some(*s),
            None => None,
        }
    }

    fn listed_at(&self, slot: u64) -> (r: Option<Vec<Key>>)
        requires
            self.ordered(),
        ensures
            match r {
                Some(h) => self@.slots.contains_key(slot) && h@ == self@.slots[slot],
                None => !self@.slots.contains_key(slot),
            },
    {
        let mut i: usize = 0;
        while i < self.slot_txs.len()
            invariant
                self.ordered(),
                i <= self.slot_txs@.len(),
                forall|j: int| 0 <= j < i ==> (#[trigger] self.slot_txs@[j]).0 != slot,
            decreases self.slot_txs@.len() - i,
        {
            if self.slot_txs[i].0 == slot {
                proof {
                    lemma_slot_entry(self.slot_txs@, i as int);
                }
                return Some(vstd::slice::slice_to_vec(self.slot_txs[i].1.as_slice()));
            }
            i = i + 1;
        }
        None
    }

    fn lists(&self, tx_hash: &Key) -> (r: bool)
        requires
            self.ordered(),
        ensures
            r == is_listed(self@.slots, *tx_hash),
    {
        let ghost e = self.slot_txs@;
        let mut n: usize = 0;
        while n < self.slot_txs.len()
            invariant
                self.ordered(),
                e == self.slot_txs@,
                n <= e.len(),
                forall|j: int| 0 <= j < n ==> !(#[trigger] e[j]).1@.contains(*tx_hash),
            decreases e.len() - n,
        {
            if holds(&self.slot_txs[n].1, tx_hash) {
                proof {
                    lemma_slot_entry(e, n as int);
                }
                return true;
            }
            n = n + 1;
        }
        proof {
            assert forall|t: u64| #[trigger] self@.slots.contains_key(t) implies !self@.slots[t].contains(
                *tx_hash,
            ) by {
                let j = choose|j: int| 0 <= j < e.len() && (#[trigger] e[j]).0 == t;
                lemma_slot_entry(e, j);
                assert(!e[j].1@.contains(*tx_hash));
            }
        }
        false
    }

    fn set_slot(&mut self, slot: u64, hashes: Vec<Key>)
        requires
            old(self).ordered(),
        ensures
            final(self).ordered(),
            final(self)@ == (ReceiptModel {
                slots: old(self)@.slots.insert(slot, hashes@),
                ..old(self)@
            }),
    {
        let ghost e0 = self.slot_txs@;
        let ghost m = slots_map(e0).insert(slot, hashes@);
        let ghost h = hashes@;
        let mut p: usize = self.slot_txs.len();
        while p > 0 && self.slot_txs[p - 1].0 > slot
            invariant
                p <= self.slot_txs@.len(),
                e0 == self.slot_txs@,
                *self == *old(self),
                forall|j: int| p <= j < e0.len() ==> (#[trigger] e0[j]).0 > slot,
            decreases p,
        {
            p = p - 1;
        }
        let ghost at: int;
        if p > 0 && self.slot_txs[p - 1].0 == slot {
            self.slot_txs[p - 1] = (slot, hashes);
            proof {
                at = p - 1;
                assert(self.slot_txs@ =~= e0.update(p - 1, (slot, hashes)));
            }
        } else {
            self.slot_txs.insert(p, (slot, hashes));
            proof {
                at = p as int;
                assert(self.slot_txs@ =~= e0.insert(p as int, (slot, hashes)));
            }
        }
        let ghost e = self.slot_txs@;
        proof {
            let grew = e.len() == e0.len() + 1;
            assert forall|i: int, j: int| #![trigger e[i], e[j]] 0 <= i < j < e.len() implies e[i].0
                < e[j].0 by {
                let i2 = if grew && i > at { i - 1 } else { i };
                let j2 = if grew && j > at { j - 1 } else { j };
                if i != at {
                    assert(e[i] == e0[i2]);
                }
                if j != at {
                    assert(e[j] == e0[j2]);
                }
                if i != at && j != at {
                    assert(e0[i2].0 < e0[j2].0);
                } else if i == at {
                    if p > 0 && !grew {
                        assert(e0[p - 1].0 < e0[j2].0);
                    }
                } else {
                    if p > 0 {
                        if i2 < p - 1 {
                            assert(e0[i2].0 < e0[p - 1].0);
                        }
                    }
                }
            }
            assert forall|s: u64| slots_map(e).contains_key(s) == m.contains_key(s) by {
                if slots_map(e).contains_key(s) {
                    let i = choose|i: int| 0 <= i < e.len() && (#[trigger] e[i]).0 == s;
                    if i != at {
                        let i2 = if grew && i > at { i - 1 } else { i };
                        assert(e[i] == e0[i2]);
                        lemma_slot_entry(e0, i2);
                    }
                }
                if slots_map(e0).contains_key(s) && s != slot {
                    let i2 = choose|i: int| 0 <= i < e0.len() && (#[trigger] e0[i]).0 == s;
                    let i = if grew && i2 >= at { i2 + 1 } else { i2 };
                    assert(e[i] == e0[i2]);
                    lemma_slot_entry(e, i);
                }
                lemma_slot_entry(e, at);
            }
            assert forall|s: u64| slots_map(e).contains_key(s) implies slots_map(e)[s] == m[s] by {
                let i = choose|i: int| 0 <= i < e.len() && (#[trigger] e[i]).0 == s;
                lemma_slot_entry(e, i);
                if i != at {
                    let i2 = if grew && i > at { i - 1 } else { i };
                    assert(e[i] == e0[i2]);
                    lemma_slot_entry(e0, i2);
                    if i < at {
                        assert(e[i].0 < e[at].0);
                    } else {
                        assert(e[at].0 < e[i].0);
                    }
                }
            }
            assert(slots_map(e) =~= m);
        }
    }

    fn drop_oldest(&mut self)
        requires
            old(self).ordered(),
            old(self).slot_txs@.len() > 0,
        ensures
            final(self).ordered(),
            final(self).slot_txs@ == old(self).slot_txs@.skip(1),
            final(self)@.receipts == old(self)@.receipts.remove_keys(
                unlisted(old(self).slot_txs@[0].1@, final(self)@.slots),
            ),
            final(self)@.included == old(self)@.included.remove_keys(
                unlisted(old(self).slot_txs@[0].1@, final(self)@.slots),
            ),
            final(self)@.slots == old(self)@.slots.remove(old(self).slot_txs@[0].0),
    {
        let ghost e0 = self.slot_txs@;
        let ghost r0 = self.receipts@;
        let oldest = self.slot_txs.remove(0);
        assert(self.slot_txs@ =~= e0.skip(1));
        let ghost e = self.slot_txs@;
        proof {
            assert forall|i: int, j: int| #![trigger e[i], e[j]] 0 <= i < j < e.len() implies e[i].0
                < e[j].0 by {
                assert(e[i] == e0[i + 1] && e[j] == e0[j + 1]);
            }
            let m = slots_map(e0).remove(e0[0].0);
            assert forall|s: u64| slots_map(e).contains_key(s) == m.contains_key(s) by {
                if slots_map(e).contains_key(s) {
                    let i = choose|i: int| 0 <= i < e.len() && (#[trigger] e[i]).0 == s;
                    assert(e[i] == e0[i + 1]);
                    lemma_slot_entry(e0, i + 1);
                    assert(e0[0].0 < e0[i + 1].0);
                }
                if m.contains_key(s) {
                    let i2 = choose|i: int| 0 <= i < e0.len() && (#[trigger] e0[i]).0 == s;
                    assert(e[i2 - 1] == e0[i2]);
                    lemma_slot_entry(e, i2 - 1);
                }
            }
            assert forall|s: u64| slots_map(e).contains_key(s) implies slots_map(e)[s] == m[s] by {
                let i = choose|i: int| 0 <= i < e.len() && (#[trigger] e[i]).0 == s;
                assert(e[i] == e0[i + 1]);
                lemma_slot_entry(e, i);
                lemma_slot_entry(e0, i + 1);
            }
            assert(slots_map(e) =~= m);
        }
        let list = &oldest.1;
        let ghost left = slots_map(e);
        let ghost h0 = self.included@;
        let mut i: usize = 0;
        assert(unlisted(list@.take(0), left) =~= Set::empty());
        assert(r0.remove_keys(Set::empty()) =~= r0);
        assert(h0.remove_keys(Set::empty()) =~= h0);
        while i < list.len()
            invariant
                self.ordered(),
                self.slot_txs@ == e,
                left == slots_map(e),
                i <= list@.len(),
                self.receipts@ == r0.remove_keys(unlisted(list@.take(i as int), left)),
                self.included@ == h0.remove_keys(unlisted(list@.take(i as int), left)),
            decreases list@.len() - i,
        {
            if !self.lists(&list[i]) {
                self.receipts.remove(&list[i]);
                self.included.remove(&list[i]);
            }
            i = i + 1;
            proof {
                let t0 = list@.take(i - 1);
                let t1 = list@.take(i as int);
                assert(t1 =~= t0.push(list@[i - 1]));
                assert forall|k: Key| t1.contains(k) == (t0.contains(k) || k == list@[i - 1]) by {
                    if t0.contains(k) {
                        let j = choose|j: int| 0 <= j < t0.len() && t0[j] == k;
                        assert(t1[j] == k);
                    }
                    assert(t1[i - 1] == list@[i - 1]);
                }
                assert(self.receipts@ =~= r0.remove_keys(unlisted(t1, left)));
                assert(self.included@ =~= h0.remove_keys(unlisted(t1, left)));
            }
        }
        assert(list@.take(i as int) =~= list@);
    }

    fn prune_before(&mut self, slot: u64)
        requires
            old(self).ordered(),
        ensures
            final(self).ordered(),
            final(self)@ == pruned(old(self)@, slot as int),
    {
        let ghost m0 = self@;
        let ghost mut low: int = 0;
        assert(pruned(m0, 0) =~= m0) by {
            assert(slots_from(m0.slots, 0) =~= m0.slots);
            assert(listed_last_below(m0.slots, 0) =~= Set::empty());
        }
        while self.slot_txs.len() > 0 && self.slot_txs[0].0 < slot
            invariant
                self.ordered(),
                0 <= low <= slot,
                self@ == pruned(m0, low),
                m0 == old(self)@,
            decreases self.slot_txs@.len(),
        {
            let ghost e = self.slot_txs@;
            let ghost s0 = e[0].0;
            let ghost before = self@;
            proof {
                lemma_slot_entry(e, 0);
                assert forall|t: u64| #[trigger] before.slots.contains_key(t) implies t >= s0 by {
                    let j = choose|j: int| 0 <= j < e.len() && (#[trigger] e[j]).0 == t;
                    if j > 0 {
                        assert(e[0].0 < e[j].0);
                    }
                }
            }
            self.drop_oldest();
            proof {
                let p = pruned(m0, s0 + 1);
                assert(before.slots.contains_key(s0));
                assert(m0.slots.contains_key(s0) && s0 >= low);
                assert(self@.slots =~= p.slots) by {
                    assert forall|t: u64| #[trigger] m0.slots.contains_key(t) && t < s0 implies t
                        < low by {
                        if t >= low {
                            assert(before.slots.contains_key(t));
                        }
                    }
                }
                let a = listed_last_below(m0.slots, low);
                let b = listed_last_below(m0.slots, s0 + 1);
                let c = unlisted(e[0].1@, p.slots);
                assert(before.slots[s0] == m0.slots[s0]);
                assert forall|k: Key| b.contains(k) == (a.contains(k) || c.contains(k)) by {
                    if is_listed(p.slots, k) {
                        let t = choose|t: u64| #[trigger]
                            p.slots.contains_key(t) && p.slots[t].contains(k);
                        assert(before.slots.contains_key(t) && before.slots[t].contains(k));
                        assert(m0.slots.contains_key(t));
                    } else if is_listed(before.slots, k) {
                        let t = choose|t: u64| #[trigger]
                            before.slots.contains_key(t) && before.slots[t].contains(k);
                        if t != s0 {
                            assert(p.slots.contains_key(t));
                        }
                        assert(m0.slots.contains_key(t) && m0.slots[t].contains(k));
                    } else {
                        assert(before.slots.contains_key(s0));
                    }
                }
                assert(self@.receipts =~= p.receipts);
                assert(self@.included =~= p.included);
                low = s0 + 1;
            }
        }
        proof {
            let e = self.slot_txs@;
            let p = pruned(m0, slot as int);
            assert(self@.slots =~= p.slots) by {
                assert forall|t: u64| #[trigger] m0.slots.contains_key(t) && t < slot implies t
                    < low by {
                    if t >= low {
                        assert(self@.slots.contains_key(t));
                        let j = choose|j: int| 0 <= j < e.len() && (#[trigger] e[j]).0 == t;
                        if j > 0 {
                            assert(e[0].0 < e[j].0);
                        }
                    }
                }
            }
            assert(listed_last_below(m0.slots, low) =~= listed_last_below(m0.slots, slot as int));
        }
    }

    /// Takes receipts of a block, which its slot lists after those that it lists
    /// already. Slots more than `MAX_RECEIPT_SLOTS` older are dropped, with the
    /// receipts that no other slot lists.
    pub fn insert_block_receipts(&mut self, slot: u64, receipts: Vec<Receipt>)
        requires
            old(self).wf(),
        ensures
            final(self).wf(),
            final(self)@ == after_block(old(self)@, slot, receipts@),
    {
        let hashes = copy_hashes(&receipts);
        let ghost all = receipts@;
        let ghost m0 = self@;
        let mut rest = receipts;
        let ghost mut i: int = 0;
        assert(all.take(0) =~= Seq::empty());
        assert(hashes_of(all).take(0) =~= Seq::empty());
        assert(all.skip(0) =~= all);
        while rest.len() > 0
            invariant
                self.ordered(),
                0 <= i <= all.len(),
                rest@ == all.skip(i),
                self@ == (ReceiptModel {
                    receipts: with_receipts(m0.receipts, all.take(i)),
                    included: with_slot(m0.included, hashes_of(all).take(i), slot),
                    ..m0
                }),
            decreases rest@.len(),
        {
            let ghost r0 = rest@;
            let r = rest.remove(0);
            assert(rest@ =~= all.skip(i + 1));
            assert(r == all[i]);
            assert(all.take(i + 1).drop_last() =~= all.take(i));
            assert(hashes_of(all).take(i + 1).drop_last() =~= hashes_of(all).take(i));
            let h: Key = r.tx_hash;
            self.receipts.insert(h, r);
            self.included.insert(h, slot);
            proof {
                i = i + 1;
            }
        }
        assert(all.take(i) =~= all);
        assert(hashes_of(all).take(i) =~= hashes_of(all));
        let list: Vec<Key> = match self.listed_at(slot) {
            Some(l) => l,
            None => Vec::new(),
        };
        assert(list@ =~= list_at(m0.slots, slot));
        self.set_slot(slot, joined(list, &hashes));
        proof {
            law_receipts_are_listed(m0, slot, all);
        }
        if slot > MAX_RECEIPT_SLOTS {
            self.prune_before(slot - MAX_RECEIPT_SLOTS);
        }
    }

    fn push_logs<'a>(
        &'a self,
        out: &mut Vec<(u64, &'a LogEntry)>,
        list: &Vec<Key>,
        slot: u64,
        filter: Option<&Key>,
    )
        requires
            self.wf(),
        ensures
            logs_view(final(out)@) == logs_view(old(out)@) + logs_of(
                self@.receipts,
                list@,
                slot,
                match filter {
                    Some(a) => Some(*a),
                    None => None,
                },
            ),
    {
        let ghost f = match filter {
            Some(a) => Some(*a),
            None => None::<Key>,
        };
        let ghost o0 = logs_view(out@);
        let mut i: usize = 0;
        assert(list@.take(0) =~= Seq::empty());
        assert(o0 + Seq::<(u64, LogEntry)>::empty() =~= o0);
        while i < list.len()
            invariant
                self.wf(),
                i <= list@.len(),
                f == match filter {
                    Some(a) => Some(*a),
                    None => None::<Key>,
                },
                logs_view(out@) == o0 + logs_of(self@.receipts, list@.take(i as int), slot, f),
            decreases list@.len() - i,
        {
            let ghost t1 = list@.take(i + 1);
            assert(t1.drop_last() =~= list@.take(i as int));
            assert(t1.last() == list@[i as int]);
            if let Some(receipt) = self.receipts.get(&list[i]) {
                let logs = &receipt.logs;
                let ghost o1 = logs_view(out@);
                let mut j: usize = 0;
                assert(logs@.take(0) =~= Seq::empty());
                assert(o1 + Seq::<(u64, LogEntry)>::empty() =~= o1);
                while j < logs.len()
                    invariant
                        j <= logs@.len(),
                        f == match filter {
                            Some(a) => Some(*a),
                            None => None::<Key>,
                        },
                        logs_view(out@) == o1 + passing_logs(logs@.take(j as int), slot, f),
                    decreases logs@.len() - j,
                {
                    let log = &logs[j];
                    let pass: bool = match filter {
                        Some(a) => key_eq(&log.address, a),
                        None => true,
                    };
                    let ghost l1 = logs@.take(j + 1);
                    assert(l1.drop_last() =~= logs@.take(j as int));
                    assert(l1.last() == *log);
                    if pass {
                        let ghost o2 = out@;
                        out.push((slot, log));
                        assert(logs_view(out@) =~= logs_view(o2).push((slot, *log)));
                        assert(logs_view(out@) =~= o1 + passing_logs(l1, slot, f));
                    }
                    j = j + 1;
                }
                assert(logs@.take(j as int) =~= logs@);
                assert(logs_view(out@) =~= o0 + logs_of(self@.receipts, t1, slot, f));
            }
            i = i + 1;
        }
        assert(list@.take(i as int) =~= list@);
    }

    /// Every log of the slots from `from_slot` to `to_slot`, both in, that passes
    /// the address filter: in the order of slots, transactions and events.
    pub fn get_logs(&self, from_slot: u64, to_slot: u64, address_filter: Option<&Key>) -> (r: Vec<
        (u64, &LogEntry),
    >)
        requires
            self.wf(),
        ensures
            logs_view(r@) == logs_between(
                self@,
                from_slot as int,
                to_slot + 1,
                match address_filter {
                    Some(a) => Some(*a),
                    None => None,
                },
            ),
    {
        let ghost f = match address_filter {
            Some(a) => Some(*a),
            None => None::<Key>,
        };
        let ghost m = self@;
        let ghost e = self.slot_txs@;
        let ghost from = from_slot as int;
        let mut out: Vec<(u64, &LogEntry)> = Vec::new();
        let ghost mut bound: int = from;
        let mut i: usize = 0;
        assert(logs_view(out@) =~= Seq::empty());
        while i < self.slot_txs.len() && self.slot_txs[i].0 <= to_slot
            invariant
                self.wf(),
                m == self@,
                e == self.slot_txs@,
                from == from_slot,
                f == match address_filter {
                    Some(a) => Some(*a),
                    None => None::<Key>,
                },
                i <= e.len(),
                from <= bound <= u64::MAX + 1,
                bound <= to_slot + 1 || bound == from,
                forall|j: int| 0 <= j < i ==> (#[trigger] e[j]).0 < bound,
                forall|j: int| i <= j < e.len() ==> (#[trigger] e[j]).0 >= bound || e[j].0 < from,
                i > 0 && e[i - 1].0 >= from ==> bound == e[i - 1].0 + 1,
                logs_view(out@) == logs_between(m, from, bound, f),
            decreases e.len() - i,
        {
            let slot: u64 = self.slot_txs[i].0;
            assert(slot == e[i as int].0);
            if slot >= from_slot {
                proof {
                    assert forall|s: u64| bound <= s < slot implies !#[trigger] m.slots.contains_key(
                        s,
                    ) by {
                        if m.slots.contains_key(s) {
                            let j = choose|j: int| 0 <= j < e.len() && (#[trigger] e[j]).0 == s;
                            if j > i {
                                assert(e[i as int].0 < e[j].0);
                            }
                        }
                    }
                    lemma_no_logs(m, from, bound, slot as int, f);
                    lemma_slot_entry(e, i as int);
                }
                self.push_logs(&mut out, &self.slot_txs[i].1, slot, address_filter);
                proof {
                    assert(m.slots.contains_key(slot));
                    assert(((slot + 1) - 1) as u64 == slot);
                    assert(logs_view(out@) == logs_between(m, from, slot + 1, f));
                    bound = slot + 1;
                    assert forall|j: int| 0 <= j < i + 1 implies (#[trigger] e[j]).0 < bound by {
                        if j < i {
                            assert(e[j].0 < e[i as int].0);
                        }
                    }
                    assert forall|j: int| i + 1 <= j < e.len() implies (#[trigger] e[j]).0
                        >= bound || e[j].0 < from by {
                        assert(e[i as int].0 < e[j].0);
                    }
                }
            }
            i = i + 1;
        }
        proof {
            let end = to_slot + 1;
            if bound <= end {
                assert forall|s: u64| bound <= s < end implies !#[trigger] m.slots.contains_key(
                    s,
                ) by {
                    if m.slots.contains_key(s) {
                        let j = choose|j: int| 0 <= j < e.len() && (#[trigger] e[j]).0 == s;
                        if j >= i {
                            if j > i {
                                assert(e[i as int].0 < e[j].0);
                            }
                        }
                    }
                }
                lemma_no_logs(m, from, bound, end, f);
            }
        }
        out
    }
}

/// No slot is kept that is more than `MAX_RECEIPT_SLOTS` older than a block that
/// was just taken in, and every other slot keeps its list.
pub proof fn law_old_slots_are_pruned(m: ReceiptModel, slot: u64, receipts: Seq<Receipt>, s: u64)
    ensures
        after_block(m, slot, receipts).slots.contains_key(s) == ((m.slots.contains_key(s) || s
            == slot) && s + MAX_RECEIPT_SLOTS >= slot),
        after_block(m, slot, receipts).slots.contains_key(s) && s != slot ==> after_block(
            m,
            slot,
            receipts,
        ).slots[s] == m.slots[s],
{
}

proof fn lemma_with_receipts(m: Map<Key, Receipt>, receipts: Seq<Receipt>, k: Key)
    ensures
        with_receipts(m, receipts).contains_key(k) == (m.contains_key(k) || hashes_of(
            receipts,
        ).contains(k)),
        hashes_of(receipts).contains(k) ==> receipts.contains(with_receipts(m, receipts)[k])
            && with_receipts(m, receipts)[k].tx_hash == k,
        !hashes_of(receipts).contains(k) && m.contains_key(k) ==> with_receipts(m, receipts)[k]
            == m[k],
    decreases receipts.len(),
{
    if receipts.len() > 0 {
        let rest = receipts.drop_last();
        lemma_with_receipts(m, rest, k);
        assert(hashes_of(receipts) =~= hashes_of(rest).push(receipts.last().tx_hash));
        if hashes_of(receipts).contains(k) {
            let i = choose|i: int| 0 <= i < receipts.len() && hashes_of(receipts)[i] == k;
            if i < rest.len() {
                assert(hashes_of(rest)[i] == k);
            }
            assert(receipts[receipts.len() - 1] == receipts.last());
            if receipts.last().tx_hash != k {
                let r = with_receipts(m, rest)[k];
                let j = choose|j: int| 0 <= j < rest.len() && rest[j] == r;
                assert(receipts[j] == r);
            }
        }
        if hashes_of(rest).contains(k) {
            let i = choose|i: int| 0 <= i < rest.len() && hashes_of(rest)[i] == k;
            assert(hashes_of(receipts)[i] == k);
        }
        assert(hashes_of(receipts)[receipts.len() - 1] == receipts.last().tx_hash);
    } else {
        assert(hashes_of(receipts) =~= Seq::empty());
    }
}

proof fn lemma_with_slot(m: Map<Key, u64>, hashes: Seq<Key>, slot: u64, k: Key)
    ensures
        with_slot(m, hashes, slot).contains_key(k) == (m.contains_key(k) || hashes.contains(k)),
        hashes.contains(k) ==> with_slot(m, hashes, slot)[k] == slot,
        !hashes.contains(k) && m.contains_key(k) ==> with_slot(m, hashes, slot)[k] == m[k],
    decreases hashes.len(),
{
    if hashes.len() > 0 {
        let rest = hashes.drop_last();
        lemma_with_slot(m, rest, slot, k);
        assert(hashes =~= rest.push(hashes.last()));
        assert(hashes.contains(k) == (rest.contains(k) || k == hashes.last())) by {
            if rest.contains(k) {
                let i = choose|i: int| 0 <= i < rest.len() && rest[i] == k;
                assert(hashes[i] == k);
            }
            assert(hashes[hashes.len() - 1] == hashes.last());
        }
    }
}

proof fn lemma_besides(list: Seq<Key>, others: Seq<Key>, k: Key)
    ensures
        besides(list, others).contains(k) == (list.contains(k) && !others.contains(k)),
    decreases list.len(),
{
    if list.len() > 0 {
        let rest = list.drop_last();
        lemma_besides(rest, others, k);
        assert(list =~= rest.push(list.last()));
        assert(list.contains(k) == (rest.contains(k) || k == list.last())) by {
            if rest.contains(k) {
                let i = choose|i: int| 0 <= i < rest.len() && rest[i] == k;
                assert(list[i] == k);
            }
            assert(list[list.len() - 1] == list.last());
        }
        if !others.contains(list.last()) {
            let b = besides(rest, others);
            let p = b.push(list.last());
            assert(p.contains(k) == (b.contains(k) || k == list.last())) by {
                if b.contains(k) {
                    let i = choose|i: int| 0 <= i < b.len() && b[i] == k;
                    assert(p[i] == k);
                }
                assert(p[b.len() as int] == list.last());
            }
        }
    }
}

/// A slot lists what it listed before a block and what the block brought.
pub proof fn law_slots_keep_what_they_list(
    m: ReceiptModel,
    slot: u64,
    receipts: Seq<Receipt>,
    k: Key,
)
    ensures
        after_block(m, slot, receipts).slots.contains_key(slot),
        after_block(m, slot, receipts).slots[slot].contains(k) == (list_at(m.slots, slot).contains(
            k,
        ) || hashes_of(receipts).contains(k)),
{
    let hashes = hashes_of(receipts);
    let old_list = besides(list_at(m.slots, slot), hashes);
    let list = old_list + hashes;
    lemma_besides(list_at(m.slots, slot), hashes, k);
    assert(list.contains(k) == (old_list.contains(k) || hashes.contains(k))) by {
        if old_list.contains(k) {
            let i = choose|i: int| 0 <= i < old_list.len() && old_list[i] == k;
            assert(list[i] == k);
        }
        if hashes.contains(k) {
            let i = choose|i: int| 0 <= i < hashes.len() && hashes[i] == k;
            assert(list[old_list.len() + i] == k);
        }
    }
    assert(with_block(m, slot, receipts).slots[slot] == list);
}

proof fn lemma_pruned_is_consistent(m: ReceiptModel, before: int)
    requires
        consistent(m),
    ensures
        consistent(pruned(m, before)),
{
    let p = pruned(m, before);
    assert(p.included.dom() =~= p.receipts.dom()) by {
        assert forall|k: Key| p.included.dom().contains(k) == p.receipts.dom().contains(k) by {
            assert(m.included.dom().contains(k) == m.receipts.dom().contains(k));
        }
    }
    assert forall|k: Key| #[trigger] p.receipts.contains_key(k) <==> is_listed(p.slots, k) by {
        assert(m.receipts.contains_key(k) <==> is_listed(m.slots, k));
        if is_listed(p.slots, k) {
            let s = choose|s: u64| #[trigger] p.slots.contains_key(s) && p.slots[s].contains(k);
            assert(m.slots.contains_key(s) && m.slots[s].contains(k));
        }
    }
    assert forall|k: Key| #[trigger] p.receipts.contains_key(k) implies p.receipts[k].tx_hash
        == k by {
        assert(m.receipts.contains_key(k));
    }
}

/// After a block, as before it, the receipts are those of the transactions that
/// slots list, each under its own transaction.
pub proof fn law_receipts_are_listed(m: ReceiptModel, slot: u64, receipts: Seq<Receipt>)
    requires
        consistent(m),
    ensures
        consistent(with_block(m, slot, receipts)),
        consistent(after_block(m, slot, receipts)),
{
    let g = with_block(m, slot, receipts);
    let hashes = hashes_of(receipts);
    assert forall|k: Key| #[trigger] g.receipts.contains_key(k) <==> is_listed(g.slots, k) by {
        lemma_with_receipts(m.receipts, receipts, k);
        assert(m.receipts.contains_key(k) <==> is_listed(m.slots, k));
        law_slots_keep_what_they_list(m, slot, receipts, k);
        assert(g.slots[slot].contains(k) == (list_at(m.slots, slot).contains(k)
            || hashes.contains(k)));
        if is_listed(g.slots, k) {
            let s = choose|s: u64| #[trigger] g.slots.contains_key(s) && g.slots[s].contains(k);
            if s != slot {
                assert(m.slots.contains_key(s) && m.slots[s].contains(k));
            } else if list_at(m.slots, slot).contains(k) {
                assert(m.slots.contains_key(slot));
            }
        }
        if hashes.contains(k) {
            assert(g.slots.contains_key(slot));
        } else if is_listed(m.slots, k) {
            let s = choose|s: u64| #[trigger] m.slots.contains_key(s) && m.slots[s].contains(k);
            assert(g.slots.contains_key(s) && g.slots[s].contains(k));
        }
    }
    assert forall|k: Key| #[trigger] g.receipts.contains_key(k) implies g.receipts[k].tx_hash
        == k by {
        lemma_with_receipts(m.receipts, receipts, k);
        assert(m.receipts.contains_key(k) ==> m.receipts[k].tx_hash == k);
    }
    assert(g.included.dom() =~= g.receipts.dom()) by {
        assert forall|k: Key| g.included.dom().contains(k) == g.receipts.dom().contains(k) by {
            lemma_with_receipts(m.receipts, receipts, k);
            lemma_with_slot(m.included, hashes, slot, k);
            assert(m.included.dom().contains(k) == m.receipts.dom().contains(k));
        }
    }
    if slot > MAX_RECEIPT_SLOTS {
        lemma_pruned_is_consistent(g, slot - MAX_RECEIPT_SLOTS);
    }
}

proof fn lemma_last_receipt(m: Map<Key, Receipt>, receipts: Seq<Receipt>, i: int)
    requires
        0 <= i < receipts.len(),
        forall|j: int| i < j < receipts.len() ==> (#[trigger] receipts[j]).tx_hash
            != receipts[i].tx_hash,
    ensures
        with_receipts(m, receipts).contains_key(receipts[i].tx_hash),
        with_receipts(m, receipts)[receipts[i].tx_hash] == receipts[i],
    decreases receipts.len(),
{
    if i < receipts.len() - 1 {
        let rest = receipts.drop_last();
        assert forall|j: int| i < j < rest.len() implies (#[trigger] rest[j]).tx_hash
            != rest[i].tx_hash by {
            assert(rest[j] == receipts[j]);
        }
        lemma_last_receipt(m, rest, i);
        assert(receipts[receipts.len() - 1] == receipts.last());
    }
}

/// The last receipt of a transaction, where there is one.
pub proof fn lemma_last_of(receipts: Seq<Receipt>, k: Key) -> (i: int)
    requires
        hashes_of(receipts).contains(k),
    ensures
        0 <= i < receipts.len(),
        receipts[i].tx_hash == k,
        forall|j: int| i < j < receipts.len() ==> (#[trigger] receipts[j]).tx_hash != k,
    decreases receipts.len(),
{
    let c = choose|c: int| 0 <= c < receipts.len() && hashes_of(receipts)[c] == k;
    if receipts.last().tx_hash == k {
        receipts.len() - 1
    } else {
        let rest = receipts.drop_last();
        assert(hashes_of(rest)[c] == k);
        let i = lemma_last_of(rest, k);
        assert forall|j: int| i < j < receipts.len() implies (#[trigger] receipts[j]).tx_hash
            != k by {
            if j < rest.len() {
                assert(rest[j] == receipts[j]);
            }
        }
        i
    }
}

/// A receipt that was just put in is found under its transaction, with its slot:
/// where a block brings several of one transaction, the last of them.
pub proof fn law_inserted_receipts_are_found(
    m: ReceiptModel,
    slot: u64,
    receipts: Seq<Receipt>,
    i: int,
)
    requires
        0 <= i < receipts.len(),
        forall|j: int| i < j < receipts.len() ==> (#[trigger] receipts[j]).tx_hash
            != receipts[i].tx_hash,
    ensures
        ({
            let after = after_block(m, slot, receipts);
            let k = receipts[i].tx_hash;
            &&& after.receipts.contains_key(k)
            &&& after.receipts[k] == receipts[i]
            &&& after.included.contains_key(k)
            &&& after.included[k] == slot
            &&& after.slots[slot].contains(k)
        }),
{
    let k = receipts[i].tx_hash;
    let hashes = hashes_of(receipts);
    let g = with_block(m, slot, receipts);
    assert(hashes[i] == k);
    lemma_last_receipt(m.receipts, receipts, i);
    lemma_with_slot(m.included, hashes, slot, k);
    law_slots_keep_what_they_list(m, slot, receipts, k);
    if slot > MAX_RECEIPT_SLOTS {
        let left = slots_from(g.slots, slot - MAX_RECEIPT_SLOTS);
        assert(left.contains_key(slot) && left[slot].contains(k));
        assert(is_listed(left, k));
    }
}

/// No block takes away the receipt of a transaction that a kept slot lists.
pub proof fn law_listed_receipts_are_kept(
    m: ReceiptModel,
    slot: u64,
    receipts: Seq<Receipt>,
    s: u64,
    k: Key,
)
    requires
        consistent(m),
        m.slots.contains_key(s),
        m.slots[s].contains(k),
        s + MAX_RECEIPT_SLOTS >= slot,
    ensures
        after_block(m, slot, receipts).receipts.contains_key(k),
        !hashes_of(receipts).contains(k) ==> after_block(m, slot, receipts).receipts[k]
            == m.receipts[k],
        !hashes_of(receipts).contains(k) ==> after_block(m, slot, receipts).included[k]
            == m.included[k],
{
    let after = after_block(m, slot, receipts);
    assert(is_listed(m.slots, k));
    assert(m.receipts.contains_key(k));
    assert(m.included.dom().contains(k));
    law_receipts_are_listed(m, slot, receipts);
    law_slots_keep_what_they_list(m, slot, receipts, k);
    law_old_slots_are_pruned(m, slot, receipts, s);
    assert(after.slots.contains_key(s) && after.slots[s].contains(k));
    assert(is_listed(after.slots, k));
    lemma_with_receipts(m.receipts, receipts, k);
    lemma_with_slot(m.included, hashes_of(receipts), slot, k);
}

proof fn lemma_log_passes(logs: Seq<LogEntry>, slot: u64, filter: Option<Key>, i: int)
    requires
        0 <= i < logs.len(),
        passes(logs[i], filter),
    ensures
        passing_logs(logs, slot, filter).contains((slot, logs[i])),
    decreases logs.len(),
{
    let rest = logs.drop_last();
    let before = passing_logs(rest, slot, filter);
    let all = passing_logs(logs, slot, filter);
    if i == logs.len() - 1 {
        assert(all[before.len() as int] == (slot, logs[i]));
    } else {
        lemma_log_passes(rest, slot, filter, i);
        let j = choose|j: int| 0 <= j < before.len() && before[j] == (slot, rest[i]);
        assert(all[j] == (slot, logs[i]));
    }
}

proof fn lemma_log_of_listed(
    receipts: Map<Key, Receipt>,
    hashes: Seq<Key>,
    slot: u64,
    filter: Option<Key>,
    h: int,
    i: int,
)
    requires
        0 <= h < hashes.len(),
        receipts.contains_key(hashes[h]),
        0 <= i < receipts[hashes[h]].logs@.len(),
        passes(receipts[hashes[h]].logs@[i], filter),
    ensures
        logs_of(receipts, hashes, slot, filter).contains(
            (slot, receipts[hashes[h]].logs@[i]),
        ),
    decreases hashes.len(),
{
    let log = (slot, receipts[hashes[h]].logs@[i]);
    let rest = hashes.drop_last();
    let before = logs_of(receipts, rest, slot, filter);
    let all = logs_of(receipts, hashes, slot, filter);
    if h == hashes.len() - 1 {
        let own = passing_logs(receipts[hashes[h]].logs@, slot, filter);
        lemma_log_passes(receipts[hashes[h]].logs@, slot, filter, i);
        let j = choose|j: int| 0 <= j < own.len() && own[j] == log;
        assert(all[before.len() + j] == log);
    } else {
        lemma_log_of_listed(receipts, rest, slot, filter, h, i);
        let j = choose|j: int| 0 <= j < before.len() && before[j] == log;
        assert(all[j] == log);
    }
}

/// Every log of a stored receipt that passes the filter is among the logs of each
/// range that holds a slot which lists its transaction; and some slot does.
pub proof fn law_logs_of_receipts_are_found(
    m: ReceiptModel,
    k: Key,
    i: int,
    filter: Option<Key>,
    from: int,
    end: int,
)
    requires
        consistent(m),
        m.receipts.contains_key(k),
        0 <= i < m.receipts[k].logs@.len(),
        passes(m.receipts[k].logs@[i], filter),
        0 <= from,
        end <= u64::MAX + 1,
    ensures
        is_listed(m.slots, k),
        forall|s: u64| #[trigger]
            m.slots.contains_key(s) && m.slots[s].contains(k) && from <= s < end ==> logs_between(
                m,
                from,
                end,
                filter,
            ).contains((s, m.receipts[k].logs@[i])),
    decreases end - from,
{
    assert forall|s: u64| #[trigger]
        m.slots.contains_key(s) && m.slots[s].contains(k) && from <= s
            < end implies logs_between(m, from, end, filter).contains(
        (s, m.receipts[k].logs@[i]),
    ) by {
        let log = (s, m.receipts[k].logs@[i]);
        let before = logs_between(m, from, end - 1, filter);
        let all = logs_between(m, from, end, filter);
        if s == end - 1 {
            let own = logs_of(m.receipts, m.slots[s], s, filter);
            let h = choose|h: int| 0 <= h < m.slots[s].len() && m.slots[s][h] == k;
            lemma_log_of_listed(m.receipts, m.slots[s], s, filter, h, i);
            let j = choose|j: int| 0 <= j < own.len() && own[j] == log;
            assert(all[before.len() + j] == log);
        } else {
            law_logs_of_receipts_are_found(m, k, i, filter, from, end - 1);
            assert(before.contains(log));
            let j = choose|j: int| 0 <= j < before.len() && before[j] == log;
            assert(all[j] == log);
        }
    }
}

proof fn lemma_passing_slots(logs: Seq<LogEntry>, slot: u64, filter: Option<Key>)
    ensures
        forall|i: int|
            0 <= i < passing_logs(logs, slot, filter).len() ==> (#[trigger] passing_logs(
                logs,
                slot,
                filter,
            )[i]).0 == slot,
    decreases logs.len(),
{
    if logs.len() > 0 {
        lemma_passing_slots(logs.drop_last(), slot, filter);
        let before = passing_logs(logs.drop_last(), slot, filter);
        let all = passing_logs(logs, slot, filter);
        assert forall|i: int| 0 <= i < all.len() implies (#[trigger] all[i]).0 == slot by {
            if i < before.len() {
                assert(all[i] == before[i]);
            }
        }
    }
}

proof fn lemma_listed_slots(
    receipts: Map<Key, Receipt>,
    hashes: Seq<Key>,
    slot: u64,
    filter: Option<Key>,
)
    ensures
        forall|i: int|
            0 <= i < logs_of(receipts, hashes, slot, filter).len() ==> (#[trigger] logs_of(
                receipts,
                hashes,
                slot,
                filter,
            )[i]).0 == slot,
    decreases hashes.len(),
{
    if hashes.len() > 0 {
        lemma_listed_slots(receipts, hashes.drop_last(), slot, filter);
        if receipts.contains_key(hashes.last()) {
            lemma_passing_slots(receipts[hashes.last()].logs@, slot, filter);
        }
        let before = logs_of(receipts, hashes.drop_last(), slot, filter);
        let all = logs_of(receipts, hashes, slot, filter);
        assert forall|i: int| 0 <= i < all.len() implies (#[trigger] all[i]).0 == slot by {
            if i < before.len() {
                assert(all[i] == before[i]);
            } else {
                let own = passing_logs(receipts[hashes.last()].logs@, slot, filter);
                assert(all[i] == own[i - before.len()]);
            }
        }
    }
}

/// Logs come in the order of their slots, each of which is in the range.
pub proof fn law_logs_come_in_slot_order(
    m: ReceiptModel,
    from: int,
    end: int,
    filter: Option<Key>,
)
    requires
        0 <= from,
        end <= u64::MAX + 1,
    ensures
        forall|i: int|
            0 <= i < logs_between(m, from, end, filter).len() ==> from <= (#[trigger] logs_between(
                m,
                from,
                end,
                filter,
            )[i]).0 < end,
        forall|i: int, j: int|
            0 <= i <= j < logs_between(m, from, end, filter).len() ==> (#[trigger] logs_between(
                m,
                from,
                end,
                filter,
            )[i]).0 <= (#[trigger] logs_between(m, from, end, filter)[j]).0,
    decreases end - from,
{
    if from < end {
        let slot = (end - 1) as u64;
        law_logs_come_in_slot_order(m, from, end - 1, filter);
        if m.slots.contains_key(slot) {
            lemma_listed_slots(m.receipts, m.slots[slot], slot, filter);
        }
        let before = logs_between(m, from, end - 1, filter);
        let all = logs_between(m, from, end, filter);
        assert forall|i: int| 0 <= i < all.len() implies from <= (#[trigger] all[i]).0 < end && (i
            >= before.len() ==> all[i].0 == slot) && (i < before.len() ==> all[i] == before[i]) by {
            if i < before.len() {
                assert(all[i] == before[i]);
                assert(before[i].0 < end - 1);
            } else {
                let own = logs_of(m.receipts, m.slots[slot], slot, filter);
                assert(all[i] == own[i - before.len()]);
            }
        }
        assert forall|i: int, j: int| 0 <= i <= j < all.len() implies (#[trigger] all[i]).0 <= (
        #[trigger] all[j]).0 by {
            if j < before.len() {
                assert(before[i].0 <= before[j].0);
            }
        }
    }
}

/// The logs of a range are those of its first part, then those of the rest.
pub proof fn law_log_ranges_join(
    m: ReceiptModel,
    from: int,
    mid: int,
    end: int,
    filter: Option<Key>,
)
    requires
        from <= mid <= end,
    ensures
        logs_between(m, from, end, filter) == logs_between(m, from, mid, filter) + logs_between(
            m,
            mid,
            end,
            filter,
        ),
    decreases end - mid,
{
    let first = logs_between(m, from, mid, filter);
    if mid < end {
        let slot = (end - 1) as u64;
        law_log_ranges_join(m, from, mid, end - 1, filter);
        if m.slots.contains_key(slot) {
            let own = logs_of(m.receipts, m.slots[slot], slot, filter);
            let rest = logs_between(m, mid, end - 1, filter);
            assert((first + rest) + own =~= first + (rest + own));
        }
    } else {
        assert(first + Seq::<(u64, LogEntry)>::empty() =~= first);
    }
}

/// The logs that are at an address.
pub open spec fn logs_at(logs: Seq<(u64, LogEntry)>, address: Key) -> Seq<(u64, LogEntry)> {
    logs.filter(|l: (u64, LogEntry)| l.1.address == address)
}

proof fn lemma_logs_at_join(a: Seq<(u64, LogEntry)>, b: Seq<(u64, LogEntry)>, address: Key)
    ensures
        logs_at(a + b, address) == logs_at(a, address) + logs_at(b, address),
{
    Seq::filter_distributes_over_add(a, b, |l: (u64, LogEntry)| l.1.address == address);
}

proof fn lemma_no_logs_at(address: Key)
    ensures
        logs_at(Seq::empty(), address) == Seq::<(u64, LogEntry)>::empty(),
{
    reveal(Seq::filter);
}

proof fn lemma_passing_at(logs: Seq<LogEntry>, slot: u64, address: Key)
    ensures
        passing_logs(logs, slot, Some(address)) == logs_at(
            passing_logs(logs, slot, None),
            address,
        ),
    decreases logs.len(),
{
    if logs.len() > 0 {
        let before = passing_logs(logs.drop_last(), slot, None);
        lemma_passing_at(logs.drop_last(), slot, address);
        assert(before.push((slot, logs.last())).drop_last() =~= before);
        reveal(Seq::filter);
    } else {
        lemma_no_logs_at(address);
    }
}

proof fn lemma_listed_at(
    receipts: Map<Key, Receipt>,
    hashes: Seq<Key>,
    slot: u64,
    address: Key,
)
    ensures
        logs_of(receipts, hashes, slot, Some(address)) == logs_at(
            logs_of(receipts, hashes, slot, None),
            address,
        ),
    decreases hashes.len(),
{
    if hashes.len() > 0 {
        let before = logs_of(receipts, hashes.drop_last(), slot, None);
        lemma_listed_at(receipts, hashes.drop_last(), slot, address);
        if receipts.contains_key(hashes.last()) {
            let logs = receipts[hashes.last()].logs@;
            lemma_passing_at(logs, slot, address);
            lemma_logs_at_join(before, passing_logs(logs, slot, None), address);
        }
    } else {
        lemma_no_logs_at(address);
    }
}

/// The address filter selects: with it come exactly the logs at the address, in
/// the order in which all of them come without it.
pub proof fn law_address_filter_selects(m: ReceiptModel, from: int, end: int, address: Key)
    ensures
        logs_between(m, from, end, Some(address)) == logs_at(
            logs_between(m, from, end, None),
            address,
        ),
    decreases end - from,
{
    if from < end {
        let slot = (end - 1) as u64;
        law_address_filter_selects(m, from, end - 1, address);
        if m.slots.contains_key(slot) {
            lemma_listed_at(m.receipts, m.slots[slot], slot, address);
            lemma_logs_at_join(
                logs_between(m, from, end - 1, None),
                logs_of(m.receipts, m.slots[slot], slot, None),
                address,
            );
        }
    } else {
        lemma_no_logs_at(address);
    }
}

} // verus!
