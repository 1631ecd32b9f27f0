//! Pending plaintext transactions: admission, nonces, expiry.
use vstd::prelude::*;

use crate::hexcodec::{RpcError, RpcFault};
use crate::keymap::{key_eq, Key, KeyMap};
use crate::text;
use crate::text::{copy_bytes, push_decimal};

verus! {

/// The most transactions of one sender that may be pending.
pub const MEMPOOL_SENDER_CAP: usize = 128;

/// The most transactions that may be pending.
pub const MEMPOOL_GLOBAL_CAP: usize = 100_000;

/// After how many nanoseconds a pending transaction expires: four minutes.
pub const MEMPOOL_TX_TTL_NS: u64 = 240_000_000_000;

/// How many pending transactions one round of gossip retries sends.
pub const GOSSIP_RETRY_MAX_TXS: usize = 1000;

/// What a transaction asks for.
#[derive(Clone, Copy, Debug, PartialEq, Eq, Structural)]
pub enum TransactionType {
    Standard,
    Deploy,
    StakeDeposit,
    StakeWithdraw,
    Slash,
    RegisterPubkey,
    /// Any other, by its number on the wire.
    Other(u8),
}

/// Who pays the fee.
#[derive(Clone, Copy, Debug, PartialEq, Eq)]
pub enum FeePayer {
    Sender,
    Paymaster(Key),
    GasTank(Key),
}

/// An account and the storage slots that a transaction touches there.
#[derive(Clone, Debug)]
pub struct AccessEntry {
    pub address: Key,
    pub reads: Vec<Key>,
    pub writes: Vec<Key>,
}

/// A plaintext transaction.
#[derive(Clone, Debug)]
pub struct Transaction {
    pub from: Key,
    pub to: Key,
    pub value: u128,
    pub data: Vec<u8>,
    pub gas_limit: u64,
    pub nonce: u64,
    pub signature: Vec<u8>,
    pub fee_payer: FeePayer,
    pub access_list: Vec<AccessEntry>,
    pub deadline: Option<u64>,
    pub chain_id: u64,
    pub tx_type: TransactionType,
}

impl View for Transaction {
    type V = Transaction;

    open spec fn view(&self) -> Transaction {
        *self
    }
}

/// What the pool holds: transactions, when each came in, and their encodings,
/// all by hash. An encoding or a time may be there without its transaction.
#[verifier::ext_equal]
pub struct PoolModel {
    pub txs: Map<Key, Transaction>,
    pub times: Map<Key, u64>,
    pub index: Map<Key, Seq<u8>>,
}

/// The pending transactions of a sender.
pub open spec fn sent_by(txs: Map<Key, Transaction>, from: Key) -> Set<Key> {
    Set::new(|k: Key| txs.contains_key(k) && txs[k].from == from)
}

/// Whether a transaction of this sender with this nonce is pending.
pub open spec fn has_nonce(txs: Map<Key, Transaction>, from: Key, nonce: u64) -> bool {
    exists|k: Key| #[trigger] txs.contains_key(k) && txs[k].from == from && txs[k].nonce == nonce
}

/// Whether `p` is the greatest pending nonce of a sender.
pub open spec fn is_greatest_nonce(txs: Map<Key, Transaction>, from: Key, p: u64) -> bool {
    &&& has_nonce(txs, from, p)
    &&& forall|k: Key| #[trigger]
        txs.contains_key(k) && txs[k].from == from ==> txs[k].nonce <= p
}

/// No two pending transactions share sender and nonce, and no more are pending
/// than may be.
pub open spec fn pool_invariant(txs: Map<Key, Transaction>) -> bool {
    &&& txs.dom().finite()
    &&& txs.len() <= MEMPOOL_GLOBAL_CAP
    &&& forall|a: Key, b: Key| #[trigger]
        txs.contains_key(a) && #[trigger] txs.contains_key(b) && txs[a].from == txs[b].from
            && txs[a].nonce == txs[b].nonce ==> a == b
}

/// The message of a full pool.
pub open spec fn full_text(pending: nat) -> Seq<char> {
    "mempool full: "@ + text::decimal(pending) + " txs pending (cap "@ + text::decimal(
        MEMPOOL_GLOBAL_CAP as nat,
    ) + ")"@
}

/// The message of a nonce that is pending already.
pub open spec fn duplicate_text(nonce: u64) -> Seq<char> {
    "duplicate (sender, nonce)="@ + text::decimal(nonce as nat)
        + " in mempool; cancel or wait for the existing tx to commit/expire"@
}

/// The message of a sender with too many pending transactions.
pub open spec fn sender_cap_text(count: nat) -> Seq<char> {
    "mempool sender cap reached: "@ + text::decimal(count)
        + " pending txs from this sender (max "@ + text::decimal(MEMPOOL_SENDER_CAP as nat) + ")"@
}

/// Why a submitted transaction is not admitted, if it is not.
pub open spec fn refusal(txs: Map<Key, Transaction>, from: Key, nonce: u64) -> Option<RpcFault> {
    if txs.len() >= MEMPOOL_GLOBAL_CAP {
        Some((-32011i32, full_text(txs.len())))
    } else if has_nonce(txs, from, nonce) {
        Some((-32010i32, duplicate_text(nonce)))
    } else if sent_by(txs, from).len() >= MEMPOOL_SENDER_CAP {
        Some((-32009i32, sender_cap_text(sent_by(txs, from).len())))
    } else {
        None
    }
}

/// What becomes of a gossiped transaction.
#[derive(Clone, Copy, Debug, PartialEq, Eq, Structural)]
pub enum GossipVerdict {
    Full,
    Duplicate,
    Accepted,
}

/// What becomes of a gossiped transaction.
pub open spec fn gossip_verdict(txs: Map<Key, Transaction>, from: Key, nonce: u64) -> GossipVerdict {
    if txs.len() >= MEMPOOL_GLOBAL_CAP {
        GossipVerdict::Full
    } else if has_nonce(txs, from, nonce) {
        GossipVerdict::Duplicate
    } else {
        GossipVerdict::Accepted
    }
}

/// How long ago `t` was at `now`, zero where it is later.
pub open spec fn age(now: u64, t: u64) -> int {
    if now >= t {
        now - t
    } else {
        0
    }
}

/// The hashes whose time is longer ago than a transaction may be pending.
pub open spec fn expired(times: Map<Key, u64>, now: u64) -> Set<Key> {
    Set::new(|k: Key| times.contains_key(k) && age(now, times[k]) > MEMPOOL_TX_TTL_NS)
}

/// The nonce that a transaction without one gets: the one behind the greatest
/// pending nonce of the sender, but at least the sender's next on chain.
pub open spec fn automatic_nonce(greatest: Option<u64>, on_chain: u64) -> u64 {
    match greatest {
        Some(p) => {
            let next = if p == u64::MAX {
                u64::MAX
            } else {
                (p + 1) as u64
            };
            if next >= on_chain {
                next
            } else {
                on_chain
            }
        },
        None => on_chain,
    }
}

/// The pool of pending transactions.
pub struct PendingPool {
    txs: KeyMap<Transaction>,
    times: KeyMap<u64>,
    index: KeyMap<Vec<u8>>,
}

impl View for PendingPool {
    type V = PoolModel;

    closed spec fn view(&self) -> PoolModel {
        PoolModel { txs: self.txs@, times: self.times@, index: self.index@ }
    }
}

proof fn lemma_insert_keeps_invariant(txs: Map<Key, Transaction>, hash: Key, tx: Transaction)
    requires
        pool_invariant(txs),
        txs.len() < MEMPOOL_GLOBAL_CAP,
        !has_nonce(txs, tx.from, tx.nonce),
    ensures
        pool_invariant(txs.insert(hash, tx)),
{
    let t2 = txs.insert(hash, tx);
    assert(t2.dom() =~= txs.dom().insert(hash));
    assert forall|a: Key, b: Key| #[trigger]
        t2.contains_key(a) && #[trigger] t2.contains_key(b) && t2[a].from == t2[b].from
            && t2[a].nonce == t2[b].nonce implies a == b by {
        if a != hash {
            assert(txs.contains_key(a));
        }
        if b != hash {
            assert(txs.contains_key(b));
        }
    }
}

proof fn lemma_remove_keeps_invariant(txs: Map<Key, Transaction>, hash: Key)
    requires
        pool_invariant(txs),
    ensures
        pool_invariant(txs.remove(hash)),
{
    let t2 = txs.remove(hash);
    assert(t2.dom() =~= txs.dom().remove(hash));
    assert forall|a: Key, b: Key| #[trigger]
        t2.contains_key(a) && #[trigger] t2.contains_key(b) && t2[a].from == t2[b].from
            && t2[a].nonce == t2[b].nonce implies a == b by {
        assert(txs.contains_key(a) && txs.contains_key(b));
    }
}

impl PendingPool {
    /// The pool's invariant.
    pub closed spec fn wf(&self) -> bool {
        &&& self.txs.wf()
        &&& self.times.wf()
        &&& self.index.wf()
        &&& pool_invariant(self.txs@)
    }

    /// What every pool keeps.
    pub proof fn lemma_invariant(&self)
        requires
            self.wf(),
        ensures
            pool_invariant(self@.txs),
    {
    }

    /// An empty pool.
    pub fn new() -> (p: Self)
        ensures
            p.wf(),
            p@ == (PoolModel { txs: Map::empty(), times: Map::empty(), index: Map::empty() }),
    {
        PendingPool { txs: KeyMap::new(), times: KeyMap::new(), index: KeyMap::new() }
    }

    /// How many transactions are pending.
    pub fn len(&self) -> (n: usize)
        requires
            self.wf(),
        ensures
            n == self@.txs.len(),
    {
        self.txs.len()
    }

    /// The pending transaction of a hash.
    pub fn get(&self, tx_hash: &Key) -> (r: Option<&Transaction>)
        requires
            self.wf(),
        ensures
            match r {
                Some(t) => self@.txs.contains_key(*tx_hash) && *t == self@.txs[*tx_hash],
                None => !self@.txs.contains_key(*tx_hash),
            },
    {
        self.txs.get(tx_hash)
    }

    /// For how many whole seconds a hash has been pending, zero where its time
    /// is not known.
    pub fn age_secs(&self, tx_hash: &Key, now: u64) -> (n: u64)
        requires
            self.wf(),
        ensures
            n == if self@.times.contains_key(*tx_hash) {
                age(now, self@.times[*tx_hash]) / 1_000_000_000
            } else {
                0
            },
    {
        match self.times.get(tx_hash) {
            Some(t) => now.saturating_sub(*t) / 1_000_000_000,
            None => 0,
        }
    }

    /// The encoding of a transaction, where it is indexed.
    pub fn encoded(&self, tx_hash: &Key) -> (r: Option<&Vec<u8>>)
        requires
            self.wf(),
        ensures
            match r {
                Some(b) => self@.index.contains_key(*tx_hash) && b@ == self@.index[*tx_hash],
                None => !self@.index.contains_key(*tx_hash),
            },
    {
        self.index.get(tx_hash)
    }

    fn count(&self, from: &Key, nonce: u64) -> (r: (usize, bool))
        requires
            self.wf(),
        ensures
            r.1 == has_nonce(self@.txs, *from, nonce),
            !r.1 ==> r.0 == sent_by(self@.txs, *from).len(),
    {
        let n: usize = self.txs.len();
        let ghost txs = self.txs@;
        let ghost ks = self.txs.keys();
        proof {
            self.txs.lemma_keys();
        }
        let mut i: usize = 0;
        let mut count: usize = 0;
        let ghost mut seen: Set<Key> = Set::empty();
        while i < n
            invariant
                self.wf(),
                txs == self.txs@,
                ks == self.txs.keys(),
                ks.no_duplicates(),
                n == ks.len(),
                i <= n,
                count <= i,
                seen.finite(),
                count == seen.len(),
                forall|k: Key|
                    #![trigger seen.contains(k)]
                    seen.contains(k) <==> exists|j: int|
                        0 <= j < i && #[trigger] ks[j] == k && txs[k].from == *from,
                forall|j: int|
                    0 <= j < i ==> !(txs[#[trigger] ks[j]].from == *from && txs[ks[j]].nonce
                        == nonce),
            decreases n - i,
        {
            let e = self.txs.entry_at(i);
            assert(txs[ks[i as int]] == *e.1);
            if key_eq(&e.1.from, from) {
                if e.1.nonce == nonce {
                    assert(txs.contains_key(ks[i as int]));
                    return (count, true);
                }
                count = count + 1;
                proof {
                    let k = ks[i as int];
                    assert(!seen.contains(k)) by {
                        if seen.contains(k) {
                            let j = choose|j: int|
                                0 <= j < i && #[trigger] ks[j] == k && txs[k].from == *from;
                            assert(ks[j] == ks[i as int]);
                        }
                    }
                    let s0 = seen;
                    seen = seen.insert(k);
                    assert forall|x: Key|
                        #![trigger seen.contains(x)]
                        seen.contains(x) <==> exists|j: int|
                            0 <= j < i + 1 && #[trigger] ks[j] == x && txs[x].from == *from by {
                        if seen.contains(x) {
                            if x == k {
                                assert(ks[i as int] == x);
                            } else {
                                assert(s0.contains(x));
                            }
                        }
                        if exists|j: int|
                            0 <= j < i + 1 && #[trigger] ks[j] == x && txs[x].from == *from {
                            let j = choose|j: int|
                                0 <= j < i + 1 && #[trigger] ks[j] == x && txs[x].from == *from;
                            if j < i {
                                assert(s0.contains(x));
                            }
                        }
                    }
                }
            }
            i = i + 1;
        }
        proof {
            self.txs.lemma_keys();
            assert(!has_nonce(txs, *from, nonce)) by {
                if has_nonce(txs, *from, nonce) {
                    let k = choose|k: Key| #[trigger]
                        txs.contains_key(k) && txs[k].from == *from && txs[k].nonce == nonce;
                    let j = choose|j: int| 0 <= j < ks.len() && #[trigger] ks[j] == k;
                    assert(ks[j] == k);
                }
            }
            assert(seen =~= sent_by(txs, *from)) by {
                assert forall|k: Key| seen.contains(k) == sent_by(txs, *from).contains(k) by {
                    if sent_by(txs, *from).contains(k) {
                        assert(txs.contains_key(k));
                        let j = choose|j: int| 0 <= j < ks.len() && #[trigger] ks[j] == k;
                        assert(ks[j] == k);
                    }
                    if seen.contains(k) {
                        let j = choose|j: int|
                            0 <= j < i && #[trigger] ks[j] == k && txs[k].from == *from;
                        assert(txs.contains_key(ks[j]));
                    }
                }
            }
        }
        (count, false)
    }

    /// Why a submitted transaction would not be admitted, if it would not.
    pub fn check(&self, from: &Key, nonce: u64) -> (r: Option<RpcError>)
        requires
            self.wf(),
        ensures
            match r {
                Some(e) => refusal(self@.txs, *from, nonce) == Some(e@),
                None => refusal(self@.txs, *from, nonce) is None,
            },
    {
        let n: usize = self.txs.len();
        if n >= MEMPOOL_GLOBAL_CAP {
            let mut m = "mempool full: ".to_owned();
            push_decimal(&mut m, n as u128);
            m.append(" txs pending (cap ");
            push_decimal(&mut m, MEMPOOL_GLOBAL_CAP as u128);
            m.append(")");
            return Some(RpcError { code: -32011, message: m });
        }
        let c = self.count(from, nonce);
        if c.1 {
            let mut m = "duplicate (sender, nonce)=".to_owned();
            push_decimal(&mut m, nonce as u128);
            m.append(" in mempool; cancel or wait for the existing tx to commit/expire");
            return Some(RpcError { code: -32010, message: m });
        }
        if c.0 >= MEMPOOL_SENDER_CAP {
            let mut m = "mempool sender cap reached: ".to_owned();
            push_decimal(&mut m, c.0 as u128);
            m.append(" pending txs from this sender (max ");
            push_decimal(&mut m, MEMPOOL_SENDER_CAP as u128);
            m.append(")");
            return Some(RpcError { code: -32009, message: m });
        }
        None
    }

    /// Takes a submitted transaction in, and says how many are then pending.
    pub fn submit(&mut self, tx_hash: Key, tx: Transaction, now: u64) -> (r: Result<usize, RpcError>)
        requires
            old(self).wf(),
        ensures
            final(self).wf(),
            match refusal(old(self)@.txs, tx.from, tx.nonce) {
                Some(f) => r is Err && r->Err_0@ == f && final(self)@ == old(self)@,
                None => final(self)@ == (PoolModel {
                    txs: old(self)@.txs.insert(tx_hash, tx),
                    times: old(self)@.times.insert(tx_hash, now),
                    ..old(self)@
                }) && r is Ok && r->Ok_0 == final(self)@.txs.len(),
            },
    {
        if let Some(e) = self.check(&tx.from, tx.nonce) {
            return Err(e);
        }
        proof {
            lemma_insert_keeps_invariant(self.txs@, tx_hash, tx);
        }
        self.txs.insert(tx_hash, tx);
        self.times.insert(tx_hash, now);
        Ok(self.txs.len())
    }

    /// Takes a gossiped transaction in, with its encoding, unless the pool is
    /// full or the sender's nonce is pending already.
    pub fn accept_gossip(&mut self, tx_hash: Key, tx: Transaction, encoded: Vec<u8>, now: u64) -> (r:
        GossipVerdict)
        requires
            old(self).wf(),
        ensures
            final(self).wf(),
            r == gossip_verdict(old(self)@.txs, tx.from, tx.nonce),
            r != GossipVerdict::Accepted ==> final(self)@ == old(self)@,
            r == GossipVerdict::Accepted ==> final(self)@ == (PoolModel {
                txs: old(self)@.txs.insert(tx_hash, tx),
                times: old(self)@.times.insert(tx_hash, now),
                index: old(self)@.index.insert(tx_hash, encoded@),
            }),
    {
        if self.txs.len() >= MEMPOOL_GLOBAL_CAP {
            return GossipVerdict::Full;
        }
        if self.count(&tx.from, tx.nonce).1 {
            return GossipVerdict::Duplicate;
        }
        proof {
            lemma_insert_keeps_invariant(self.txs@, tx_hash, tx);
        }
        self.index.insert(tx_hash, encoded);
        self.txs.insert(tx_hash, tx);
        self.times.insert(tx_hash, now);
        GossipVerdict::Accepted
    }

    /// Indexes the encoding of a transaction.
    pub fn index_encoded(&mut self, tx_hash: Key, encoded: Vec<u8>)
        requires
            old(self).wf(),
        ensures
            final(self).wf(),
            final(self)@ == (PoolModel {
                index: old(self)@.index.insert(tx_hash, encoded@),
                ..old(self)@
            }),
    {
        self.index.insert(tx_hash, encoded);
    }

    /// The nonce of a transaction that names none, and the named one otherwise.
    pub fn next_nonce(&self, from: &Key, explicit: Option<u64>, on_chain: u64) -> (r: u64)
        requires
            self.wf(),
        ensures
            match explicit {
                Some(n) => r == n,
                None => {
                    &&& sent_by(self@.txs, *from) == Set::<Key>::empty() ==> r == automatic_nonce(
                        None,
                        on_chain,
                    )
                    &&& sent_by(self@.txs, *from) != Set::<Key>::empty() ==> exists|p: u64| #[trigger]
                        is_greatest_nonce(self@.txs, *from, p) && r == automatic_nonce(
                            Some(p),
                            on_chain,
                        )
                },
            },
    {
        if let Some(n) = explicit {
            return n;
        }
        let n: usize = self.txs.len();
        let ghost txs = self.txs@;
        let ghost ks = self.txs.keys();
        proof {
            self.txs.lemma_keys();
        }
        let mut best: Option<u64> = None;
        let mut i: usize = 0;
        while i < n
            invariant
                self.wf(),
                txs == self.txs@,
                ks == self.txs.keys(),
                n == ks.len(),
                i <= n,
                match best {
                    Some(p) => has_nonce(txs, *from, p) && forall|j: int|
                        0 <= j < i && txs[#[trigger] ks[j]].from == *from ==> txs[ks[j]].nonce
                            <= p,
                    None => forall|j: int|
                        0 <= j < i ==> txs[#[trigger] ks[j]].from != *from,
                },
            decreases n - i,
        {
            let e = self.txs.entry_at(i);
            assert(txs[ks[i as int]] == *e.1);
            assert(txs.contains_key(ks[i as int]));
            if key_eq(&e.1.from, from) {
                best = match best {
                    Some(p) => if e.1.nonce > p {
                        Some(e.1.nonce)
                    } else {
                        Some(p)
                    },
                    None => Some(e.1.nonce),
                };
            }
            i = i + 1;
        }
        proof {
            self.txs.lemma_keys();
            match best {
                Some(p) => {
                    assert(is_greatest_nonce(txs, *from, p)) by {
                        assert forall|k: Key| #[trigger]
                            txs.contains_key(k) && txs[k].from == *from implies txs[k].nonce
                            <= p by {
                            let j = choose|j: int| 0 <= j < ks.len() && #[trigger] ks[j] == k;
                            assert(ks[j] == k);
                        }
                    }
                    let k = choose|k: Key| #[trigger]
                        txs.contains_key(k) && txs[k].from == *from && txs[k].nonce == p;
                    assert(sent_by(txs, *from).contains(k));
                },
                None => {
                    assert(sent_by(txs, *from) =~= Set::<Key>::empty()) by {
                        assert forall|k: Key| !sent_by(txs, *from).contains(k) by {
                            if sent_by(txs, *from).contains(k) {
                                assert(txs.contains_key(k));
                                let j = choose|j: int| 0 <= j < ks.len() && #[trigger] ks[j] == k;
                                assert(ks[j] == k);
                            }
                        }
                    }
                },
            }
        }
        match best {
            Some(p) => {
                let next: u64 = p.saturating_add(1);
                if next >= on_chain {
                    next
                } else {
                    on_chain
                }
            },
            None => on_chain,
        }
    }

    fn drop_one(&mut self, hash: &Key, indexed: bool)
        requires
            old(self).wf(),
        ensures
            final(self).wf(),
            final(self)@ == (PoolModel {
                txs: old(self)@.txs.remove(*hash),
                times: old(self)@.times.remove(*hash),
                index: if indexed {
                    old(self)@.index.remove(*hash)
                } else {
                    old(self)@.index
                },
            }),
    {
        proof {
            lemma_remove_keeps_invariant(self.txs@, *hash);
        }
        self.txs.remove(hash);
        self.times.remove(hash);
        if indexed {
            self.index.remove(hash);
        }
    }

    fn drop_all(&mut self, hashes: &Vec<Key>, indexed: bool)
        requires
            old(self).wf(),
        ensures
            final(self).wf(),
            final(self)@ == (PoolModel {
                txs: old(self)@.txs.remove_keys(hashes@.to_set()),
                times: old(self)@.times.remove_keys(hashes@.to_set()),
                index: if indexed {
                    old(self)@.index.remove_keys(hashes@.to_set())
                } else {
                    old(self)@.index
                },
            }),
    {
        let ghost m0 = self@;
        let mut i: usize = 0;
        proof {
            let s = hashes@.take(0).to_set();
            assert(m0.txs.remove_keys(s) =~= m0.txs);
            assert(m0.times.remove_keys(s) =~= m0.times);
            assert(m0.index.remove_keys(s) =~= m0.index);
        }
        while i < hashes.len()
            invariant
                self.wf(),
                i <= hashes@.len(),
                self@ == (PoolModel {
                    txs: m0.txs.remove_keys(hashes@.take(i as int).to_set()),
                    times: m0.times.remove_keys(hashes@.take(i as int).to_set()),
                    index: if indexed {
                        m0.index.remove_keys(hashes@.take(i as int).to_set())
                    } else {
                        m0.index
                    },
                }),
            decreases hashes@.len() - i,
        {
            self.drop_one(&hashes[i], indexed);
            i = i + 1;
            proof {
                let t0 = hashes@.take(i - 1);
                let t1 = hashes@.take(i as int);
                assert(t1 =~= t0.push(hashes@[i - 1]));
                assert forall|k: Key| t1.contains(k) == (t0.contains(k) || k == hashes@[i - 1]) by {
                    if t0.contains(k) {
                        let j = choose|j: int| 0 <= j < t0.len() && t0[j] == k;
                        assert(t1[j] == k);
                    }
                    assert(t1[i - 1] == hashes@[i - 1]);
                }
                let s = t1.to_set();
                assert(self@.txs =~= m0.txs.remove_keys(s));
                assert(self@.times =~= m0.times.remove_keys(s));
                if indexed {
                    assert(self@.index =~= m0.index.remove_keys(s));
                }
            }
        }
        assert(hashes@.take(i as int) =~= hashes@);
    }

    /// Drops the transactions of a committed block, with their encodings.
    pub fn remove_committed(&mut self, hashes: &Vec<Key>)
        requires
            old(self).wf(),
        ensures
            final(self).wf(),
            final(self)@ == (PoolModel {
                txs: old(self)@.txs.remove_keys(hashes@.to_set()),
                times: old(self)@.times.remove_keys(hashes@.to_set()),
                index: old(self)@.index.remove_keys(hashes@.to_set()),
            }),
    {
        self.drop_all(hashes, true);
    }

    /// Drops the transactions of a processed block; their encodings stay, so
    /// that blocks that refer to them can still be put together.
    pub fn remove_processed(&mut self, hashes: &Vec<Key>)
        requires
            old(self).wf(),
        ensures
            final(self).wf(),
            final(self)@ == (PoolModel {
                txs: old(self)@.txs.remove_keys(hashes@.to_set()),
                times: old(self)@.times.remove_keys(hashes@.to_set()),
                index: old(self)@.index,
            }),
    {
        self.drop_all(hashes, false);
    }

    /// Drops everything that has been pending for too long, and says how much.
    pub fn sweep(&mut self, now: u64) -> (n: usize)
        requires
            old(self).wf(),
        ensures
            final(self).wf(),
            n == expired(old(self)@.times, now).len(),
            final(self)@ == (PoolModel {
                txs: old(self)@.txs.remove_keys(expired(old(self)@.times, now)),
                times: old(self)@.times.remove_keys(expired(old(self)@.times, now)),
                index: old(self)@.index.remove_keys(expired(old(self)@.times, now)),
            }),
    {
        let n: usize = self.times.len();
        let ghost times = self.times@;
        let ghost ks = self.times.keys();
        proof {
            self.times.lemma_keys();
        }
        let mut stale: Vec<Key> = Vec::new();
        let mut i: usize = 0;
        while i < n
            invariant
                self.wf(),
                self@ == old(self)@,
                times == self.times@,
                ks == self.times.keys(),
                ks.no_duplicates(),
                n == ks.len(),
                i <= n,
                stale@.no_duplicates(),
                forall|k: Key|
                    #![trigger stale@.contains(k)]
                    stale@.contains(k) <==> exists|j: int|
                        0 <= j < i && #[trigger] ks[j] == k && age(now, times[k])
                            > MEMPOOL_TX_TTL_NS,
            decreases n - i,
        {
            let e = self.times.entry_at(i);
            assert(times[ks[i as int]] == *e.1);
            let ghost s0 = stale@;
            if now.saturating_sub(*e.1) > MEMPOOL_TX_TTL_NS {
                stale.push(*e.0);
                proof {
                    let k = ks[i as int];
                    assert(!s0.contains(k)) by {
                        if s0.contains(k) {
                            let j = choose|j: int|
                                0 <= j < i && #[trigger] ks[j] == k && age(now, times[k])
                                    > MEMPOOL_TX_TTL_NS;
                            assert(ks[j] == ks[i as int]);
                        }
                    }
                    assert(stale@ =~= s0.push(k));
                    assert forall|x: Key|
                        #![trigger stale@.contains(x)]
                        stale@.contains(x) <==> (s0.contains(x) || x == k) by {
                        if s0.contains(x) {
                            let j = choose|j: int| 0 <= j < s0.len() && s0[j] == x;
                            assert(stale@[j] == x);
                        }
                        assert(stale@[s0.len() as int] == k);
                    }
                    assert forall|a: int, b: int|
                        0 <= a < stale@.len() && 0 <= b < stale@.len() && a != b implies stale@[a]
                        != stale@[b] by {
                        if a == s0.len() {
                            assert(s0.contains(s0[b]));
                        } else if b == s0.len() {
                            assert(s0.contains(s0[a]));
                        } else {
                            assert(s0[a] != s0[b]);
                        }
                    }
                }
            }
            i = i + 1;
            proof {
                let k = ks[i - 1];
                assert forall|x: Key|
                    #![trigger stale@.contains(x)]
                    stale@.contains(x) <==> exists|j: int|
                        0 <= j < i && #[trigger] ks[j] == x && age(now, times[x])
                            > MEMPOOL_TX_TTL_NS by {
                    if stale@.contains(x) {
                        if s0.contains(x) {
                            let j = choose|j: int|
                                0 <= j < i - 1 && #[trigger] ks[j] == x && age(now, times[x])
                                    > MEMPOOL_TX_TTL_NS;
                            assert(ks[j] == x);
                        } else {
                            assert(ks[i - 1] == x);
                        }
                    }
                    if exists|j: int|
                        0 <= j < i && #[trigger] ks[j] == x && age(now, times[x])
                            > MEMPOOL_TX_TTL_NS {
                        let j = choose|j: int|
                            0 <= j < i && #[trigger] ks[j] == x && age(now, times[x])
                                > MEMPOOL_TX_TTL_NS;
                        if j < i - 1 {
                            assert(s0.contains(x));
                        }
                    }
                }
            }
        }
        proof {
            self.times.lemma_keys();
            assert forall|k: Key| stale@.to_set().contains(k) == expired(times, now).contains(k) by {
                if expired(times, now).contains(k) {
                    let j = choose|j: int| 0 <= j < ks.len() && #[trigger] ks[j] == k;
                    assert(ks[j] == k);
                    assert(stale@.contains(k));
                }
                if stale@.contains(k) {
                    let j = choose|j: int|
                        0 <= j < i && #[trigger] ks[j] == k && age(now, times[k])
                            > MEMPOOL_TX_TTL_NS;
                    assert(times.contains_key(ks[j]));
                }
            }
            assert(stale@.to_set() =~= expired(times, now));
            stale@.unique_seq_to_set();
        }
        self.drop_all(&stale, true);
        stale.len()
    }

    /// The encoded transactions, each with its hash: what compact blocks are put
    /// together from.
    pub fn index_entries(&self) -> (r: Vec<(Key, Vec<u8>)>)
        requires
            self.wf(),
        ensures
            forall|i: int|
                0 <= i < r@.len() ==> self@.index.contains_key((#[trigger] r@[i]).0)
                    && self@.index[r@[i].0] == r@[i].1@,
            forall|k: Key| #[trigger]
                self@.index.contains_key(k) ==> exists|i: int|
                    0 <= i < r@.len() && (#[trigger] r@[i]).0 == k,
            r@.len() == self@.index.len(),
    {
        let n: usize = self.index.len();
        let ghost ks = self.index.keys();
        proof {
            self.index.lemma_keys();
        }
        let mut out: Vec<(Key, Vec<u8>)> = Vec::new();
        let mut i: usize = 0;
        while i < n
            invariant
                self.wf(),
                ks == self.index.keys(),
                n == ks.len(),
                i <= n,
                out@.len() == i,
                forall|j: int|
                    0 <= j < i ==> (#[trigger] out@[j]).0 == ks[j] && self@.index.contains_key(
                        ks[j],
                    ) && self@.index[ks[j]] == out@[j].1@,
            decreases n - i,
        {
            let e = self.index.entry_at(i);
            out.push((*e.0, copy_bytes(e.1)));
            i = i + 1;
        }
        assert forall|k: Key| #[trigger] self@.index.contains_key(k) implies exists|i: int|
            0 <= i < out@.len() && (#[trigger] out@[i]).0 == k by {
            let j = choose|j: int| 0 <= j < ks.len() && #[trigger] ks[j] == k;
            assert(out@[j].0 == k);
        }
        out
    }

    /// The pending transactions, each with its hash: what a proposal is chosen from.
    pub fn pending_transactions(&self) -> (r: Vec<(Key, &Transaction)>)
        requires
            self.wf(),
        ensures
            r@.len() == self@.txs.len(),
            forall|i: int|
                0 <= i < r@.len() ==> self@.txs.contains_key((#[trigger] r@[i]).0)
                    && self@.txs[r@[i].0] == *r@[i].1,
            forall|i: int, j: int|
                0 <= i < j < r@.len() ==> (#[trigger] r@[i]).0 != (#[trigger] r@[j]).0,
            forall|k: Key| #[trigger]
                self@.txs.contains_key(k) ==> exists|i: int|
                    0 <= i < r@.len() && (#[trigger] r@[i]).0 == k,
    {
        let n: usize = self.txs.len();
        let ghost ks = self.txs.keys();
        proof {
            self.txs.lemma_keys();
        }
        let mut out: Vec<(Key, &Transaction)> = Vec::new();
        let mut i: usize = 0;
        while i < n
            invariant
                self.wf(),
                ks == self.txs.keys(),
                n == ks.len(),
                i <= n,
                out@.len() == i,
                forall|j: int|
                    0 <= j < i ==> (#[trigger] out@[j]).0 == ks[j] && self@.txs.contains_key(ks[j])
                        && self@.txs[ks[j]] == *out@[j].1,
            decreases n - i,
        {
            let e = self.txs.entry_at(i);
            out.push((*e.0, e.1));
            i = i + 1;
        }
        assert forall|k: Key| #[trigger] self@.txs.contains_key(k) implies exists|i: int|
            0 <= i < out@.len() && (#[trigger] out@[i]).0 == k by {
            let j = choose|j: int| 0 <= j < ks.len() && #[trigger] ks[j] == k;
            assert(out@[j].0 == k);
        }
        out
    }

    /// The pending transactions that a round of gossip retries sends.
    pub fn gossip_retry(&self) -> (r: Vec<Key>)
        requires
            self.wf(),
        ensures
            r@.no_duplicates(),
            forall|i: int| 0 <= i < r@.len() ==> self@.txs.contains_key(#[trigger] r@[i]),
            r@.len() == if self@.txs.len() <= GOSSIP_RETRY_MAX_TXS {
                self@.txs.len() as int
            } else {
                GOSSIP_RETRY_MAX_TXS as int
            },
    {
        let n: usize = self.txs.len();
        let m: usize = if n <= GOSSIP_RETRY_MAX_TXS {
            n
        } else {
            GOSSIP_RETRY_MAX_TXS
        };
        let ghost ks = self.txs.keys();
        proof {
            self.txs.lemma_keys();
        }
        let mut out: Vec<Key> = Vec::new();
        let mut i: usize = 0;
        while i < m
            invariant
                self.wf(),
                ks == self.txs.keys(),
                m <= ks.len(),
                i <= m,
                out@ == ks.take(i as int),
            decreases m - i,
        {
            let e = self.txs.entry_at(i);
            out.push(*e.0);
            i = i + 1;
            assert(out@ =~= ks.take(i as int));
        }
        out
    }
}

/// Every way into the pool and out of it keeps that no two pending transactions
/// share sender and nonce and that the pool stays within its bound.
pub proof fn law_pool_invariant_is_kept(
    txs: Map<Key, Transaction>,
    hash: Key,
    tx: Transaction,
    gone: Set<Key>,
)
    requires
        pool_invariant(txs),
    ensures
        refusal(txs, tx.from, tx.nonce) is None ==> pool_invariant(txs.insert(hash, tx)),
        gossip_verdict(txs, tx.from, tx.nonce) == GossipVerdict::Accepted ==> pool_invariant(
            txs.insert(hash, tx),
        ),
        pool_invariant(txs.remove_keys(gone)),
{
    if txs.len() < MEMPOOL_GLOBAL_CAP && !has_nonce(txs, tx.from, tx.nonce) {
        lemma_insert_keeps_invariant(txs, hash, tx);
    }
    let t2 = txs.remove_keys(gone);
    assert(t2.dom() =~= txs.dom().difference(gone));
    vstd::set_lib::lemma_len_subset(t2.dom(), txs.dom());
    assert forall|a: Key, b: Key| #[trigger]
        t2.contains_key(a) && #[trigger] t2.contains_key(b) && t2[a].from == t2[b].from
            && t2[a].nonce == t2[b].nonce implies a == b by {
        assert(txs.contains_key(a) && txs.contains_key(b));
    }
}

/// A submitted transaction never takes its sender beyond the sender's bound.
pub proof fn law_sender_cap_is_kept(
    txs: Map<Key, Transaction>,
    hash: Key,
    tx: Transaction,
    from: Key,
)
    requires
        pool_invariant(txs),
        sent_by(txs, from).len() <= MEMPOOL_SENDER_CAP,
        refusal(txs, tx.from, tx.nonce) is None,
    ensures
        sent_by(txs.insert(hash, tx), from).len() <= MEMPOOL_SENDER_CAP,
{
    let a = sent_by(txs, from);
    let b = sent_by(txs.insert(hash, tx), from);
    assert(a.subset_of(txs.dom()));
    vstd::set_lib::lemma_len_subset(a, txs.dom());
    if tx.from == from {
        assert(b.subset_of(a.insert(hash)));
        vstd::set_lib::lemma_len_subset(b, a.insert(hash));
    } else {
        assert(b.subset_of(a));
        vstd::set_lib::lemma_len_subset(b, a);
    }
}

/// A nonce that the pool picks is never pending already for its sender, as long
/// as there is one left.
pub proof fn law_automatic_nonce_is_free(
    txs: Map<Key, Transaction>,
    from: Key,
    p: u64,
    on_chain: u64,
)
    requires
        is_greatest_nonce(txs, from, p),
        p < u64::MAX,
    ensures
        !has_nonce(txs, from, automatic_nonce(Some(p), on_chain)),
        automatic_nonce(Some(p), on_chain) >= on_chain,
{
}

} // verus!
