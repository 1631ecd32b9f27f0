//! What the node's stores do with what they are handed: the pool, the buffers, the
//! buckets of the rate limit, and the receipts.
use vstd::prelude::*;

use crate::buffers;
use crate::buffers::{BlockBuffers, ShareMsg};
use crate::hexcodec::RpcError;
use crate::keymap::{BlockId, Key};
use crate::mempool;
use crate::mempool::{GossipVerdict, PendingPool, PoolModel, Transaction};
use crate::rate_limit;
use crate::rate_limit::RpcRateLimitState;
use crate::receipt_store;
use crate::receipt_store::{LogEntry, Receipt, ReceiptModel, ReceiptStore};

verus! {

/// Whether a transaction of this sender with this nonce is among these.
pub open spec fn pending(txs: Map<Key, Transaction>, from: Key, nonce: u64) -> bool {
    exists|k: Key| #[trigger] txs.contains_key(k) && txs[k].from == from && txs[k].nonce == nonce
}

/// The hashes of a sender's transactions among these.
pub open spec fn owned(txs: Map<Key, Transaction>, from: Key) -> Set<Key> {
    Set::new(|k: Key| txs.contains_key(k) && txs[k].from == from)
}

/// A transaction is let in exactly where fewer than 100000 are pending, none of its
/// sender's with its nonce, and fewer than 128 of its sender's. What is first in its
/// way, in this order, has its own code.
pub proof fn law_the_pool_lets_in_what_fits(
    pool: &PendingPool,
    from: &Key,
    nonce: u64,
    r: Option<RpcError>,
)
    requires
        pool.wf(),
        call_ensures(PendingPool::check, (pool, from, nonce), r),
    ensures
        ({
            let txs = pool@.txs;
            let full = txs.len() >= 100_000;
            let taken = pending(txs, *from, nonce);
            let many = owned(txs, *from).len() >= 128;
            &&& r is None <==> !full && !taken && !many
            &&& full ==> (r->0@).0 == -32011
            &&& !full && taken ==> (r->0@).0 == -32010
            &&& !full && !taken && many ==> (r->0@).0 == -32009
        }),
{
    assert(owned(pool@.txs, *from) =~= mempool::sent_by(pool@.txs, *from));
}

/// A submitted transaction is either refused with the pool as it was, or pending
/// under its hash since now, with every other one as it was.
pub proof fn law_submissions_are_pending(tx_hash: Key, tx: Transaction, now: u64)
    ensures
        forall|p: &mut PendingPool, r: Result<usize, RpcError>| #[trigger]
            call_ensures(PendingPool::submit, (p, tx_hash, tx, now), r) ==> {
                let (b, a) = ((*p)@, (*final(p))@);
                &&& r is Ok <==> b.txs.len() < 100_000 && !pending(b.txs, tx.from, tx.nonce)
                    && owned(b.txs, tx.from).len() < 128
                &&& r is Err ==> a == b
                &&& r is Ok ==> taken_in(b, a, tx_hash, tx, now) && a.index == b.index
                &&& r is Ok ==> r->Ok_0 == a.txs.len()
            },
{
    assert forall|p: &mut PendingPool, r: Result<usize, RpcError>| #[trigger]
        call_ensures(PendingPool::submit, (p, tx_hash, tx, now), r) implies r is Ok <==> (
    *p)@.txs.len() < 100_000 && !pending((*p)@.txs, tx.from, tx.nonce) && owned(
        (*p)@.txs,
        tx.from,
    ).len() < 128 by {
        assert(owned((*p)@.txs, tx.from) =~= mempool::sent_by((*p)@.txs, tx.from));
    }
}

/// Whether `a` holds what `b` held and a transaction under its hash since `now`.
pub open spec fn taken_in(
    b: PoolModel,
    a: PoolModel,
    tx_hash: Key,
    tx: Transaction,
    now: u64,
) -> bool {
    &&& a.txs.contains_key(tx_hash) && a.txs[tx_hash] == tx
    &&& a.times.contains_key(tx_hash) && a.times[tx_hash] == now
    &&& forall|k: Key|
        k != tx_hash ==> ((#[trigger] a.txs.contains_key(k)) <==> b.txs.contains_key(k))
            && a.txs[k] == b.txs[k]
    &&& forall|k: Key|
        k != tx_hash ==> ((#[trigger] a.times.contains_key(k)) <==> b.times.contains_key(k))
            && a.times[k] == b.times[k]
}

/// A gossiped transaction is taken in, with its encoding, exactly where fewer than
/// 100000 are pending and none of its sender's with its nonce; else the pool stays.
pub proof fn law_gossip_is_taken_in_once(
    tx_hash: Key,
    tx: Transaction,
    encoded: Vec<u8>,
    now: u64,
)
    ensures
        forall|p: &mut PendingPool, r: GossipVerdict| #[trigger]
            call_ensures(PendingPool::accept_gossip, (p, tx_hash, tx, encoded, now), r) ==> {
                let (b, a) = ((*p)@, (*final(p))@);
                &&& r is Full <==> b.txs.len() >= 100_000
                &&& r is Duplicate <==> b.txs.len() < 100_000 && pending(b.txs, tx.from, tx.nonce)
                &&& r is Accepted <==> b.txs.len() < 100_000 && !pending(b.txs, tx.from, tx.nonce)
                &&& !(r is Accepted) ==> a == b
                &&& r is Accepted ==> taken_in(b, a, tx_hash, tx, now)
                    && a.index.contains_key(tx_hash) && a.index[tx_hash] == encoded@
            },
        forall|p: &mut PendingPool| #[trigger]
            call_ensures(PendingPool::index_encoded, (p, tx_hash, encoded), ()) ==> {
                &&& (*final(p))@.index.contains_key(tx_hash)
                &&& (*final(p))@.index[tx_hash] == encoded@
                &&& (*final(p))@.txs == (*p)@.txs && (*final(p))@.times == (*p)@.times
                &&& forall|k: Key|
                    k != tx_hash ==> ((#[trigger] (*final(p))@.index.contains_key(k)) <==> (
                    *p)@.index.contains_key(k)) && (*final(p))@.index[k] == (*p)@.index[k]
            },
{
}

/// The nonce that a sender gets is the one named; where none is, it is at least the
/// one on chain, above every pending one of the sender's, and no greater than that
/// takes.
pub proof fn law_next_nonces_are_free(
    pool: &PendingPool,
    from: &Key,
    explicit: Option<u64>,
    on_chain: u64,
    r: u64,
)
    requires
        pool.wf(),
        call_ensures(PendingPool::next_nonce, (pool, from, explicit, on_chain), r),
    ensures
        explicit is Some ==> r == explicit->0,
        explicit is None ==> r >= on_chain,
        explicit is None && r < u64::MAX ==> forall|k: Key| #[trigger]
            pool@.txs.contains_key(k) && pool@.txs[k].from == *from ==> pool@.txs[k].nonce < r,
        explicit is None && r < u64::MAX && r > on_chain ==> pending(
            pool@.txs,
            *from,
            (r - 1) as u64,
        ),
{
    let sent = mempool::sent_by(pool@.txs, *from);
    if sent == Set::<Key>::empty() {
        assert forall|k: Key| #[trigger] pool@.txs.contains_key(k) implies pool@.txs[k].from
            != *from by {
            assert(!sent.contains(k));
        }
    }
}

/// Whether `a` is what is left of `b` without the keys in `gone`.
pub open spec fn left_of<V>(b: Map<Key, V>, a: Map<Key, V>, gone: Set<Key>) -> bool {
    &&& forall|k: Key|
        (#[trigger] a.contains_key(k)) <==> b.contains_key(k) && !gone.contains(k)
    &&& forall|k: Key| #[trigger] a.contains_key(k) ==> a[k] == b[k]
}

/// Committed transactions leave the pool with all that is known of them; processed
/// ones leave their encodings behind. No other transaction is touched.
pub proof fn law_committed_transactions_leave(hashes: &Vec<Key>)
    ensures
        forall|p: &mut PendingPool| #[trigger]
            call_ensures(PendingPool::remove_committed, (p, hashes), ()) ==> {
                &&& left_of((*p)@.txs, (*final(p))@.txs, hashes@.to_set())
                &&& left_of((*p)@.times, (*final(p))@.times, hashes@.to_set())
                &&& left_of((*p)@.index, (*final(p))@.index, hashes@.to_set())
            },
        forall|p: &mut PendingPool| #[trigger]
            call_ensures(PendingPool::remove_processed, (p, hashes), ()) ==> {
                &&& left_of((*p)@.txs, (*final(p))@.txs, hashes@.to_set())
                &&& left_of((*p)@.times, (*final(p))@.times, hashes@.to_set())
                &&& (*final(p))@.index == (*p)@.index
            },
{
}

/// Whether `t` is more than four minutes before `now`.
pub open spec fn long_ago(t: u64, now: u64) -> bool {
    now - t > 240_000_000_000
}

/// A sweep drops exactly what has been pending for more than four minutes, and says
/// how much that was. Ages are told in whole seconds.
pub proof fn law_sweeps_drop_what_is_old(pool: &PendingPool, tx_hash: &Key, now: u64, n: u64)
    requires
        pool.wf(),
        call_ensures(PendingPool::age_secs, (pool, tx_hash, now), n),
    ensures
        pool@.times.contains_key(*tx_hash) && now >= pool@.times[*tx_hash] ==> n * 1_000_000_000
            <= now - pool@.times[*tx_hash] < n * 1_000_000_000 + 1_000_000_000,
        !pool@.times.contains_key(*tx_hash) || now < pool@.times[*tx_hash] ==> n == 0,
        forall|p: &mut PendingPool, m: usize| #[trigger]
            call_ensures(PendingPool::sweep, (p, now), m) ==> {
                let (b, a) = ((*p)@, (*final(p))@);
                let old = Set::new(|k: Key| b.times.contains_key(k) && long_ago(b.times[k], now));
                &&& m == old.len()
                &&& left_of(b.txs, a.txs, old)
                &&& left_of(b.times, a.times, old)
                &&& left_of(b.index, a.index, old)
            },
{
    assert forall|p: &mut PendingPool, m: usize| #[trigger]
        call_ensures(PendingPool::sweep, (p, now), m) implies m == Set::new(
        |k: Key| (*p)@.times.contains_key(k) && long_ago((*p)@.times[k], now),
    ).len() by {
        assert(mempool::expired((*p)@.times, now) =~= Set::new(
            |k: Key| (*p)@.times.contains_key(k) && long_ago((*p)@.times[k], now),
        ));
    }
}

/// Up to a thousand pending transactions are gossiped again, all of them where there
/// are no more, and none twice.
pub proof fn law_retries_are_bounded(pool: &PendingPool, r: Vec<Key>)
    requires
        pool.wf(),
        call_ensures(PendingPool::gossip_retry, (pool,), r),
    ensures
        r@.len() <= 1000,
        pool@.txs.len() <= 1000 ==> r@.len() == pool@.txs.len(),
        pool@.txs.len() > 1000 ==> r@.len() == 1000,
        forall|i: int| 0 <= i < r@.len() ==> pool@.txs.contains_key(#[trigger] r@[i]),
        forall|i: int, j: int| 0 <= i < j < r@.len() ==> #[trigger] r@[i] != #[trigger] r@[j],
{
}

/// Things are kept for a hundred slots: of what is older, maintenance leaves nothing
/// but competing blocks, and of what is not it leaves everything.
pub proof fn law_buffers_keep_a_hundred_slots(slot: u64, head: u64, r: bool)
    requires
        call_ensures(buffers::is_recent, (slot, head), r),
    ensures
        r <==> head - slot < 100,
        forall|b: &mut BlockBuffers| #[trigger]
            call_ensures(BlockBuffers::maintain, (b, head), ()) ==> {
                let (m, a) = ((*b)@, (*final(b))@);
                &&& a.competing == m.competing
                &&& forall|k: Key|
                    (#[trigger] a.bodies.contains_key(k)) <==> m.bodies.contains_key(k) && head
                        - m.bodies[k].slot < 100
                &&& forall|k: Key| #[trigger] a.bodies.contains_key(k) ==> a.bodies[k] == m.bodies[k]
                &&& forall|k: BlockId|
                    (#[trigger] a.bundles.contains_key(k)) <==> m.bundles.contains_key(k) && head
                        - k.slot < 100
                &&& forall|k: BlockId| #[trigger]
                    a.bundles.contains_key(k) ==> a.bundles[k] == m.bundles[k]
                &&& forall|k: u64|
                    (#[trigger] a.shares.contains_key(k)) <==> m.shares.contains_key(k) && head - k
                        < 100
                &&& forall|k: u64| #[trigger] a.shares.contains_key(k) ==> a.shares[k] == m.shares[k]
            },
{
}

/// A competing block is held from then on. One other one gives way for it exactly
/// where there are 64 already. One that is taken is no longer held.
pub proof fn law_competing_blocks_are_held(id: BlockId, bytes: Vec<u8>)
    ensures
        forall|b: &mut BlockBuffers| #[trigger]
            call_ensures(BlockBuffers::buffer_competing, (b, id, bytes), ()) ==> {
                let (m, a) = ((*b)@.competing, (*final(b))@.competing);
                &&& a.contains_key(id) && a[id] == bytes@
                &&& forall|k: BlockId| #[trigger]
                    a.contains_key(k) && k != id ==> m.contains_key(k) && a[k] == m[k]
                &&& m.len() < 64 || m.contains_key(id) ==> forall|k: BlockId| #[trigger]
                    m.contains_key(k) ==> a.contains_key(k)
                &&& m.len() >= 64 && !m.contains_key(id) ==> exists|k: BlockId| #[trigger]
                    m.contains_key(k) && !a.contains_key(k)
                &&& forall|j: BlockId, k: BlockId|
                    j != k && #[trigger] m.contains_key(j) && #[trigger] m.contains_key(k)
                        ==> a.contains_key(j) || a.contains_key(k)
                &&& (*final(b))@.bodies == (*b)@.bodies
                &&& (*final(b))@.bundles == (*b)@.bundles
                &&& (*final(b))@.shares == (*b)@.shares
            },
        forall|b: &mut BlockBuffers, r: Option<Vec<u8>>| #[trigger]
            call_ensures(BlockBuffers::take_competing, (b, &id), r) ==> {
                let (m, a) = ((*b)@.competing, (*final(b))@.competing);
                &&& r is Some <==> m.contains_key(id)
                &&& r is Some ==> r->0@ == m[id]
                &&& !a.contains_key(id)
                &&& forall|k: BlockId|
                    k != id ==> ((#[trigger] a.contains_key(k)) <==> m.contains_key(k)) && a[k]
                        == m[k]
            },
{
}

/// A waiting block is held under its hash until it is dropped, and touches no other.
pub proof fn law_waiting_blocks_are_held(hash: Key, slot: u64, bytes: Vec<u8>)
    ensures
        forall|b: &mut BlockBuffers| #[trigger]
            call_ensures(BlockBuffers::buffer_body, (b, hash, slot, bytes), ()) ==> {
                let (m, a) = ((*b)@.bodies, (*final(b))@.bodies);
                &&& a.contains_key(hash) && a[hash].slot == slot && a[hash].bytes == bytes@
                &&& forall|k: Key|
                    k != hash ==> ((#[trigger] a.contains_key(k)) <==> m.contains_key(k)) && a[k]
                        == m[k]
                &&& (*final(b))@.competing == (*b)@.competing && (*final(b))@.shares
                    == (*b)@.shares && (*final(b))@.bundles == (*b)@.bundles
            },
        forall|b: &mut BlockBuffers| #[trigger]
            call_ensures(BlockBuffers::drop_body, (b, &hash), ()) ==> {
                let (m, a) = ((*b)@.bodies, (*final(b))@.bodies);
                &&& !a.contains_key(hash)
                &&& forall|k: Key|
                    k != hash ==> ((#[trigger] a.contains_key(k)) <==> m.contains_key(k)) && a[k]
                        == m[k]
                &&& (*final(b))@.competing == (*b)@.competing && (*final(b))@.shares
                    == (*b)@.shares && (*final(b))@.bundles == (*b)@.bundles
            },
{
}

/// A bundle is held exactly where its slot is no more than a hundred below the head;
/// one that is taken is handed out as it came, and once.
pub proof fn law_bundles_wait_for_their_block(id: BlockId, txs: Vec<Vec<u8>>, head: u64)
    ensures
        forall|b: &mut BlockBuffers, kept: bool| #[trigger]
            call_ensures(BlockBuffers::buffer_bundle, (b, id, txs, head), kept) ==> {
                &&& kept <==> head - id.slot <= 100
                &&& kept ==> (*final(b))@.bundles.contains_key(id) && (*final(b))@.bundles[id]
                    == txs@
                &&& !kept ==> (*final(b))@ == (*b)@
                &&& forall|k: BlockId|
                    k != id ==> ((#[trigger] (*final(b))@.bundles.contains_key(k)) <==> (
                    *b)@.bundles.contains_key(k)) && (*final(b))@.bundles[k] == (*b)@.bundles[k]
                &&& (*final(b))@.competing == (*b)@.competing && (*final(b))@.shares
                    == (*b)@.shares && (*final(b))@.bodies == (*b)@.bodies
            },
        forall|b: &mut BlockBuffers, r: Option<Vec<Vec<u8>>>| #[trigger]
            call_ensures(BlockBuffers::take_bundle, (b, &id), r) ==> {
                &&& r is Some <==> (*b)@.bundles.contains_key(id)
                &&& r is Some ==> r->0@ == (*b)@.bundles[id]
                &&& !(*final(b))@.bundles.contains_key(id)
                &&& forall|k: BlockId|
                    k != id ==> ((#[trigger] (*final(b))@.bundles.contains_key(k)) <==> (
                    *b)@.bundles.contains_key(k)) && (*final(b))@.bundles[k] == (*b)@.bundles[k]
            },
{
}

/// Shares are handed on at once exactly where there is a decryptor, each with the
/// index of its transaction. Else they wait behind those of their slot that came
/// before, and no other slot's are touched.
pub proof fn law_shares_wait_for_their_decryptor(slot: u64, msg: ShareMsg, has_decryptor: bool)
    ensures
        forall|b: &mut BlockBuffers, r: Option<Vec<(usize, Vec<u8>)>>| #[trigger]
            call_ensures(BlockBuffers::on_shares, (b, slot, msg, has_decryptor), r) ==> {
                let (m, a) = ((*b)@.shares, (*final(b))@.shares);
                &&& r is Some <==> has_decryptor
                &&& has_decryptor ==> (*final(b))@ == (*b)@
                &&& has_decryptor ==> r->0@.len() == msg.shares@.len() && forall|i: int|
                    0 <= i < msg.shares@.len() ==> (#[trigger] r->0@[i]).0 == i && r->0@[i].1@
                        == msg.shares@[i]@
                &&& !has_decryptor ==> a.contains_key(slot) && a[slot].len() > 0
                    && a[slot].last() == msg
                &&& !has_decryptor && m.contains_key(slot) ==> a[slot].drop_last() == m[slot]
                &&& !has_decryptor && !m.contains_key(slot) ==> a[slot].len() == 1
                &&& forall|k: u64|
                    k != slot ==> ((#[trigger] a.contains_key(k)) <==> m.contains_key(k)) && a[k]
                        == m[k]
            },
{
    assert forall|b: &mut BlockBuffers, r: Option<Vec<(usize, Vec<u8>)>>| #[trigger]
        call_ensures(BlockBuffers::on_shares, (b, slot, msg, has_decryptor), r)
            && has_decryptor implies r->0@.len() == msg.shares@.len() && forall|i: int|
        0 <= i < msg.shares@.len() ==> (#[trigger] r->0@[i]).0 == i && r->0@[i].1@
            == msg.shares@[i]@ by {
        let v = buffers::shares_view(r->0@);
        assert(v.len() == r->0@.len());
        assert forall|i: int| 0 <= i < msg.shares@.len() implies (#[trigger] r->0@[i]).0 == i
            && r->0@[i].1@ == msg.shares@[i]@ by {
            assert(v[i] == (i, msg.shares@[i]@));
        }
    }
}

/// A request is let through exactly where its connection has ten milliseconds' worth
/// left, which it then spends. A connection gains as much as time passes, up to two
/// seconds, and begins with as much as that.
pub proof fn law_requests_cost_ten_milliseconds(conn_id: usize, now: u64)
    ensures
        forall|s: &mut RpcRateLimitState, r: bool|
            (*s).wf() && #[trigger] call_ensures(
                RpcRateLimitState::try_consume_at,
                (s, conn_id, now),
                r,
            ) ==> {
                let (b, a) = ((*s)@, (*final(s))@);
                let c = b[conn_id];
                let passed = if now >= c.last_refill {
                    now - c.last_refill
                } else {
                    0
                };
                let known = b.contains_key(conn_id);
                &&& !known ==> r
                &&& known ==> (r <==> c.units + passed >= 10_000_000)
                &&& a.contains_key(conn_id) && a[conn_id].last_refill == now
                &&& !known ==> a[conn_id].units == 1_990_000_000
                &&& known && r && c.units + passed <= 2_000_000_000 ==> a[conn_id].units == c.units
                    + passed - 10_000_000
                &&& known && r && c.units + passed > 2_000_000_000 ==> a[conn_id].units
                    == 1_990_000_000
                &&& known && !r ==> a[conn_id].units == c.units + passed
            },
{
    assert forall|s: &mut RpcRateLimitState, r: bool|
        (*s).wf() && #[trigger] call_ensures(
            RpcRateLimitState::try_consume_at,
            (s, conn_id, now),
            r,
        ) implies {
        let (b, a) = ((*s)@, (*final(s))@);
        let c = b[conn_id];
        let passed = if now >= c.last_refill {
            now - c.last_refill
        } else {
            0
        };
        let known = b.contains_key(conn_id);
        &&& !known ==> r
        &&& known ==> (r <==> c.units + passed >= 10_000_000)
        &&& a.contains_key(conn_id) && a[conn_id].last_refill == now
        &&& !known ==> a[conn_id].units == 1_990_000_000
        &&& known && r && c.units + passed <= 2_000_000_000 ==> a[conn_id].units == c.units + passed
            - 10_000_000
        &&& known && r && c.units + passed > 2_000_000_000 ==> a[conn_id].units == 1_990_000_000
        &&& known && !r ==> a[conn_id].units == c.units + passed
    } by {
        let b = (*s)@;
        let w = rate_limit::swept(b, now);
        assert(w.contains_key(conn_id) ==> b.contains_key(conn_id) && w[conn_id] == b[conn_id]);
        assert(b.contains_key(conn_id) && !w.contains_key(conn_id) ==> now
            > b[conn_id].last_refill + 60_000_000_000);
    }
}

/// A request touches no bucket but its connection's; only where there are more than
/// 4096 are those let go of that were idle for over a minute.
pub proof fn law_only_idle_buckets_go(conn_id: usize, now: u64, other: usize)
    requires
        other != conn_id,
    ensures
        forall|s: &mut RpcRateLimitState, r: bool| #[trigger]
            call_ensures(RpcRateLimitState::try_consume_at, (s, conn_id, now), r) ==> {
                let (b, a) = ((*s)@, (*final(s))@);
                &&& a.contains_key(other) ==> b.contains_key(other) && a[other] == b[other]
                &&& b.contains_key(other) && b.len() <= 4096 ==> a.contains_key(other)
                &&& b.contains_key(other) && now - b[other].last_refill <= 60_000_000_000
                    ==> a.contains_key(other)
                &&& b.len() > 4096 && b.contains_key(other) && now - b[other].last_refill
                    > 60_000_000_000 ==> !a.contains_key(other)
            },
{
}

/// What those are told who ask too often.
pub proof fn law_the_rate_is_told(e: RpcError)
    requires
        call_ensures(rate_limit::rate_limit_error, (), e),
    ensures
        (e@).0 == -32429,
        (e@).1 == "rate limit exceeded: "@ + crate::text::decimal(100)
            + " req/s sustained per connection (burst "@ + crate::text::decimal(200) + ")"@,
{
}

/// Whether a log is at the address that is asked for, if one is.
pub open spec fn wanted(log: LogEntry, address: Option<Key>) -> bool {
    address is Some ==> log.address == address->0
}

/// Whether a log is one of a receipt that its slot lists, between two slots, and at
/// the address that is asked for.
pub open spec fn is_log_of(
    m: ReceiptModel,
    e: (u64, LogEntry),
    from: int,
    end: int,
    address: Option<Key>,
) -> bool {
    &&& from <= e.0 < end
    &&& wanted(e.1, address)
    &&& m.slots.contains_key(e.0)
    &&& exists|k: Key|
        m.slots[e.0].contains(k) && m.receipts.contains_key(k) && #[trigger]
            m.receipts[k].logs@.contains(e.1)
}

proof fn lemma_passing(logs: Seq<LogEntry>, slot: u64, address: Option<Key>)
    ensures
        forall|i: int|
            0 <= i < receipt_store::passing_logs(logs, slot, address).len() ==> {
                let e = #[trigger] receipt_store::passing_logs(logs, slot, address)[i];
                e.0 == slot && wanted(e.1, address) && logs.contains(e.1)
            },
    decreases logs.len(),
{
    if logs.len() > 0 {
        let rest = logs.drop_last();
        lemma_passing(rest, slot, address);
        let all = receipt_store::passing_logs(logs, slot, address);
        let before = receipt_store::passing_logs(rest, slot, address);
        assert forall|i: int| 0 <= i < all.len() implies {
            let e = #[trigger] all[i];
            e.0 == slot && wanted(e.1, address) && logs.contains(e.1)
        } by {
            if i < before.len() {
                assert(all[i] == before[i]);
                let j = choose|j: int| 0 <= j < rest.len() && rest[j] == before[i].1;
                assert(rest.contains(before[i].1));
                assert(logs[j] == rest[j]);
            } else {
                assert(logs[logs.len() - 1] == logs.last());
            }
        }
    }
}

proof fn lemma_logs_of(
    receipts: Map<Key, Receipt>,
    hashes: Seq<Key>,
    slot: u64,
    address: Option<Key>,
)
    ensures
        forall|i: int|
            0 <= i < receipt_store::logs_of(receipts, hashes, slot, address).len() ==> {
                let e = #[trigger] receipt_store::logs_of(receipts, hashes, slot, address)[i];
                &&& e.0 == slot && wanted(e.1, address)
                &&& exists|k: Key|
                    hashes.contains(k) && receipts.contains_key(k) && #[trigger]
                        receipts[k].logs@.contains(e.1)
            },
    decreases hashes.len(),
{
    if hashes.len() > 0 {
        let rest = hashes.drop_last();
        let last = hashes.last();
        lemma_logs_of(receipts, rest, slot, address);
        let all = receipt_store::logs_of(receipts, hashes, slot, address);
        let before = receipt_store::logs_of(receipts, rest, slot, address);
        if receipts.contains_key(last) {
            lemma_passing(receipts[last].logs@, slot, address);
        }
        assert(hashes[hashes.len() - 1] == last);
        assert forall|i: int| 0 <= i < all.len() implies {
            let e = #[trigger] all[i];
            &&& e.0 == slot && wanted(e.1, address)
            &&& exists|k: Key|
                hashes.contains(k) && receipts.contains_key(k) && #[trigger]
                    receipts[k].logs@.contains(e.1)
        } by {
            let e = all[i];
            if i < before.len() {
                assert(before[i] == e);
                let k = choose|k: Key|
                    rest.contains(k) && receipts.contains_key(k) && #[trigger]
                        receipts[k].logs@.contains(e.1);
                let j = choose|j: int| 0 <= j < rest.len() && rest[j] == k;
                assert(hashes[j] == k);
                assert(hashes.contains(k) && receipts[k].logs@.contains(e.1));
            } else {
                let p = receipt_store::passing_logs(receipts[last].logs@, slot, address);
                assert(p[i - before.len()] == e);
                assert(hashes.contains(last) && receipts[last].logs@.contains(e.1));
            }
        }
    }
}

/// The events of a range are those of receipts that its slots list.
pub proof fn lemma_logs_between(m: ReceiptModel, from: int, end: int, address: Option<Key>)
    requires
        0 <= from,
        end <= u64::MAX + 1,
    ensures
        forall|i: int|
            0 <= i < receipt_store::logs_between(m, from, end, address).len() ==> is_log_of(
                m,
                #[trigger] receipt_store::logs_between(m, from, end, address)[i],
                from,
                end,
                address,
            ),
    decreases end - from,
{
    if end > from {
        lemma_logs_between(m, from, end - 1, address);
        let slot = (end - 1) as u64;
        let all = receipt_store::logs_between(m, from, end, address);
        let before = receipt_store::logs_between(m, from, end - 1, address);
        if m.slots.contains_key(slot) {
            lemma_logs_of(m.receipts, m.slots[slot], slot, address);
        }
        assert forall|i: int| 0 <= i < all.len() implies is_log_of(
            m,
            #[trigger] all[i],
            from,
            end,
            address,
        ) by {
            if i < before.len() {
                assert(before[i] == all[i]);
            } else {
                let p = receipt_store::logs_of(m.receipts, m.slots[slot], slot, address);
                assert(p[i - before.len()] == all[i]);
            }
        }
    }
}

/// Every event that is found is one of a receipt that the store lists at its slot, in
/// the range that was asked for, and at the address where one was.
pub proof fn law_found_events_are_real(
    store: &ReceiptStore,
    from_slot: u64,
    to_slot: u64,
    address: Option<&Key>,
    r: Vec<(u64, &LogEntry)>,
)
    requires
        store.wf(),
        call_ensures(ReceiptStore::get_logs, (store, from_slot, to_slot, address), r),
    ensures
        forall|i: int|
            0 <= i < r@.len() ==> {
                let e = #[trigger] r@[i];
                &&& from_slot <= e.0 <= to_slot
                &&& address is Some ==> e.1.address == *address->0
                &&& store@.slots.contains_key(e.0)
                &&& exists|k: Key|
                    store@.slots[e.0].contains(k) && store@.receipts.contains_key(k) && #[trigger]
                        store@.receipts[k].logs@.contains(*e.1)
            },
{
    let a = match address {
        Some(x) => Some(*x),
        None => None,
    };
    lemma_logs_between(store@, from_slot as int, to_slot + 1, a);
    let v = receipt_store::logs_view(r@);
    assert(v.len() == r@.len());
    assert forall|i: int| 0 <= i < r@.len() implies {
        let e = #[trigger] r@[i];
        &&& from_slot <= e.0 <= to_slot
        &&& address is Some ==> e.1.address == *address->0
        &&& store@.slots.contains_key(e.0)
        &&& exists|k: Key|
            store@.slots[e.0].contains(k) && store@.receipts.contains_key(k) && #[trigger]
                store@.receipts[k].logs@.contains(*e.1)
    } by {
        assert(v[i] == (r@[i].0, *r@[i].1));
        assert(is_log_of(store@, v[i], from_slot as int, to_slot + 1, a));
    }
}

/// After a block its slot lists its transactions last, in their order. Slots more than
/// ten thousand below are gone, and no other slot's list is touched.
pub proof fn law_blocks_leave_their_receipts(slot: u64, receipts: Vec<Receipt>)
    ensures
        forall|s: &mut ReceiptStore|
            (*s).wf() && #[trigger] call_ensures(
                ReceiptStore::insert_block_receipts,
                (s, slot, receipts),
                (),
            ) ==> {
                let (b, a) = ((*s)@, (*final(s))@);
                &&& a.slots.contains_key(slot)
                &&& a.slots[slot].len() >= receipts@.len()
                &&& forall|i: int|
                    0 <= i < receipts@.len() ==> a.slots[slot][a.slots[slot].len()
                        - receipts@.len() + i] == (#[trigger] receipts@[i]).tx_hash
                &&& forall|t: u64|
                    t != slot ==> ((#[trigger] a.slots.contains_key(t)) <==> b.slots.contains_key(t)
                        && t + 10_000 >= slot)
                &&& forall|t: u64|
                    t != slot && #[trigger] a.slots.contains_key(t) ==> a.slots[t] == b.slots[t]
            },
{
    assert forall|s: &mut ReceiptStore|
        (*s).wf() && #[trigger] call_ensures(
            ReceiptStore::insert_block_receipts,
            (s, slot, receipts),
            (),
        ) implies {
        let (b, a) = ((*s)@, (*final(s))@);
        &&& a.slots.contains_key(slot)
        &&& a.slots[slot].len() >= receipts@.len()
        &&& forall|i: int|
            0 <= i < receipts@.len() ==> a.slots[slot][a.slots[slot].len() - receipts@.len() + i]
                == (#[trigger] receipts@[i]).tx_hash
        &&& forall|t: u64|
            t != slot ==> ((#[trigger] a.slots.contains_key(t)) <==> b.slots.contains_key(t) && t
                + 10_000 >= slot)
        &&& forall|t: u64|
            t != slot && #[trigger] a.slots.contains_key(t) ==> a.slots[t] == b.slots[t]
    } by {
        let a = (*final(s))@;
        let h = receipt_store::hashes_of(receipts@);
        let l = receipt_store::besides(receipt_store::list_at((*s)@.slots, slot), h);
        assert(h.len() == receipts@.len());
        assert(a.slots[slot] == l + h);
        assert forall|i: int| 0 <= i < receipts@.len() implies a.slots[slot][a.slots[slot].len()
            - receipts@.len() + i] == (#[trigger] receipts@[i]).tx_hash by {
            assert(h[i] == receipts@[i].tx_hash);
        }
    }
}

/// What a slot lists besides others is what it lists that is not among them, in its
/// order.
pub proof fn law_lists_keep_their_order(list: Seq<Key>, others: Seq<Key>, k: Key)
    ensures
        receipt_store::besides(Seq::empty(), others).len() == 0,
        others.contains(k) ==> receipt_store::besides(list.push(k), others)
            == receipt_store::besides(list, others),
        !others.contains(k) ==> receipt_store::besides(list.push(k), others)
            == receipt_store::besides(list, others).push(k),
{
    assert(list.push(k).drop_last() =~= list);
}

/// What is looked up in the pool, in the buffers and among the receipts is what is
/// held there under that very key, and nothing where nothing is.
pub proof fn law_lookups_find_what_is_held(
    pool: &PendingPool,
    buffered: &BlockBuffers,
    store: &ReceiptStore,
    key: &Key,
    slot: u64,
    tx: Option<&Transaction>,
    encoded: Option<&Vec<u8>>,
    body: Option<&buffers::BlockBody>,
    receipt: Option<&Receipt>,
    included: Option<u64>,
    list: Option<Vec<Key>>,
)
    requires
        pool.wf(),
        buffered.wf(),
        store.wf(),
        call_ensures(PendingPool::get, (pool, key), tx),
        call_ensures(PendingPool::encoded, (pool, key), encoded),
        call_ensures(BlockBuffers::body, (buffered, key), body),
        call_ensures(ReceiptStore::get, (store, key), receipt),
        call_ensures(ReceiptStore::slot_of, (store, key), included),
        call_ensures(ReceiptStore::tx_hashes_at_slot, (store, slot), list),
    ensures
        tx is Some <==> pool@.txs.contains_key(*key),
        tx is Some ==> *tx->0 == pool@.txs[*key],
        encoded is Some <==> pool@.index.contains_key(*key),
        encoded is Some ==> encoded->0@ == pool@.index[*key],
        body is Some <==> buffered@.bodies.contains_key(*key),
        body is Some ==> body->0@ == buffered@.bodies[*key],
        receipt is Some <==> store@.receipts.contains_key(*key),
        receipt is Some ==> *receipt->0 == store@.receipts[*key],
        included is Some <==> receipt is Some,
        included is Some ==> included->0 == store@.included[*key],
        list is Some <==> store@.slots.contains_key(slot),
        list is Some ==> list->0@ == store@.slots[slot],
{
}

/// Counts are of all that is held, and lists name all of it, each once.
pub proof fn law_lists_name_all_that_is_held(
    pool: &PendingPool,
    buffered: &BlockBuffers,
    store: &ReceiptStore,
    n: usize,
    m: usize,
    c: usize,
    txs: Vec<(Key, &Transaction)>,
    k: Key,
)
    requires
        pool.wf(),
        buffered.wf(),
        store.wf(),
        call_ensures(PendingPool::len, (pool,), n),
        call_ensures(ReceiptStore::len, (store,), m),
        call_ensures(BlockBuffers::competing_len, (buffered,), c),
        call_ensures(PendingPool::pending_transactions, (pool,), txs),
    ensures
        n == pool@.txs.len() && m == store@.receipts.len() && c == buffered@.competing.len(),
        txs@.len() == n,
        pool@.txs.contains_key(k) <==> exists|i: int|
            0 <= i < txs@.len() && (#[trigger] txs@[i]).0 == k && *txs@[i].1 == pool@.txs[k],
{
    if pool@.txs.contains_key(k) {
        let i = choose|i: int| 0 <= i < txs@.len() && (#[trigger] txs@[i]).0 == k;
        assert(txs@[i].0 == k);
    }
}

proof fn lemma_all_shares(msgs: Seq<ShareMsg>, i: int, j: int)
    requires
        0 <= i < msgs.len(),
        0 <= j < msgs[i].shares@.len(),
    ensures
        buffers::all_shares(msgs).contains((j, msgs[i].shares@[j]@)),
    decreases msgs.len(),
{
    let rest = msgs.drop_last();
    let before = buffers::all_shares(rest);
    let all = buffers::all_shares(msgs);
    let e = (j, msgs[i].shares@[j]@);
    if i < msgs.len() - 1 {
        assert(rest[i] == msgs[i]);
        lemma_all_shares(rest, i, j);
        let k = choose|k: int| 0 <= k < before.len() && before[k] == e;
        assert(all[k] == e);
    } else {
        assert(buffers::indexed_shares(msgs.last())[j] == e);
        assert(all[before.len() + j] == e);
    }
}

/// Taking a slot's shares hands out every one that waited, each for its own
/// transaction, and leaves none; no other slot's are touched.
pub proof fn law_every_waiting_share_is_handed_out(slot: u64)
    ensures
        forall|b: &mut BlockBuffers, r: Vec<(usize, Vec<u8>)>| #[trigger]
            call_ensures(BlockBuffers::take_shares, (b, slot), r) ==> {
                let (m, a) = ((*b)@.shares, (*final(b))@.shares);
                &&& !a.contains_key(slot)
                &&& forall|k: u64|
                    k != slot ==> ((#[trigger] a.contains_key(k)) <==> m.contains_key(k)) && a[k]
                        == m[k]
                &&& !m.contains_key(slot) ==> r@.len() == 0
                &&& m.contains_key(slot) ==> forall|i: int, j: int|
                    #![trigger m[slot][i].shares@[j]]
                    0 <= i < m[slot].len() && 0 <= j < m[slot][i].shares@.len() ==> holds_share(
                        r@,
                        j,
                        m[slot][i].shares@[j]@,
                    )
            },
{
    assert forall|b: &mut BlockBuffers, r: Vec<(usize, Vec<u8>)>, i: int, j: int|
        #![trigger call_ensures(BlockBuffers::take_shares, (b, slot), r), (*b)@.shares[slot][i].shares@[j]]
        call_ensures(BlockBuffers::take_shares, (b, slot), r) && (*b)@.shares.contains_key(slot)
            && 0 <= i < (*b)@.shares[slot].len() && 0 <= j < (
        *b)@.shares[slot][i].shares@.len() implies holds_share(
        r@,
        j,
        (*b)@.shares[slot][i].shares@[j]@,
    ) by {
        let m = (*b)@.shares;
        let v = buffers::shares_view(r@);
        lemma_all_shares(m[slot], i, j);
        let e = (j, m[slot][i].shares@[j]@);
        let k = choose|k: int| 0 <= k < v.len() && v[k] == e;
        assert(v.contains(e));
        assert(v[k] == (r@[k].0 as int, r@[k].1@));
        assert(r@[k].0 == j);
    }
    assert forall|b: &mut BlockBuffers, r: Vec<(usize, Vec<u8>)>| #[trigger]
        call_ensures(BlockBuffers::take_shares, (b, slot), r) && !(*b)@.shares.contains_key(
            slot,
        ) implies r@.len() == 0 by {
        assert(buffers::shares_view(r@).len() == r@.len());
    }
}

/// Whether indexed shares hold this one for the transaction `j`.
pub open spec fn holds_share(r: Seq<(usize, Vec<u8>)>, j: int, share: Seq<u8>) -> bool {
    exists|k: int| 0 <= k < r.len() && (#[trigger] r[k]).0 == j && r[k].1@ == share
}

/// Whenever a request is made, a connection that made none yet is let through, and
/// its bucket is one of its own from then on.
pub proof fn law_first_requests_are_let_through(conn_id: usize)
    ensures
        forall|s: &mut RpcRateLimitState, r: bool|
            (*s).wf() && #[trigger] call_ensures(
                RpcRateLimitState::try_consume,
                (s, conn_id),
                r,
            ) ==> {
                &&& (*final(s))@.contains_key(conn_id)
                &&& !(*s)@.contains_key(conn_id) ==> r && (*final(s))@[conn_id].units
                    == 1_990_000_000
            },
{
}

/// After a block each of its receipts is found under its own hash and at the block's
/// slot; of two receipts of one transaction it is the later one.
pub proof fn law_receipts_are_found_after_their_block(slot: u64, receipts: Vec<Receipt>, i: int)
    requires
        0 <= i < receipts@.len(),
        forall|j: int|
            i < j < receipts@.len() ==> (#[trigger] receipts@[j]).tx_hash != receipts@[i].tx_hash,
    ensures
        forall|s: &mut ReceiptStore| #[trigger]
            call_ensures(ReceiptStore::insert_block_receipts, (s, slot, receipts), ()) ==> {
                let a = (*final(s))@;
                let k = receipts@[i].tx_hash;
                &&& a.receipts.contains_key(k) && a.receipts[k] == receipts@[i]
                &&& a.included.contains_key(k) && a.included[k] == slot
            },
{
    assert forall|s: &mut ReceiptStore| #[trigger]
        call_ensures(ReceiptStore::insert_block_receipts, (s, slot, receipts), ()) implies {
        let a = (*final(s))@;
        let k = receipts@[i].tx_hash;
        &&& a.receipts.contains_key(k) && a.receipts[k] == receipts@[i]
        &&& a.included.contains_key(k) && a.included[k] == slot
    } by {
        receipt_store::law_inserted_receipts_are_found((*s)@, slot, receipts@, i);
    }
}

/// A receipt that a slot lists outlives every block up to ten thousand slots above
/// it, as it is, unless the block has one of the same transaction.
pub proof fn law_listed_receipts_outlive_blocks(slot: u64, receipts: Vec<Receipt>, t: u64, k: Key)
    requires
        t + 10_000 >= slot,
        forall|i: int| 0 <= i < receipts@.len() ==> (#[trigger] receipts@[i]).tx_hash != k,
    ensures
        forall|s: &mut ReceiptStore|
            (*s).wf() && (*s)@.slots.contains_key(t) && (*s)@.slots[t].contains(k)
                && receipt_store::consistent((*s)@) && #[trigger] call_ensures(
                ReceiptStore::insert_block_receipts,
                (s, slot, receipts),
                (),
            ) ==> (*final(s))@.receipts.contains_key(k) && (*final(s))@.receipts[k] == (
            *s)@.receipts[k] && (*final(s))@.included[k] == (*s)@.included[k],
{
    assert forall|s: &mut ReceiptStore|
        (*s).wf() && (*s)@.slots.contains_key(t) && (*s)@.slots[t].contains(k)
            && receipt_store::consistent((*s)@) && #[trigger] call_ensures(
            ReceiptStore::insert_block_receipts,
            (s, slot, receipts),
            (),
        ) implies (*final(s))@.receipts.contains_key(k) && (*final(s))@.receipts[k] == (
    *s)@.receipts[k] && (*final(s))@.included[k] == (*s)@.included[k] by {
        receipt_store::law_listed_receipts_are_kept((*s)@, slot, receipts@, t, k);
        let h = receipt_store::hashes_of(receipts@);
        if h.contains(k) {
            let i = choose|i: int| 0 <= i < h.len() && h[i] == k;
            assert(h[i] == receipts@[i].tx_hash);
        }
    }
}

/// What the pool says of a transaction that it does not let in.
pub proof fn law_the_pool_says_why(
    pool: &PendingPool,
    from: &Key,
    nonce: u64,
    r: Option<RpcError>,
)
    requires
        pool.wf(),
        call_ensures(PendingPool::check, (pool, from, nonce), r),
        r is Some,
    ensures
        ({
            let txs = pool@.txs;
            let (code, why) = r->0@;
            &&& code == -32011 ==> why == "mempool full: "@ + crate::text::decimal(txs.len())
                + " txs pending (cap "@ + crate::text::decimal(100_000) + ")"@
            &&& code == -32010 ==> why == "duplicate (sender, nonce)="@ + crate::text::decimal(
                nonce as nat,
            ) + " in mempool; cancel or wait for the existing tx to commit/expire"@
            &&& code == -32009 ==> why == "mempool sender cap reached: "@ + crate::text::decimal(
                owned(txs, *from).len(),
            ) + " pending txs from this sender (max "@ + crate::text::decimal(128) + ")"@
        }),
{
    assert(owned(pool@.txs, *from) =~= mempool::sent_by(pool@.txs, *from));
}

/// The encodings that are held are listed, each under its hash.
pub proof fn law_encodings_are_listed(pool: &PendingPool, r: Vec<(Key, Vec<u8>)>, k: Key)
    requires
        pool.wf(),
        call_ensures(PendingPool::index_entries, (pool,), r),
    ensures
        r@.len() == pool@.index.len(),
        pool@.index.contains_key(k) <==> exists|i: int|
            0 <= i < r@.len() && (#[trigger] r@[i]).0 == k && r@[i].1@ == pool@.index[k],
{
    if pool@.index.contains_key(k) {
        let i = choose|i: int| 0 <= i < r@.len() && (#[trigger] r@[i]).0 == k;
        assert(r@[i].0 == k);
    }
}

/// Replaying messages hands out every share of theirs.
pub proof fn law_replays_hand_out_every_share(
    msgs: Vec<ShareMsg>,
    r: Vec<(usize, Vec<u8>)>,
    i: int,
    j: int,
)
    requires
        call_ensures(buffers::replay, (msgs,), r),
        0 <= i < msgs@.len(),
        0 <= j < msgs@[i].shares@.len(),
    ensures
        holds_share(r@, j, msgs@[i].shares@[j]@),
{
    let v = buffers::shares_view(r@);
    lemma_all_shares(msgs@, i, j);
    let e = (j, msgs@[i].shares@[j]@);
    let k = choose|k: int| 0 <= k < v.len() && v[k] == e;
    assert(v.contains(e));
    assert(v[k] == (r@[k].0 as int, r@[k].1@));
    assert(r@[k].0 == j);
}

proof fn lemma_besides_keeps(list: Seq<Key>, others: Seq<Key>, k: Key)
    requires
        list.contains(k),
        !others.contains(k),
    ensures
        receipt_store::besides(list, others).contains(k),
    decreases list.len(),
{
    let rest = list.drop_last();
    let before = receipt_store::besides(rest, others);
    let all = receipt_store::besides(list, others);
    if list.last() == k {
        assert(all[before.len() as int] == k);
    } else {
        let i = choose|i: int| 0 <= i < list.len() && list[i] == k;
        assert(rest[i] == k);
        lemma_besides_keeps(rest, others, k);
        let j = choose|j: int| 0 <= j < before.len() && before[j] == k;
        assert(all[j] == k);
    }
}

/// What a slot listed it still lists after another block of its own; and a slot that
/// listed nothing lists that block's transactions alone.
pub proof fn law_slots_go_on_listing(slot: u64, receipts: Vec<Receipt>, k: Key)
    ensures
        forall|s: &mut ReceiptStore| #[trigger]
            call_ensures(ReceiptStore::insert_block_receipts, (s, slot, receipts), ()) ==> {
                let (b, a) = ((*s)@, (*final(s))@);
                &&& b.slots.contains_key(slot) && b.slots[slot].contains(k)
                    ==> a.slots[slot].contains(k)
                &&& !b.slots.contains_key(slot) ==> a.slots[slot].len() == receipts@.len()
            },
{
    assert forall|s: &mut ReceiptStore| #[trigger]
        call_ensures(ReceiptStore::insert_block_receipts, (s, slot, receipts), ()) implies {
        let (b, a) = ((*s)@, (*final(s))@);
        &&& b.slots.contains_key(slot) && b.slots[slot].contains(k) ==> a.slots[slot].contains(k)
        &&& !b.slots.contains_key(slot) ==> a.slots[slot].len() == receipts@.len()
    } by {
        let (b, a) = ((*s)@, (*final(s))@);
        let h = receipt_store::hashes_of(receipts@);
        let list = receipt_store::list_at(b.slots, slot);
        let l = receipt_store::besides(list, h);
        assert(h.len() == receipts@.len());
        assert(a.slots[slot] == l + h);
        if b.slots.contains_key(slot) && b.slots[slot].contains(k) {
            if h.contains(k) {
                let i = choose|i: int| 0 <= i < h.len() && h[i] == k;
                assert((l + h)[l.len() + i] == k);
            } else {
                lemma_besides_keeps(b.slots[slot], h, k);
                let i = choose|i: int| 0 <= i < l.len() && l[i] == k;
                assert((l + h)[i] == k);
            }
        }
    }
}

} // verus!
