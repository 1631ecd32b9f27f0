//! What the main loop's decisions come to: which block a certificate leads to,
//! which epoch a slot belongs to, and what the books hold after blocks.
use vstd::prelude::*;

use crate::buffers::BlockBuffers;
use crate::events::Channel;
use crate::keymap::Key;
use crate::mempool::Transaction;
use crate::node;
use crate::node::{
    BodyParts,
    BooksModel,
    CanonicalStep,
    InclusionVerdict,
    MismatchStep,
    NodeBooks,
    OwnVoteStep,
    RotationPlan,
    SlotWatch,
    TxKind,
};
use crate::receipt_store;
use crate::receipt_store::{Receipt, ReceiptModel};
use crate::state_manager::{StateManager, TreeReply};
use crate::sync::{SyncModel, SyncReq};

verus! {

/// A block that the node's own vote certified and that is at hand, with its body
/// or without transactions, is applied whenever the head is below its slot, by
/// however much. A head beyond it is the only reason to drop it unapplied. At the
/// head's own slot the very same block is left alone, and any other one gives way:
/// the chain goes back to the slot before.
pub proof fn law_certified_blocks_are_applied(
    head_slot: u64,
    local_hash: Option<Key>,
    qc_slot: u64,
    qc_hash: Key,
    buffered: bool,
    root: Key,
)
    requires
        buffered || forall|i: int| 0 <= i < 32 ==> root@[i] == 0,
    ensures
        ({
            let step = node::own_vote(
                head_slot,
                local_hash,
                qc_slot,
                qc_hash,
                buffered,
                Some(root),
            );
            &&& step is Apply <==> head_slot < qc_slot
            &&& step is BehindHead <==> head_slot > qc_slot
            &&& step is AlreadyCanonical <==> head_slot == qc_slot && local_hash == Some(qc_hash)
            &&& step is RollBack <==> head_slot == qc_slot && local_hash != Some(qc_hash)
            &&& step is RollBack && qc_slot > 0 ==> step->target + 1 == qc_slot
            &&& step is RollBack && qc_slot == 0 ==> step->target == 0
        }),
{
}

/// A block that the node's own vote certified waits exactly where there is no
/// proposal for it, or where the proposal commits to transactions that are not at
/// hand.
pub proof fn law_certified_blocks_wait_for_their_bodies(
    head_slot: u64,
    local_hash: Option<Key>,
    qc_slot: u64,
    qc_hash: Key,
    buffered: bool,
    proposal_root: Option<Key>,
)
    ensures
        ({
            let step = node::own_vote(
                head_slot,
                local_hash,
                qc_slot,
                qc_hash,
                buffered,
                proposal_root,
            );
            &&& step is NoProposal <==> proposal_root is None
            &&& step is Unavailable <==> proposal_root is Some && !buffered && exists|i: int|
                0 <= i < 32 && #[trigger] proposal_root->0@[i] != 0
        }),
{
}

/// A block that others certified is applied exactly where it is above the head and
/// at hand: with its body where that is held, and without one only where the
/// proposal commits to having none. It is left to the sync exactly where neither
/// is so, and left alone at or below the head.
pub proof fn law_blocks_certified_by_others_are_applied(
    head_slot: u64,
    qc_slot: u64,
    buffered: bool,
    proposal_root: Option<Key>,
)
    ensures
        ({
            let step = node::canonical(head_slot, qc_slot, buffered, proposal_root);
            let empty = proposal_root is Some && forall|i: int|
                0 <= i < 32 ==> #[trigger] proposal_root->0@[i] == 0;
            &&& step is ApplyBuffered <==> buffered && qc_slot > head_slot
            &&& step is ApplyEmpty <==> !buffered && empty && qc_slot > head_slot
            &&& step is Unavailable <==> !buffered && !empty
            &&& step is AlreadyApplied <==> (buffered || empty) && qc_slot <= head_slot
        }),
{
}

/// The epoch that begins is the one that the current slot lies in, and it began
/// after the engine's slot. None begins where the slot does not move on.
pub proof fn law_the_epoch_begun_holds_the_slot(
    engine_slot: u64,
    current_slot: u64,
    epoch_length: u64,
)
    requires
        epoch_length > 0,
    ensures
        match node::epoch_begun(engine_slot, current_slot, epoch_length) {
            Some(e) => {
                &&& e * epoch_length <= current_slot
                &&& current_slot < (e + 1) * epoch_length
                &&& engine_slot < e * epoch_length
                &&& e > 0
            },
            None => current_slot <= engine_slot || forall|e: int|
                !(engine_slot < #[trigger] (e * epoch_length) <= current_slot),
        },
{
    let l = epoch_length as int;
    let q = current_slot as int / l;
    let p = engine_slot as int / l;
    assert(0 <= q && q * l <= current_slot < (q + 1) * l) by (nonlinear_arith)
        requires
            l > 0,
            current_slot >= 0,
            q == current_slot as int / l,
    ;
    assert(0 <= p && p * l <= engine_slot < (p + 1) * l) by (nonlinear_arith)
        requires
            l > 0,
            engine_slot >= 0,
            p == engine_slot as int / l,
    ;
    if q > p {
        assert(engine_slot < q * l) by (nonlinear_arith)
            requires
                engine_slot < (p + 1) * l,
                p + 1 <= q,
                l > 0,
        ;
    } else {
        assert forall|e: int| !(engine_slot < #[trigger] (e * epoch_length) <= current_slot) by {
            if engine_slot < e * epoch_length <= current_slot {
                assert(p < e <= q) by (nonlinear_arith)
                    requires
                        p * l <= engine_slot,
                        engine_slot < e * l,
                        e * l <= current_slot,
                        current_slot < (q + 1) * l,
                        l > 0,
                ;
            }
        }
    }
}

/// Every epoch begins once as the slot moves on: where two moves follow each other,
/// the last one to begin an epoch begins the epoch that one move over both does.
pub proof fn law_epochs_begin_once(first: u64, second: u64, third: u64, epoch_length: u64)
    requires
        epoch_length > 0,
        first <= second <= third,
    ensures
        node::epoch_begun(first, third, epoch_length) == (match node::epoch_begun(
            second,
            third,
            epoch_length,
        ) {
            Some(e) => Some(e),
            None => node::epoch_begun(first, second, epoch_length),
        }),
        node::epoch_begun(second, second, epoch_length) is None,
{
    let l = epoch_length as int;
    assert(first as int / l <= second as int / l <= third as int / l) by (nonlinear_arith)
        requires
            l > 0,
            first <= second <= third,
    ;
    assert(0 <= first as int / l) by (nonlinear_arith)
        requires
            l > 0,
            first >= 0,
    ;
}

/// A body splits without loss: the transactions of each kind are those at some
/// ascending places of the body, and every transaction of the kind is among them.
pub proof fn law_bodies_split_without_loss(txs: Seq<(TxKind, Vec<u8>)>, kind: TxKind) -> (at: Seq<
    int,
>)
    ensures
        at.len() == node::of_kind(txs, kind).len(),
        forall|i: int|
            0 <= i < at.len() ==> 0 <= #[trigger] at[i] < txs.len() && txs[at[i]].0 == kind
                && node::of_kind(txs, kind)[i] == txs[at[i]].1@,
        forall|i: int, j: int| 0 <= i < j < at.len() ==> #[trigger] at[i] < #[trigger] at[j],
        forall|p: int|
            0 <= p < txs.len() && (#[trigger] txs[p]).0 == kind ==> at.contains(p),
    decreases txs.len(),
{
    if txs.len() == 0 {
        Seq::empty()
    } else {
        let rest = txs.drop_last();
        let before = law_bodies_split_without_loss(rest, kind);
        let last = txs.len() - 1;
        if txs.last().0 == kind {
            let at = before.push(last);
            assert forall|p: int| 0 <= p < txs.len() && (#[trigger] txs[p]).0 == kind implies at.contains(
                p,
            ) by {
                if p < last {
                    assert(rest[p] == txs[p]);
                    let i = choose|i: int| 0 <= i < before.len() && before[i] == p;
                    assert(at[i] == p);
                } else {
                    assert(at[before.len() as int] == p);
                }
            }
            at
        } else {
            assert forall|p: int| 0 <= p < txs.len() && (#[trigger] txs[p]).0
                == kind implies before.contains(p) by {
                assert(p < last);
                assert(rest[p] == txs[p]);
            }
            before
        }
    }
}

/// The slots for which shares are sent again are those of the decryptors that are
/// short of them, in their order, and no others.
pub proof fn law_stuck_decryptors_are_all_named(decryptors: Seq<(u64, bool)>) -> (at: Seq<int>)
    ensures
        at.len() == node::short_of_shares(decryptors).len(),
        forall|i: int|
            0 <= i < at.len() ==> 0 <= #[trigger] at[i] < decryptors.len() && !decryptors[at[i]].1
                && node::short_of_shares(decryptors)[i] == decryptors[at[i]].0,
        forall|i: int, j: int| 0 <= i < j < at.len() ==> #[trigger] at[i] < #[trigger] at[j],
        forall|p: int|
            0 <= p < decryptors.len() && !(#[trigger] decryptors[p]).1 ==> at.contains(p),
    decreases decryptors.len(),
{
    if decryptors.len() == 0 {
        Seq::empty()
    } else {
        let rest = decryptors.drop_last();
        let before = law_stuck_decryptors_are_all_named(rest);
        let last = decryptors.len() - 1;
        if !decryptors.last().1 {
            let at = before.push(last);
            assert forall|p: int|
                0 <= p < decryptors.len() && !(#[trigger] decryptors[p]).1 implies at.contains(
                p,
            ) by {
                if p < last {
                    assert(rest[p] == decryptors[p]);
                    let i = choose|i: int| 0 <= i < before.len() && before[i] == p;
                    assert(at[i] == p);
                } else {
                    assert(at[before.len() as int] == p);
                }
            }
            at
        } else {
            assert forall|p: int|
                0 <= p < decryptors.len() && !(#[trigger] decryptors[p]).1 implies before.contains(
                p,
            ) by {
                assert(p < last);
                assert(rest[p] == decryptors[p]);
            }
            before
        }
    }
}

/// After a block the local tip is the greater of its slot and the tip before; the
/// first sync is over once no slot of the network is missing, and stays over; and
/// nothing else of the sync changes.
pub proof fn law_blocks_move_the_sync(m: SyncModel, slot: u64)
    ensures
        ({
            let s = node::synced_to(m, slot);
            let tip = s.manager.local_tip;
            &&& tip >= slot && tip >= m.manager.local_tip
            &&& tip == slot || tip == m.manager.local_tip
            &&& s.manager.network_tip == m.manager.network_tip
            &&& s.initial_sync_done <==> m.initial_sync_done || tip >= m.manager.network_tip
            &&& s.pending == m.pending && s.chunks == m.chunks && s.expected_root
                == m.expected_root
            &&& s.total_chunks == m.total_chunks && s.head_slot == m.head_slot && s.retries
                == m.retries
        }),
{
}

/// A block without receipts changes no receipt, and applying a block touches
/// nothing else than its own transactions, its own receipts and its own body.
pub proof fn law_applied_blocks_touch_only_their_own(
    m: BooksModel,
    slot: u64,
    hash: Key,
    tx_hashes: Seq<Key>,
    receipts: Seq<Receipt>,
    k: Key,
)
    ensures
        ({
            let after = node::after_canonical(m, slot, hash, tx_hashes, receipts);
            &&& receipts.len() == 0 ==> after.receipts == m.receipts
            &&& !tx_hashes.contains(k) ==> {
                &&& after.pool.txs.contains_key(k) == m.pool.txs.contains_key(k)
                &&& after.pool.times.contains_key(k) == m.pool.times.contains_key(k)
                &&& after.pool.index.contains_key(k) == m.pool.index.contains_key(k)
                &&& m.pool.txs.contains_key(k) ==> after.pool.txs[k] == m.pool.txs[k]
                &&& m.pool.times.contains_key(k) ==> after.pool.times[k] == m.pool.times[k]
                &&& m.pool.index.contains_key(k) ==> after.pool.index[k] == m.pool.index[k]
            }
            &&& tx_hashes.contains(k) ==> !after.pool.txs.contains_key(k)
                && !after.pool.times.contains_key(k) && !after.pool.index.contains_key(k)
            &&& k != hash ==> after.buffers.bodies.contains_key(k)
                == m.buffers.bodies.contains_key(k)
            &&& k != hash && m.buffers.bodies.contains_key(k) ==> after.buffers.bodies[k]
                == m.buffers.bodies[k]
            &&& !after.buffers.bodies.contains_key(hash)
            &&& after.buffers.competing == m.buffers.competing
            &&& after.buffers.bundles == m.buffers.bundles
            &&& after.buffers.shares == m.buffers.shares
        }),
{
}

/// A batch of synced blocks leaves the receipts that its blocks would have left
/// one after the other: the last one, on top of those before it.
pub proof fn law_batches_are_taken_in_order(
    m: ReceiptModel,
    batch: Seq<(u64, Vec<Receipt>)>,
    slot: u64,
    receipts: Vec<Receipt>,
)
    ensures
        node::with_batch(m, Seq::empty()) == m,
        node::with_batch(m, batch.push((slot, receipts))) == receipt_store::after_block(
            node::with_batch(m, batch),
            slot,
            receipts@,
        ),
        forall|i: int|
            0 <= i < receipts@.len() && (forall|j: int|
                i < j < receipts@.len() ==> (#[trigger] receipts@[j]).tx_hash
                    != receipts@[i].tx_hash) ==> node::with_batch(
                m,
                batch.push((slot, receipts)),
            ).receipts.contains_key((#[trigger] receipts@[i]).tx_hash) && node::with_batch(
                m,
                batch.push((slot, receipts)),
            ).receipts[receipts@[i].tx_hash] == receipts@[i],
{
    let all = batch.push((slot, receipts));
    assert(all.drop_last() =~= batch);
    let before = node::with_batch(m, batch);
    assert forall|i: int|
        0 <= i < receipts@.len() && (forall|j: int|
            i < j < receipts@.len() ==> (#[trigger] receipts@[j]).tx_hash
                != receipts@[i].tx_hash) implies node::with_batch(m, all).receipts.contains_key(
        (#[trigger] receipts@[i]).tx_hash,
    ) && node::with_batch(m, all).receipts[receipts@[i].tx_hash] == receipts@[i] by {
        receipt_store::law_inserted_receipts_are_found(before, slot, receipts@, i);
    }
}

/// The step after the node's own vote, by what it is: nothing happens without a
/// proposal, nor without the transactions that it commits to; a block above the head
/// is applied, one below it is dropped, and one at the head's slot is either the one
/// there or has the chain go back by one slot.
pub proof fn law_own_votes_lead_to_their_block(
    buffers: &BlockBuffers,
    head_slot: u64,
    local_hash: Option<Key>,
    qc_slot: u64,
    qc_hash: Key,
    proposal_root: Option<Key>,
    r: OwnVoteStep,
)
    requires
        buffers.wf(),
        call_ensures(
            node::own_vote_step,
            (buffers, head_slot, local_hash, qc_slot, qc_hash, proposal_root),
            r,
        ),
    ensures
        ({
            let commits_to_some = exists|i: int|
                0 <= i < 32 && #[trigger] proposal_root->0@[i] != 0;
            let at_hand = proposal_root is Some && (buffers@.bodies.contains_key(qc_hash)
                || !commits_to_some);
            &&& r is NoProposal <==> proposal_root is None
            &&& r is Unavailable <==> proposal_root is Some && !at_hand
            &&& r is Apply <==> at_hand && head_slot < qc_slot
            &&& r is BehindHead <==> at_hand && head_slot > qc_slot
            &&& r is AlreadyCanonical <==> at_hand && head_slot == qc_slot && local_hash == Some(
                qc_hash,
            )
            &&& r is RollBack <==> at_hand && head_slot == qc_slot && local_hash != Some(qc_hash)
            &&& r is RollBack && qc_slot > 0 ==> r->target + 1 == qc_slot
            &&& r is RollBack && qc_slot == 0 ==> r->target == 0
        }),
{
}

/// The step after a certificate that others formed, by what it is.
pub proof fn law_certificates_lead_to_their_block(
    buffers: &BlockBuffers,
    head_slot: u64,
    qc_slot: u64,
    qc_hash: &Key,
    proposal_root: Option<Key>,
    r: CanonicalStep,
)
    requires
        buffers.wf(),
        call_ensures(
            node::canonical_step,
            (buffers, head_slot, qc_slot, qc_hash, proposal_root),
            r,
        ),
    ensures
        ({
            let held = buffers@.bodies.contains_key(*qc_hash);
            let empty = proposal_root is Some && forall|i: int|
                0 <= i < 32 ==> #[trigger] proposal_root->0@[i] == 0;
            &&& r is ApplyBuffered <==> held && qc_slot > head_slot
            &&& r is ApplyEmpty <==> !held && empty && qc_slot > head_slot
            &&& r is Unavailable <==> !held && !empty
            &&& r is AlreadyApplied <==> (held || empty) && qc_slot <= head_slot
        }),
{
}

/// An epoch begins exactly where the slot passes a multiple of the epoch length, and
/// it is the one that the slot has come into.
pub proof fn law_epoch_boundaries_are_multiples(
    engine_slot: u64,
    current_slot: u64,
    epoch_length: u64,
    r: Option<u64>,
)
    requires
        epoch_length > 0,
        call_ensures(node::epoch_boundary, (engine_slot, current_slot, epoch_length), r),
    ensures
        r is Some ==> engine_slot < r->0 * epoch_length,
        r is Some ==> r->0 * epoch_length <= current_slot < r->0 * epoch_length + epoch_length,
        r is None ==> current_slot <= engine_slot || forall|e: int|
            !(engine_slot < #[trigger] (e * epoch_length) <= current_slot),
{
    law_the_epoch_begun_holds_the_slot(engine_slot, current_slot, epoch_length);
    if r is Some {
        let e = r->0 as int;
        let l = epoch_length as int;
        assert((e + 1) * l == e * l + l) by (nonlinear_arith);
    }
}

/// Where the chain holds another block than the certified one it switches, if that
/// one is held; where it holds that very block, or none, it stays.
pub proof fn law_chains_switch_to_what_is_held(
    local_hash: Option<Key>,
    qc_hash: &Key,
    buffered: bool,
    r: MismatchStep,
)
    requires
        call_ensures(node::mismatch_step, (local_hash, qc_hash, buffered), r),
    ensures
        ({
            let differs = local_hash is Some && local_hash != Some(*qc_hash);
            &&& r is Agrees <==> !differs
            &&& r is Reorganize <==> differs && buffered
            &&& r is TargetNotBuffered <==> differs && !buffered
        }),
{
}

/// A slot is new once, and only if it is later than every slot before it.
pub proof fn law_slots_are_new_once(slot: u64)
    ensures
        forall|w: &mut SlotWatch, fresh: bool| #[trigger]
            call_ensures(SlotWatch::tick, (w, slot), fresh) ==> {
                &&& fresh <==> slot > (*w).last_slot
                &&& (*final(w)).last_slot >= slot
                &&& (*final(w)).last_slot >= (*w).last_slot
                &&& (*final(w)).last_slot == slot || (*final(w)).last_slot == (*w).last_slot
            },
{
}

/// At the beginning of an epoch a validator prepares the next one; it reshares for
/// the epoch itself exactly where it was in the outgoing committee and holds a share.
pub proof fn law_validators_prepare_the_next_epoch(
    epoch: u64,
    was_in: bool,
    has_key_share: bool,
    r: RotationPlan,
)
    requires
        epoch < u64::MAX,
        call_ensures(node::rotation_plan, (epoch, was_in, has_key_share), r),
    ensures
        r.randomness_for - epoch == 1,
        r.refresh_for - epoch == 1,
        r.reshare_for is Some <==> was_in && has_key_share,
        r.reshare_for is Some ==> r.reshare_for->0 == epoch,
{
}

/// A node proposes only above its head, votes from 100 ms into a slot on, infers
/// access lists from 100 transactions on, and asks for tips where it is more than
/// one slot behind.
pub proof fn law_thresholds_of_the_slot(
    slot: u64,
    head_slot: u64,
    ms: u64,
    txs: usize,
    proposes: bool,
    votes: bool,
    infers: bool,
    polls: bool,
)
    requires
        call_ensures(node::may_propose, (slot, head_slot), proposes),
        call_ensures(node::voting_open, (ms,), votes),
        call_ensures(node::infers_access_lists, (txs,), infers),
        call_ensures(node::polls_tip, (slot, head_slot), polls),
    ensures
        proposes <==> head_slot < slot,
        votes <==> ms >= 100,
        infers <==> txs >= 100,
        polls <==> slot - head_slot >= 2,
{
}

/// A proposal holds every transaction that it is made of, the slashes first; and so
/// with the two halves of a VRF and with the hashes of a compact block.
pub proof fn law_proposals_hold_both_parts(
    slash_txs: Vec<Transaction>,
    txs: Vec<Transaction>,
    output: &Vec<u8>,
    proof_bytes: &Vec<u8>,
    plain: Vec<Key>,
    encrypted: Vec<Key>,
    r: Vec<Transaction>,
    vrf: Vec<u8>,
    hashes: Vec<Key>,
)
    requires
        call_ensures(node::proposal_transactions, (slash_txs, txs), r),
        call_ensures(node::vrf_data, (output, proof_bytes), vrf),
        call_ensures(node::compact_hashes, (plain, encrypted), hashes),
    ensures
        r@.len() == slash_txs@.len() + txs@.len(),
        forall|i: int| 0 <= i < slash_txs@.len() ==> #[trigger] r@[i] == slash_txs@[i],
        forall|i: int| 0 <= i < txs@.len() ==> r@[slash_txs@.len() + i] == #[trigger] txs@[i],
        vrf@.take(output@.len() as int) == output@,
        vrf@.skip(output@.len() as int) == proof_bytes@,
        hashes@.take(plain@.len() as int) == plain@,
        hashes@.skip(plain@.len() as int) == encrypted@,
{
}

/// A transaction that decodes as a plain one is one, whatever else it decodes as;
/// one that decodes in neither way is unreadable.
pub proof fn law_transactions_are_what_they_decode_as(plain: bool, encrypted: bool, r: TxKind)
    requires
        call_ensures(node::tx_kind, (plain, encrypted), r),
    ensures
        r == TxKind::Plain <==> plain,
        r == TxKind::Encrypted <==> !plain && encrypted,
        r == TxKind::Unreadable <==> !plain && !encrypted,
{
}

/// The plain transactions of a body form one group, in their order.
pub proof fn law_plain_transactions_form_one_group(txs: &Vec<(TxKind, Vec<u8>)>, r: BodyParts)
    requires
        call_ensures(node::split_body, (txs,), r),
    ensures
        r.group@.len() == r.plain@.len(),
        forall|i: int| 0 <= i < r.group@.len() ==> #[trigger] r.group@[i] == i,
        r.plain@.len() + r.encrypted@.len() <= txs@.len(),
        (forall|i: int| 0 <= i < txs@.len() ==> (#[trigger] txs@[i]).0 != TxKind::Unreadable)
            ==> r.plain@.len() + r.encrypted@.len() == txs@.len(),
{
    lemma_kinds_add_up(txs@);
    assert(r.plain.len() == r.plain@.len());
    assert(crate::sync::bytes_list(r.plain@).len() == r.plain@.len());
    assert(crate::sync::bytes_list(r.encrypted@).len() == r.encrypted@.len());
}

proof fn lemma_kinds_add_up(txs: Seq<(TxKind, Vec<u8>)>)
    ensures
        ({
            let n = node::of_kind(txs, TxKind::Plain).len() + node::of_kind(
                txs,
                TxKind::Encrypted,
            ).len();
            &&& n <= txs.len()
            &&& (forall|i: int| 0 <= i < txs.len() ==> (#[trigger] txs[i]).0 != TxKind::Unreadable)
                ==> n == txs.len()
        }),
    decreases txs.len(),
{
    if txs.len() > 0 {
        let rest = txs.drop_last();
        lemma_kinds_add_up(rest);
        if forall|i: int| 0 <= i < txs.len() ==> (#[trigger] txs[i]).0 != TxKind::Unreadable {
            assert forall|i: int| 0 <= i < rest.len() implies (#[trigger] rest[i]).0
                != TxKind::Unreadable by {
                assert(rest[i] == txs[i]);
            }
            assert(txs[txs.len() - 1].0 != TxKind::Unreadable);
        }
    }
}

/// A block with nothing left out is clean; else a committee of 32 or more has the
/// node abstain, and a smaller one has it look on.
pub proof fn law_large_committees_enforce_inclusion(
    is_clean: bool,
    committee_size: usize,
    r: InclusionVerdict,
)
    requires
        call_ensures(node::inclusion_verdict, (is_clean, committee_size), r),
    ensures
        r is Clean <==> is_clean,
        r is Abstain <==> !is_clean && committee_size >= 32,
        r is Observe <==> !is_clean && committee_size < 32,
{
}

/// Decryption begins where there is something to decrypt and nothing is in its way,
/// and only once.
pub proof fn law_decryption_begins_once(
    encrypted_txs: usize,
    has_key_share: bool,
    already_pending: bool,
    tx_root_ok: bool,
    has_engine: bool,
    r: bool,
)
    requires
        call_ensures(
            node::kicks_decryption,
            (encrypted_txs, has_key_share, already_pending, tx_root_ok, has_engine),
            r,
        ),
    ensures
        already_pending ==> !r,
        encrypted_txs == 0 ==> !r,
        !has_key_share || !tx_root_ok || !has_engine ==> !r,
        !r ==> already_pending || encrypted_txs == 0 || !has_key_share || !tx_root_ok
            || !has_engine,
{
}

/// A peer is dialled from one side only, and not again while it is connected; at its
/// first loopback address where it has one, else at its first address.
pub proof fn law_peers_are_dialled_from_one_side(
    connected: bool,
    local_is_lower: bool,
    loopback: &Vec<bool>,
    r: Option<usize>,
)
    requires
        call_ensures(node::dial_choice, (connected, local_is_lower, loopback), r),
    ensures
        r is Some <==> !connected && local_is_lower && loopback@.len() > 0,
        r is Some && (exists|j: int| 0 <= j < loopback@.len() && #[trigger] loopback@[j]) ==> {
            &&& loopback@[r->0 as int]
            &&& forall|j: int| 0 <= j < r->0 ==> !#[trigger] loopback@[j]
        },
        r is Some && (forall|j: int| 0 <= j < loopback@.len() ==> !#[trigger] loopback@[j])
            ==> r->0 == 0,
{
}

/// Only consensus and block messages are replayed to those who subscribe late.
pub proof fn law_two_channels_are_replayed(channel: Option<Channel>, r: bool)
    requires
        call_ensures(node::replays, (channel,), r),
    ensures
        channel == Some(Channel::Consensus) ==> r,
        channel == Some(Channel::Blocks) ==> r,
        channel == Some(Channel::Transactions) ==> !r,
        channel == Some(Channel::EncryptedTransactions) ==> !r,
        channel == Some(Channel::Sync) ==> !r,
        channel is None ==> !r,
{
}

/// The root moves to the one that the tree replied with, and only where there was
/// something to write and the tree took it; nothing else moves.
pub proof fn law_roots_move_with_writes(writes: usize, reply: TreeReply)
    ensures
        forall|s: &mut StateManager| #[trigger]
            call_ensures(node::commit_jmt_writes, (s, writes, reply), ()) ==> {
                &&& writes == 0 ==> (*final(s))@ == (*s)@
                &&& (*final(s))@.root != (*s)@.root ==> reply is Ok && (*final(s))@.root
                    == reply->Ok_0
                &&& reply is Ok && writes > 0 ==> (*final(s))@.root == reply->Ok_0
                &&& (*final(s))@ == (crate::state_manager::StateModel {
                    root: (*final(s))@.root,
                    ..(*s)@
                })
            },
{
}

/// The node's books begin empty, at the head's slot.
pub proof fn law_books_begin_empty(head_slot: u64, b: NodeBooks)
    requires
        call_ensures(NodeBooks::new, (head_slot,), b),
    ensures
        b.wf(),
        b@.sync.manager.local_tip == head_slot,
        b@.sync.manager.network_tip == 0,
        !b@.sync.initial_sync_done,
        b@.sync.chunks.len() == 0 && b@.sync.total_chunks == 0,
        forall|k: Key| !(#[trigger] b@.receipts.receipts.contains_key(k)),
        forall|k: Key| !(#[trigger] b@.pool.txs.contains_key(k)),
        forall|k: Key| !(#[trigger] b@.buffers.bodies.contains_key(k)),
{
}

/// A block that is applied moves the local tip up to its slot and never down, and
/// ends the first sync where the node has caught up. A fallback block does that and
/// nothing else; decrypted transactions leave the sync, the pool and the buffers
/// alone.
pub proof fn law_applied_blocks_move_the_tip(
    slot: u64,
    hash: &Key,
    tx_hashes: &Vec<Key>,
    receipts: Vec<Receipt>,
)
    ensures
        forall|b: &mut NodeBooks| #[trigger]
            call_ensures(NodeBooks::on_fallback_applied, (b, slot), ()) ==> {
                &&& tip_moved((*b)@.sync, (*final(b))@.sync, slot)
                &&& (*final(b))@.receipts == (*b)@.receipts
                &&& (*final(b))@.pool == (*b)@.pool
                &&& (*final(b))@.buffers == (*b)@.buffers
            },
        forall|b: &mut NodeBooks| #[trigger]
            call_ensures(NodeBooks::on_gossip_applied, (b, slot, tx_hashes, receipts), ()) ==> {
                &&& tip_moved((*b)@.sync, (*final(b))@.sync, slot)
                &&& (*final(b))@.buffers == (*b)@.buffers
                &&& forall|k: Key|
                    tx_hashes@.contains(k) ==> !(#[trigger] (*final(b))@.pool.txs.contains_key(k))
                &&& forall|k: Key|
                    !tx_hashes@.contains(k) ==> ((#[trigger] (*final(b))@.pool.txs.contains_key(k))
                        <==> (*b)@.pool.txs.contains_key(k))
            },
        forall|b: &mut NodeBooks| #[trigger]
            call_ensures(
                NodeBooks::on_canonical_applied,
                (b, slot, hash, tx_hashes, receipts),
                (),
            ) ==> {
                &&& tip_moved((*b)@.sync, (*final(b))@.sync, slot)
                &&& forall|k: Key|
                    tx_hashes@.contains(k) ==> !(#[trigger] (*final(b))@.pool.txs.contains_key(k))
                &&& forall|k: Key|
                    !tx_hashes@.contains(k) ==> ((#[trigger] (*final(b))@.pool.txs.contains_key(k))
                        <==> (*b)@.pool.txs.contains_key(k))
                &&& !(*final(b))@.buffers.bodies.contains_key(*hash)
                &&& forall|k: Key|
                    k != *hash ==> ((#[trigger] (*final(b))@.buffers.bodies.contains_key(k)) <==> (
                    *b)@.buffers.bodies.contains_key(k))
            },
        forall|b: &mut NodeBooks| #[trigger]
            call_ensures(NodeBooks::on_decrypted, (b, slot, receipts), ()) ==> {
                &&& (*final(b))@.sync == (*b)@.sync
                &&& (*final(b))@.pool == (*b)@.pool
                &&& (*final(b))@.buffers == (*b)@.buffers
            },
{
}

/// Whether the local tip is up to `slot` and no lower than it was, and the first sync
/// over where the node has caught up, with all else of a sync as it was.
pub open spec fn tip_moved(before: SyncModel, after: SyncModel, slot: u64) -> bool {
    &&& after.manager.local_tip >= slot
    &&& after.manager.local_tip >= before.manager.local_tip
    &&& after.manager.local_tip == slot || after.manager.local_tip == before.manager.local_tip
    &&& after.manager.network_tip == before.manager.network_tip
    &&& after.initial_sync_done <==> before.initial_sync_done || after.manager.local_tip
        >= after.manager.network_tip
    &&& after.pending == before.pending
    &&& after.chunks == before.chunks
    &&& after.total_chunks == before.total_chunks
    &&& after.expected_root == before.expected_root
    &&& after.retries == before.retries
}

/// Missing transactions tell that the network is at least at their slot; nothing but
/// the sync is touched, and the local tip stays.
pub proof fn law_missing_transactions_tell_of_the_network(
    slot: u64,
    has_peer: bool,
    next_blocks: Option<(u64, u32)>,
)
    ensures
        forall|b: &mut NodeBooks, r: Option<SyncReq>| #[trigger]
            call_ensures(
                NodeBooks::on_missing_transactions,
                (b, slot, has_peer, next_blocks),
                r,
            ) ==> {
                &&& (*final(b))@.sync.manager.network_tip >= slot
                &&& (*final(b))@.sync.manager.network_tip >= (*b)@.sync.manager.network_tip
                &&& (*final(b))@.sync.manager.local_tip == (*b)@.sync.manager.local_tip
                &&& (*final(b))@.receipts == (*b)@.receipts
                &&& (*final(b))@.pool == (*b)@.pool
                &&& (*final(b))@.buffers == (*b)@.buffers
                &&& !has_peer ==> r is None
            },
{
}

/// A download under way goes on with the chunk after those that are held, and asks
/// nobody where there is nobody.
pub proof fn law_downloads_go_on_in_order(has_peer: bool, next_blocks: Option<(u64, u32)>)
    ensures
        forall|b: &mut NodeBooks, r: Option<SyncReq>| #[trigger]
            call_ensures(NodeBooks::continue_sync, (b, has_peer, next_blocks), r) ==> {
                &&& !has_peer ==> r is None
                &&& (*b)@.sync.chunks.len() < (*b)@.sync.total_chunks && has_peer ==> r is Some
                    && r->0 is GetStateSnapshotChunk && r->0->chunk_size == 5000 && r->0->chunk_index
                    == (*b)@.sync.chunks.len()
                &&& (*b)@.sync.chunks.len() < (*b)@.sync.total_chunks ==> (*final(b))@ == (*b)@
                &&& (*b)@.sync.chunks.len() >= (*b)@.sync.total_chunks ==> {
                    let m = (*b)@.sync;
                    let free = m.manager.network_tip > m.manager.local_tip && m.pending == Set::<
                        u64,
                    >::empty() && has_peer;
                    let whole = !m.initial_sync_done && m.chunks.len() == 0 && m.expected_root
                        is None && m.manager.network_tip - m.manager.local_tip > 1000;
                    &&& !free ==> r is None && (*final(b))@ == (*b)@
                    &&& free && whole ==> r is Some && r->0 is GetStateSnapshotChunk
                        && r->0->chunk_index == 0
                    &&& free && !whole ==> (r is Some <==> next_blocks is Some)
                    &&& free && !whole && r is Some ==> r->0 is GetBlocks
                        && r->0->GetBlocks_start_slot == (next_blocks->0).0
                        && r->0->GetBlocks_count == (next_blocks->0).1
                }
                &&& (*final(b))@.receipts == (*b)@.receipts
                &&& (*final(b))@.pool == (*b)@.pool
                &&& (*final(b))@.buffers == (*b)@.buffers
            },
{
    assert forall|b: &mut NodeBooks, r: Option<SyncReq>| #[trigger]
        call_ensures(NodeBooks::continue_sync, (b, has_peer, next_blocks), r) && (
        *b)@.sync.chunks.len() < (*b)@.sync.total_chunks && has_peer implies r is Some
        && r->0->chunk_index == (*b)@.sync.chunks.len() by {
        assert((*b)@.sync.total_chunks <= u32::MAX);
    }
}

/// Maintenance drops from the pool exactly what is older than four minutes, and
/// counts it; the sync and the receipts stay.
pub proof fn law_maintenance_drops_what_is_old(now: u64, head_slot: u64)
    ensures
        forall|b: &mut NodeBooks, evicted: usize| #[trigger]
            call_ensures(NodeBooks::maintain, (b, now, head_slot), evicted) ==> {
                &&& evicted == Set::new(
                    |k: Key|
                        (*b)@.pool.times.contains_key(k) && now - (*b)@.pool.times[k]
                            > 240_000_000_000,
                ).len()
                &&& (*final(b))@.sync == (*b)@.sync
                &&& (*final(b))@.receipts == (*b)@.receipts
                &&& forall|k: Key| #[trigger]
                    (*final(b))@.pool.txs.contains_key(k) ==> (*b)@.pool.txs.contains_key(k) && (
                    *final(b))@.pool.txs[k] == (*b)@.pool.txs[k]
                &&& forall|k: Key|
                    (*b)@.pool.txs.contains_key(k) && (*b)@.pool.times.contains_key(k) && now - (
                    *b)@.pool.times[k] > 240_000_000_000 ==> !(#[trigger] (
                    *final(b))@.pool.txs.contains_key(k))
                &&& forall|k: Key|
                    (*b)@.pool.txs.contains_key(k) && !((*b)@.pool.times.contains_key(k) && now - (
                    *b)@.pool.times[k] > 240_000_000_000) ==> #[trigger] (
                    *final(b))@.pool.txs.contains_key(k)
            },
{
    assert forall|b: &mut NodeBooks, evicted: usize| #[trigger]
        call_ensures(NodeBooks::maintain, (b, now, head_slot), evicted) implies evicted == Set::new(
        |k: Key|
            (*b)@.pool.times.contains_key(k) && now - (*b)@.pool.times[k] > 240_000_000_000,
    ).len() by {
        assert(crate::mempool::expired((*b)@.pool.times, now) =~= Set::new(
            |k: Key|
                (*b)@.pool.times.contains_key(k) && now - (*b)@.pool.times[k] > 240_000_000_000,
        ));
    }
}

/// The slots that are named as stuck are those of the decryptors that are short of
/// shares, in their order, and all of them.
pub proof fn law_stuck_slots_are_named(decryptors: &Vec<(u64, bool)>, r: Vec<u64>) -> (at: Seq<int>)
    requires
        call_ensures(node::stuck_slots, (decryptors,), r),
    ensures
        at.len() == r@.len(),
        forall|i: int|
            0 <= i < at.len() ==> 0 <= #[trigger] at[i] < decryptors@.len()
                && !decryptors@[at[i]].1 && r@[i] == decryptors@[at[i]].0,
        forall|i: int, j: int| 0 <= i < j < at.len() ==> #[trigger] at[i] < #[trigger] at[j],
        forall|p: int|
            0 <= p < decryptors@.len() && !(#[trigger] decryptors@[p]).1 ==> at.contains(p),
{
    law_stuck_decryptors_are_all_named(decryptors@)
}

/// A batch of synced blocks touches nothing but the receipts, of which those of its
/// last block are found at that block's slot; an empty one leaves them as they are.
pub proof fn law_synced_batches_leave_receipts(batch: Vec<(u64, Vec<Receipt>)>)
    ensures
        forall|b: &mut NodeBooks| #[trigger]
            call_ensures(NodeBooks::on_synced, (b, batch), ()) ==> {
                &&& (*final(b))@.sync == (*b)@.sync
                &&& (*final(b))@.pool == (*b)@.pool
                &&& (*final(b))@.buffers == (*b)@.buffers
                &&& batch@.len() == 0 ==> (*final(b))@.receipts == (*b)@.receipts
                &&& batch@.len() == 1 ==> (*final(b))@.receipts == receipt_store::after_block(
                    (*b)@.receipts,
                    batch@[0].0,
                    batch@[0].1@,
                )
            },
        forall|b: &mut NodeBooks, i: int|
            #![trigger call_ensures(NodeBooks::on_synced, (b, batch), ()), batch@[batch@.len() - 1].1@[i]]
            call_ensures(NodeBooks::on_synced, (b, batch), ()) && batch@.len() > 0 && 0 <= i
                < batch@[batch@.len() - 1].1@.len() && (forall|j: int|
                i < j < batch@[batch@.len() - 1].1@.len() ==> (
                #[trigger] batch@[batch@.len() - 1].1@[j]).tx_hash
                    != batch@[batch@.len() - 1].1@[i].tx_hash) ==> (
            *final(b))@.receipts.receipts.contains_key(batch@[batch@.len() - 1].1@[i].tx_hash) && (
            *final(b))@.receipts.included[batch@[batch@.len() - 1].1@[i].tx_hash]
                == batch@[batch@.len() - 1].0,
{
    assert forall|b: &mut NodeBooks| #[trigger]
        call_ensures(NodeBooks::on_synced, (b, batch), ()) && batch@.len() == 1 implies (
    *final(b))@.receipts == receipt_store::after_block(
        (*b)@.receipts,
        batch@[0].0,
        batch@[0].1@,
    ) by {
        assert(batch@.drop_last() =~= Seq::empty());
        reveal_with_fuel(node::with_batch, 2);
    }
    assert forall|b: &mut NodeBooks, i: int|
        #![trigger call_ensures(NodeBooks::on_synced, (b, batch), ()), batch@[batch@.len() - 1].1@[i]]
        call_ensures(NodeBooks::on_synced, (b, batch), ()) && batch@.len() > 0 && 0 <= i
            < batch@[batch@.len() - 1].1@.len() && (forall|j: int|
            i < j < batch@[batch@.len() - 1].1@.len() ==> (
            #[trigger] batch@[batch@.len() - 1].1@[j]).tx_hash
                != batch@[batch@.len() - 1].1@[i].tx_hash) implies (
    *final(b))@.receipts.receipts.contains_key(batch@[batch@.len() - 1].1@[i].tx_hash) && (
    *final(b))@.receipts.included[batch@[batch@.len() - 1].1@[i].tx_hash]
        == batch@[batch@.len() - 1].0 by {
        let before = node::with_batch((*b)@.receipts, batch@.drop_last());
        let last = batch@[batch@.len() - 1];
        receipt_store::law_inserted_receipts_are_found(before, last.0, last.1@, i);
    }
}

/// The receipts of a block that is applied or decrypted are found afterwards, each
/// under its hash and at the block's slot; of two of one transaction the later one.
pub proof fn law_applied_blocks_leave_their_receipts(
    slot: u64,
    hash: &Key,
    tx_hashes: &Vec<Key>,
    receipts: Vec<Receipt>,
    i: int,
)
    requires
        0 <= i < receipts@.len(),
        forall|j: int|
            i < j < receipts@.len() ==> (#[trigger] receipts@[j]).tx_hash != receipts@[i].tx_hash,
    ensures
        forall|b: &mut NodeBooks| #[trigger]
            call_ensures(NodeBooks::on_gossip_applied, (b, slot, tx_hashes, receipts), ())
                ==> receipt_is_at((*final(b))@.receipts, receipts@[i], slot),
        forall|b: &mut NodeBooks| #[trigger]
            call_ensures(
                NodeBooks::on_canonical_applied,
                (b, slot, hash, tx_hashes, receipts),
                (),
            ) ==> receipt_is_at((*final(b))@.receipts, receipts@[i], slot),
        forall|b: &mut NodeBooks| #[trigger]
            call_ensures(NodeBooks::on_decrypted, (b, slot, receipts), ()) ==> receipt_is_at(
                (*final(b))@.receipts,
                receipts@[i],
                slot,
            ),
{
    assert forall|m: ReceiptModel| #[trigger]
        receipt_is_at(receipt_store::after_block(m, slot, receipts@), receipts@[i], slot) by {
        receipt_store::law_inserted_receipts_are_found(m, slot, receipts@, i);
    }
    assert forall|b: &mut NodeBooks| #[trigger]
        call_ensures(
            NodeBooks::on_gossip_applied,
            (b, slot, tx_hashes, receipts),
            (),
        ) implies receipt_is_at((*final(b))@.receipts, receipts@[i], slot) by {
        let a = receipt_store::after_block((*b)@.receipts, slot, receipts@);
        assert(receipt_is_at(a, receipts@[i], slot));
    }
    assert forall|b: &mut NodeBooks| #[trigger]
        call_ensures(
            NodeBooks::on_canonical_applied,
            (b, slot, hash, tx_hashes, receipts),
            (),
        ) implies receipt_is_at((*final(b))@.receipts, receipts@[i], slot) by {
        let a = receipt_store::after_block((*b)@.receipts, slot, receipts@);
        assert(receipt_is_at(a, receipts@[i], slot));
    }
    assert forall|b: &mut NodeBooks| #[trigger]
        call_ensures(NodeBooks::on_decrypted, (b, slot, receipts), ()) implies receipt_is_at(
        (*final(b))@.receipts,
        receipts@[i],
        slot,
    ) by {
        let a = receipt_store::after_block((*b)@.receipts, slot, receipts@);
        assert(receipt_is_at(a, receipts@[i], slot));
    }
}

/// Whether a receipt is held under its transaction, with the slot that it is of.
pub open spec fn receipt_is_at(m: ReceiptModel, r: Receipt, slot: u64) -> bool {
    &&& m.receipts.contains_key(r.tx_hash) && m.receipts[r.tx_hash] == r
    &&& m.included.contains_key(r.tx_hash) && m.included[r.tx_hash] == slot
}

} // verus!
