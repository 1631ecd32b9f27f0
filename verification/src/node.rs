//! The main loop's decisions: what becomes of a certified block, when a slot or an
//! epoch begins, what is proposed, and which of the node's books change with a
//! block.
use vstd::prelude::*;

use crate::buffers;
use crate::buffers::BlockBuffers;
use crate::events::Channel;
use crate::keymap;
use crate::keymap::{key_eq, key_is_zero, Key};
use crate::mempool;
use crate::mempool::{PendingPool, Transaction};
use crate::peer_book;
use crate::receipt_store;
use crate::receipt_store::{Receipt, ReceiptStore};
use crate::state_manager;
use crate::state_manager::{StateManager, StateModel, TreeReply};
use crate::sync;
use crate::sync::{ChainSync, SyncManager, SyncModel, SyncReq};
use crate::text::copy_bytes;

verus! {

/// The size of committee from which on the inclusion audit makes a validator
/// abstain.
pub const MEV_INCLUSION_MIN_ENFORCEMENT_COMMITTEE: usize = 32;

/// How many slots an encrypted transaction may wait before its absence counts.
pub const MEV_INCLUSION_GRACE_SLOTS: u64 = 2;

/// How many milliseconds into a slot proposals are collected.
pub const PROPOSAL_WINDOW_MS: u64 = 100;

/// From how many transactions on the access lists of a proposal are inferred.
pub const ACCESS_INFERENCE_MIN_TXS: usize = 100;

/// What to do with a block that was certified by the votes of others.
#[derive(Clone, Copy, Debug, PartialEq, Eq, Structural)]
pub enum CanonicalStep {
    /// Its transactions are not here; the sync brings it.
    Unavailable,
    /// Its slot has been applied already.
    AlreadyApplied,
    /// Apply the block that waited for the certificate.
    ApplyBuffered,
    /// Apply the header with an empty body.
    ApplyEmpty,
}

/// Whether a header commits to a body without transactions.
pub open spec fn is_empty_root(tx_root: Option<Key>) -> bool {
    tx_root is Some && keymap::all_zero(tx_root->0)
}

/// What is done with a certified block: `buffered` says whether it is held,
/// `proposal_root` is the transaction root of the header proposed for it.
pub open spec fn canonical(head_slot: u64, qc_slot: u64, buffered: bool, proposal_root: Option<Key>)
    -> CanonicalStep {
    if !buffered && !is_empty_root(proposal_root) {
        CanonicalStep::Unavailable
    } else if head_slot >= qc_slot {
        CanonicalStep::AlreadyApplied
    } else if buffered {
        CanonicalStep::ApplyBuffered
    } else {
        CanonicalStep::ApplyEmpty
    }
}

fn has_empty_root(tx_root: Option<Key>) -> (r: bool)
    ensures
        r == is_empty_root(tx_root),
{
    match tx_root {
        Some(root) => key_is_zero(&root),
        None => false,
    }
}

/// Says what to do with a block that was certified by the votes of others.
pub fn canonical_step(
    buffers: &BlockBuffers,
    head_slot: u64,
    qc_slot: u64,
    qc_block_hash: &Key,
    proposal_root: Option<Key>,
) -> (r: CanonicalStep)
    requires
        buffers.wf(),
    ensures
        r == canonical(
            head_slot,
            qc_slot,
            buffers@.bodies.contains_key(*qc_block_hash),
            proposal_root,
        ),
{
    let buffered: bool = buffers.body(qc_block_hash).is_some();
    if !buffered && !has_empty_root(proposal_root) {
        CanonicalStep::Unavailable
    } else if head_slot >= qc_slot {
        CanonicalStep::AlreadyApplied
    } else if buffered {
        CanonicalStep::ApplyBuffered
    } else {
        CanonicalStep::ApplyEmpty
    }
}

/// A certified block is never applied with other transactions than the proposed
/// ones: without its body, only one that commits to having none is; and none is
/// applied at or below the head.
pub proof fn law_only_committed_bodies_are_applied(
    head_slot: u64,
    qc_slot: u64,
    buffered: bool,
    proposal_root: Option<Key>,
)
    ensures
        ({
            let step = canonical(head_slot, qc_slot, buffered, proposal_root);
            &&& step == CanonicalStep::ApplyEmpty ==> is_empty_root(proposal_root) && !buffered
            &&& step == CanonicalStep::ApplyBuffered ==> buffered
            &&& step == CanonicalStep::ApplyEmpty || step == CanonicalStep::ApplyBuffered
                ==> qc_slot > head_slot
            &&& buffered && qc_slot > head_slot ==> step == CanonicalStep::ApplyBuffered
        }),
{
}

/// What to do with a block that the node's own vote certified.
#[derive(Clone, Copy, Debug, PartialEq, Eq, Structural)]
pub enum OwnVoteStep {
    /// No proposal for it is held; go on with the tick.
    NoProposal,
    /// Its transactions are not here; the tick ends.
    Unavailable,
    /// The node has applied this very block; its buffered copy goes and the tick
    /// ends.
    AlreadyCanonical,
    /// The node has applied another block at this slot: take the chain and the
    /// state back to `target` first.
    RollBack { target: u64 },
    /// Apply it.
    Apply,
    /// The head is past it; its buffered copy goes and the tick ends.
    BehindHead,
}

/// What is done with a block that the node's own vote certified. `local_hash` is
/// the hash of the block held at its slot.
pub open spec fn own_vote(
    head_slot: u64,
    local_hash: Option<Key>,
    qc_slot: u64,
    qc_hash: Key,
    buffered: bool,
    proposal_root: Option<Key>,
) -> OwnVoteStep {
    if proposal_root is None {
        OwnVoteStep::NoProposal
    } else if !buffered && !is_empty_root(proposal_root) {
        OwnVoteStep::Unavailable
    } else if head_slot == qc_slot {
        if local_hash == Some(qc_hash) {
            OwnVoteStep::AlreadyCanonical
        } else {
            OwnVoteStep::RollBack {
                target: if qc_slot == 0 {
                    0
                } else {
                    (qc_slot - 1) as u64
                },
            }
        }
    } else if head_slot < qc_slot {
        OwnVoteStep::Apply
    } else {
        OwnVoteStep::BehindHead
    }
}

/// Says what to do with a block that the node's own vote certified.
pub fn own_vote_step(
    buffers: &BlockBuffers,
    head_slot: u64,
    local_hash: Option<Key>,
    qc_slot: u64,
    qc_hash: Key,
    proposal_root: Option<Key>,
) -> (r: OwnVoteStep)
    requires
        buffers.wf(),
    ensures
        r == own_vote(
            head_slot,
            local_hash,
            qc_slot,
            qc_hash,
            buffers@.bodies.contains_key(qc_hash),
            proposal_root,
        ),
{
    if proposal_root.is_none() {
        return OwnVoteStep::NoProposal;
    }
    if buffers.body(&qc_hash).is_none() && !has_empty_root(proposal_root) {
        return OwnVoteStep::Unavailable;
    }
    if head_slot == qc_slot {
        let same: bool = match local_hash {
            Some(h) => key_eq(&h, &qc_hash),
            None => false,
        };
        if same {
            OwnVoteStep::AlreadyCanonical
        } else {
            OwnVoteStep::RollBack { target: qc_slot.saturating_sub(1) }
        }
    } else if head_slot < qc_slot {
        OwnVoteStep::Apply
    } else {
        OwnVoteStep::BehindHead
    }
}

/// Whether a step applies the certified block, after a roll-back where one is
/// called for.
pub open spec fn leads_to_apply(step: OwnVoteStep) -> bool {
    step is Apply || step is RollBack
}

/// A block that the node's own vote certified is applied only on top of an older
/// head: right away, or after the head gave way to it. It is never applied twice,
/// and never with other transactions than the proposed ones.
pub proof fn law_own_votes_extend_the_chain(
    head_slot: u64,
    local_hash: Option<Key>,
    qc_slot: u64,
    qc_hash: Key,
    buffered: bool,
    proposal_root: Option<Key>,
)
    ensures
        ({
            let step = own_vote(head_slot, local_hash, qc_slot, qc_hash, buffered, proposal_root);
            &&& step is Apply ==> head_slot < qc_slot
            &&& step matches OwnVoteStep::RollBack { target } ==> head_slot == qc_slot && target
                <= qc_slot && (qc_slot > 0 ==> target < qc_slot)
            &&& leads_to_apply(step) ==> local_hash != Some(qc_hash) || head_slot != qc_slot
            &&& leads_to_apply(step) ==> buffered || is_empty_root(proposal_root)
        }),
{
}

/// What follows when a node's own vote made a certificate.
#[derive(Clone, Copy, Debug, PartialEq, Eq, Structural)]
pub enum MismatchStep {
    /// The chain agrees with the certificate, or holds nothing at its slot.
    Agrees,
    /// Switch to the competing block.
    Reorganize,
    /// The certified block is not held.
    TargetNotBuffered,
}

/// Compares the block held at a slot with the certified one, of which `buffered`
/// says whether it is held as a competitor.
pub fn mismatch_step(local_hash: Option<Key>, qc_hash: &Key, buffered: bool) -> (r: MismatchStep)
    ensures
        r == if local_hash is None || local_hash->0 == *qc_hash {
            MismatchStep::Agrees
        } else if buffered {
            MismatchStep::Reorganize
        } else {
            MismatchStep::TargetNotBuffered
        },
{
    match local_hash {
        Some(local) => if key_eq(&local, qc_hash) {
            MismatchStep::Agrees
        } else if buffered {
            MismatchStep::Reorganize
        } else {
            MismatchStep::TargetNotBuffered
        },
        None => MismatchStep::Agrees,
    }
}

/// Watches the slot clock for new slots.
pub struct SlotWatch {
    pub last_slot: u64,
}

impl SlotWatch {
    /// Takes note of the current slot, and says whether it is a new one.
    pub fn tick(&mut self, current_slot: u64) -> (fresh: bool)
        ensures
            fresh == (current_slot > old(self).last_slot),
            final(self).last_slot == if fresh {
                current_slot
            } else {
                old(self).last_slot
            },
    {
        if current_slot > self.last_slot {
            self.last_slot = current_slot;
            true
        } else {
            false
        }
    }
}

/// The epoch that begins when the engine's slot moves to `current_slot`, if one
/// does.
pub open spec fn epoch_begun(engine_slot: u64, current_slot: u64, epoch_length: u64) -> Option<u64> {
    let epoch = current_slot / epoch_length;
    if epoch > engine_slot / epoch_length && epoch > 0 {
        Some(epoch)
    } else {
        None
    }
}

/// The epoch that begins when the engine's slot moves to `current_slot`, if one
/// does.
pub fn epoch_boundary(engine_slot: u64, current_slot: u64, epoch_length: u64) -> (r: Option<u64>)
    requires
        epoch_length > 0,
    ensures
        r == epoch_begun(engine_slot, current_slot, epoch_length),
{
    let previous: u64 = engine_slot / epoch_length;
    let epoch: u64 = current_slot / epoch_length;
    if epoch > previous && epoch > 0 {
        Some(epoch)
    } else {
        None
    }
}

/// Every move of the slot across a multiple of the epoch length begins an epoch,
/// and no other does.
pub proof fn law_epochs_begin_at_multiples(engine_slot: u64, current_slot: u64, epoch_length: u64)
    requires
        epoch_length > 0,
        engine_slot <= current_slot,
    ensures
        epoch_begun(engine_slot, current_slot, epoch_length) is Some <==> exists|n: int|
            engine_slot < #[trigger] (n * epoch_length) <= current_slot,
{
    let l = epoch_length as int;
    let q = current_slot as int / l;
    let p = engine_slot as int / l;
    assert(q * l <= current_slot < (q + 1) * l) by (nonlinear_arith)
        requires
            l > 0,
            q == current_slot as int / l,
    ;
    assert(p * l <= engine_slot < (p + 1) * l) by (nonlinear_arith)
        requires
            l > 0,
            p == engine_slot as int / l,
    ;
    if q > p {
        assert((p + 1) * l <= q * l) by (nonlinear_arith)
            requires
                q > p,
                l > 0,
        ;
        assert(engine_slot < q * epoch_length <= current_slot);
        assert(p >= 0) by (nonlinear_arith)
            requires
                l > 0,
                p == engine_slot as int / l,
        ;
    }
    if exists|n: int| engine_slot < #[trigger] (n * epoch_length) <= current_slot {
        let n = choose|n: int| engine_slot < #[trigger] (n * epoch_length) <= current_slot;
        assert(p < n) by (nonlinear_arith)
            requires
                p * l <= engine_slot,
                engine_slot < n * l,
                l > 0,
        ;
        assert(n <= q) by (nonlinear_arith)
            requires
                n * l <= current_slot,
                current_slot < (q + 1) * l,
                l > 0,
        ;
    }
}

/// What a validator sends when an epoch begins.
#[derive(Clone, Copy, Debug, PartialEq, Eq)]
pub struct RotationPlan {
    /// The epoch for which it contributes randomness.
    pub randomness_for: u64,
    /// The epoch for which it contributes to the refresh of the key shares.
    pub refresh_for: u64,
    /// The epoch whose committee it helps to shares of the key, if it does.
    pub reshare_for: Option<u64>,
}

/// What a validator sends when `epoch` begins: randomness and a refresh for the
/// epoch after it, and a resharing for the epoch itself where it was in the
/// outgoing committee and holds a key share.
pub fn rotation_plan(epoch: u64, was_in: bool, has_key_share: bool) -> (r: RotationPlan)
    requires
        epoch < u64::MAX,
    ensures
        r.randomness_for == epoch + 1,
        r.refresh_for == epoch + 1,
        r.reshare_for == (if was_in && has_key_share {
            Some(epoch)
        } else {
            None
        }),
{
    RotationPlan {
        randomness_for: epoch + 1,
        refresh_for: epoch + 1,
        reshare_for: if was_in && has_key_share {
            Some(epoch)
        } else {
            None
        },
    }
}

/// Whether a validator may propose a block: none has been applied at the slot.
pub fn may_propose(current_slot: u64, head_slot: u64) -> (r: bool)
    ensures
        r == (current_slot > head_slot),
{
    current_slot > head_slot
}

/// Whether the proposals of a slot have been collected and the node votes.
pub fn voting_open(ms_into_slot: u64) -> (r: bool)
    ensures
        r == (ms_into_slot >= PROPOSAL_WINDOW_MS),
{
    ms_into_slot >= PROPOSAL_WINDOW_MS
}

/// Whether a proposal has enough transactions for their access lists to be
/// inferred.
pub fn infers_access_lists(txs: usize) -> (r: bool)
    ensures
        r == (txs >= ACCESS_INFERENCE_MIN_TXS),
{
    txs >= ACCESS_INFERENCE_MIN_TXS
}

/// The transactions of a proposal: those that punish come first.
pub fn proposal_transactions(slash_txs: Vec<Transaction>, txs: Vec<Transaction>) -> (r: Vec<
    Transaction,
>)
    ensures
        r@ == slash_txs@ + txs@,
{
    let mut out = slash_txs;
    let mut rest = txs;
    out.append(&mut rest);
    out
}

/// What a proposal says of its lottery: the output, then the proof.
pub fn vrf_data(output: &Vec<u8>, proof_bytes: &Vec<u8>) -> (r: Vec<u8>)
    ensures
        r@ == output@ + proof_bytes@,
{
    let mut out = copy_bytes(output);
    let mut rest = copy_bytes(proof_bytes);
    out.append(&mut rest);
    out
}

/// The hashes that a compact block is made of: of the plaintext transactions, then
/// of the encrypted ones.
pub fn compact_hashes(plain: Vec<Key>, encrypted: Vec<Key>) -> (r: Vec<Key>)
    ensures
        r@ == plain@ + encrypted@,
{
    let mut out = plain;
    let mut rest = encrypted;
    out.append(&mut rest);
    out
}

/// Whether a proposal so far ahead means that blocks were missed, so that a peer
/// is asked for its tip.
pub fn polls_tip(slot: u64, head_slot: u64) -> (r: bool)
    ensures
        r == (slot > head_slot + 1),
{
    slot > head_slot.saturating_add(1)
}

/// What a transaction of a compact block turned out to be.
#[derive(Clone, Copy, Debug, PartialEq, Eq, Structural)]
pub enum TxKind {
    Plain,
    Encrypted,
    Unreadable,
}

/// What a transaction is: a plaintext one if it decodes as such, else an encrypted
/// one if it decodes as that.
pub fn tx_kind(decodes_plain: bool, decodes_encrypted: bool) -> (r: TxKind)
    ensures
        r == if decodes_plain {
            TxKind::Plain
        } else if decodes_encrypted {
            TxKind::Encrypted
        } else {
            TxKind::Unreadable
        },
{
    if decodes_plain {
        TxKind::Plain
    } else if decodes_encrypted {
        TxKind::Encrypted
    } else {
        TxKind::Unreadable
    }
}

/// The transactions of one kind, in their order.
pub open spec fn of_kind(txs: Seq<(TxKind, Vec<u8>)>, kind: TxKind) -> Seq<Seq<u8>>
    decreases txs.len(),
{
    if txs.len() == 0 {
        Seq::empty()
    } else if txs.last().0 == kind {
        of_kind(txs.drop_last(), kind).push(txs.last().1@)
    } else {
        of_kind(txs.drop_last(), kind)
    }
}

/// The two parts of a block's body, in their encodings.
pub struct BodyParts {
    pub plain: Vec<Vec<u8>>,
    pub encrypted: Vec<Vec<u8>>,
    /// The indices of the plaintext transactions, which form one group.
    pub group: Vec<usize>,
}

/// Sorts the transactions of a compact block; those that cannot be read are left
/// out. All the plaintext ones are executed as one group, in their order.
pub fn split_body(txs: &Vec<(TxKind, Vec<u8>)>) -> (r: BodyParts)
    ensures
        sync::bytes_list(r.plain@) == of_kind(txs@, TxKind::Plain),
        sync::bytes_list(r.encrypted@) == of_kind(txs@, TxKind::Encrypted),
        r.group@ == Seq::new(r.plain@.len(), |i: int| i as usize),
{
    let mut plain: Vec<Vec<u8>> = Vec::new();
    let mut encrypted: Vec<Vec<u8>> = Vec::new();
    let mut group: Vec<usize> = Vec::new();
    let mut i: usize = 0;
    assert(txs@.take(0) =~= Seq::<(TxKind, Vec<u8>)>::empty());
    assert(sync::bytes_list(plain@) =~= Seq::<Seq<u8>>::empty());
    while i < txs.len()
        invariant
            i <= txs@.len(),
            plain@.len() <= i,
            sync::bytes_list(plain@) == of_kind(txs@.take(i as int), TxKind::Plain),
            sync::bytes_list(encrypted@) == of_kind(txs@.take(i as int), TxKind::Encrypted),
            group@ == Seq::new(plain@.len(), |k: int| k as usize),
        decreases txs@.len() - i,
    {
        let ghost t = txs@.take(i + 1);
        let ghost p0 = plain@;
        let ghost e0 = encrypted@;
        assert(t.drop_last() =~= txs@.take(i as int));
        assert(t.last() == txs@[i as int]);
        match txs[i].0 {
            TxKind::Plain => {
                group.push(plain.len());
                plain.push(copy_bytes(&txs[i].1));
                assert(sync::bytes_list(plain@) =~= sync::bytes_list(p0).push(txs@[i as int].1@));
            },
            TxKind::Encrypted => {
                encrypted.push(copy_bytes(&txs[i].1));
                assert(sync::bytes_list(encrypted@) =~= sync::bytes_list(e0).push(
                    txs@[i as int].1@,
                ));
            },
            TxKind::Unreadable => {},
        }
        assert(group@ =~= Seq::new(plain@.len(), |k: int| k as usize));
        i = i + 1;
    }
    assert(txs@.take(i as int) =~= txs@);
    BodyParts { plain, encrypted, group }
}

/// What an inclusion audit leads to.
#[derive(Clone, Copy, Debug, PartialEq, Eq, Structural)]
pub enum InclusionVerdict {
    Clean,
    /// Take note of it.
    Observe,
    /// Do not vote for the slot.
    Abstain,
}

/// What an inclusion audit leads to: a validator abstains only where the committee
/// can spare its vote.
pub fn inclusion_verdict(is_clean: bool, committee_size: usize) -> (r: InclusionVerdict)
    ensures
        r == if is_clean {
            InclusionVerdict::Clean
        } else if committee_size >= MEV_INCLUSION_MIN_ENFORCEMENT_COMMITTEE {
            InclusionVerdict::Abstain
        } else {
            InclusionVerdict::Observe
        },
{
    if is_clean {
        InclusionVerdict::Clean
    } else if committee_size >= MEV_INCLUSION_MIN_ENFORCEMENT_COMMITTEE {
        InclusionVerdict::Abstain
    } else {
        InclusionVerdict::Observe
    }
}

/// Whether the encrypted transactions of an applied block are to be decrypted:
/// there are some, the node holds a key share, no decryptor works on the slot yet,
/// the block commits to them, and there is an engine.
pub fn kicks_decryption(
    encrypted_txs: usize,
    has_key_share: bool,
    already_pending: bool,
    tx_root_ok: bool,
    has_engine: bool,
) -> (r: bool)
    ensures
        r == (encrypted_txs > 0 && has_key_share && !already_pending && tx_root_ok && has_engine),
{
    encrypted_txs > 0 && has_key_share && !already_pending && tx_root_ok && has_engine
}

/// The slots whose decryptors are short of shares, in their order.
pub open spec fn short_of_shares(decryptors: Seq<(u64, bool)>) -> Seq<u64>
    decreases decryptors.len(),
{
    if decryptors.len() == 0 {
        Seq::empty()
    } else if decryptors.last().1 {
        short_of_shares(decryptors.drop_last())
    } else {
        short_of_shares(decryptors.drop_last()).push(decryptors.last().0)
    }
}

/// The slots for which the node sends its shares once more; `decryptors` gives
/// each slot, and whether its decryptor has all it needs.
pub fn stuck_slots(decryptors: &Vec<(u64, bool)>) -> (r: Vec<u64>)
    ensures
        r@ == short_of_shares(decryptors@),
{
    let mut out: Vec<u64> = Vec::new();
    let mut i: usize = 0;
    assert(decryptors@.take(0) =~= Seq::<(u64, bool)>::empty());
    while i < decryptors.len()
        invariant
            i <= decryptors@.len(),
            out@ == short_of_shares(decryptors@.take(i as int)),
        decreases decryptors@.len() - i,
    {
        let ghost t = decryptors@.take(i + 1);
        assert(t.drop_last() =~= decryptors@.take(i as int));
        assert(t.last() == decryptors@[i as int]);
        if !decryptors[i].1 {
            out.push(decryptors[i].0);
        }
        i = i + 1;
    }
    assert(decryptors@.take(i as int) =~= decryptors@);
    out
}

/// The address to dial of a peer that was discovered: none where it is connected
/// or has the lower id; else the first that is on this host, or else the first.
/// `loopback` says of each address whether it is on this host.
pub fn dial_choice(connected: bool, local_is_lower: bool, loopback: &Vec<bool>) -> (r: Option<usize>)
    ensures
        match r {
            Some(i) => {
                &&& !connected && local_is_lower
                &&& i < loopback@.len()
                &&& (forall|j: int| 0 <= j < i ==> !#[trigger] loopback@[j])
                &&& loopback@[i as int] || (i == 0 && forall|j: int|
                    0 <= j < loopback@.len() ==> !#[trigger] loopback@[j])
            },
            None => connected || !local_is_lower || loopback@.len() == 0,
        },
{
    if connected || !local_is_lower || loopback.len() == 0 {
        return None;
    }
    let mut i: usize = 0;
    while i < loopback.len()
        invariant
            i <= loopback@.len(),
            !connected && local_is_lower,
            forall|j: int| 0 <= j < i ==> !#[trigger] loopback@[j],
        decreases loopback@.len() - i,
    {
        if loopback[i] {
            return Some(i);
        }
        i = i + 1;
    }
    Some(0)
}

/// The address to dial of a peer that was discovered: none where it is connected,
/// where its id is not above the own one, or where an id is none; else the first
/// that is on this host, or else the first. Of two nodes that discover each other
/// at most one dials.
pub fn dial_address(connected: bool, local: &str, peer: &str, addresses: &Vec<String>) -> (r: Option<
    usize,
>)
    ensures
        match r {
            Some(i) => {
                &&& !connected
                &&& peer_book::peer_id_of(local@) is Some && peer_book::peer_id_of(peer@) is Some
                &&& peer_book::peer_id_below(local@, peer@)
                &&& !peer_book::peer_id_below(peer@, local@)
                &&& i < addresses@.len()
                &&& forall|j: int|
                    0 <= j < i ==> !peer_book::is_loopback((#[trigger] addresses@[j])@)
                &&& peer_book::is_loopback(addresses@[i as int]@) || (i == 0 && forall|j: int|
                    0 <= j < addresses@.len() ==> !peer_book::is_loopback(
                        (#[trigger] addresses@[j])@,
                    ))
            },
            None => connected || peer_book::peer_id_of(local@) is None
                || peer_book::peer_id_of(peer@) is None || !peer_book::peer_id_below(local@, peer@)
                || addresses@.len() == 0,
        },
{
    let lower: bool = match peer_book::orders_below(local, peer) {
        Some(b) => b,
        None => false,
    };
    let mut loopback: Vec<bool> = Vec::new();
    let mut i: usize = 0;
    while i < addresses.len()
        invariant
            i <= addresses@.len(),
            loopback@.len() == i,
            forall|j: int|
                0 <= j < i ==> #[trigger] loopback@[j] == peer_book::is_loopback(addresses@[j]@),
        decreases addresses@.len() - i,
    {
        loopback.push(peer_book::on_this_host(addresses[i].as_str()));
        i = i + 1;
    }
    let r = dial_choice(connected, lower, &loopback);
    assert forall|j: int| 0 <= j < addresses@.len() implies peer_book::is_loopback(
        (#[trigger] addresses@[j])@,
    ) == loopback@[j] by {}
    r
}

/// Whether messages that were kept for a channel are sent when somebody subscribes
/// to it: only those of the consensus and of the blocks are kept.
pub fn replays(channel: Option<Channel>) -> (r: bool)
    ensures
        r == (channel == Some(Channel::Consensus) || channel == Some(Channel::Blocks)),
{
    match channel {
        Some(Channel::Consensus) => true,
        Some(Channel::Blocks) => true,
        _ => false,
    }
}

/// Takes over the root of a block's writes; `reply` is the tree's answer to them,
/// and is not looked at where there were none.
pub fn commit_jmt_writes(state: &mut StateManager, writes: usize, reply: TreeReply)
    requires
        old(state).wf(),
    ensures
        final(state).wf(),
        final(state)@ == (StateModel {
            root: if writes > 0 {
                state_manager::root_after(old(state)@.root, reply)
            } else {
                old(state)@.root
            },
            ..old(state)@
        }),
{
    if writes == 0 {
        return ;
    }
    if let Ok(root) = StateManager::commit_writes_to_smt(reply) {
        state.set_root(root);
    }
}

/// The books that a block changes.
pub struct NodeBooks {
    pub sync: ChainSync,
    pub receipts: ReceiptStore,
    pub pool: PendingPool,
    pub buffers: BlockBuffers,
}

/// What the books hold.
#[verifier::ext_equal]
pub struct BooksModel {
    pub sync: SyncModel,
    pub receipts: receipt_store::ReceiptModel,
    pub pool: mempool::PoolModel,
    pub buffers: buffers::BufferModel,
}

impl View for NodeBooks {
    type V = BooksModel;

    open spec fn view(&self) -> BooksModel {
        BooksModel {
            sync: self.sync@,
            receipts: self.receipts@,
            pool: self.pool@,
            buffers: self.buffers@,
        }
    }
}

/// The sync coordinator after a block of `slot`.
pub open spec fn synced_to(m: SyncModel, slot: u64) -> SyncModel {
    let manager = SyncManager {
        local_tip: sync::max_slot(m.manager.local_tip, slot),
        ..m.manager
    };
    SyncModel { manager, initial_sync_done: m.initial_sync_done || !manager.behind(), ..m }
}

/// The receipts after a block of `slot`; one that left none is not listed.
pub open spec fn with_block_receipts(
    m: receipt_store::ReceiptModel,
    slot: u64,
    receipts: Seq<Receipt>,
) -> receipt_store::ReceiptModel {
    if receipts.len() > 0 {
        receipt_store::after_block(m, slot, receipts)
    } else {
        m
    }
}

/// The books after a certified block was applied.
pub open spec fn after_canonical(
    m: BooksModel,
    slot: u64,
    hash: Key,
    tx_hashes: Seq<Key>,
    receipts: Seq<Receipt>,
) -> BooksModel {
    BooksModel {
        sync: synced_to(m.sync, slot),
        receipts: with_block_receipts(m.receipts, slot, receipts),
        pool: mempool::PoolModel {
            txs: m.pool.txs.remove_keys(tx_hashes.to_set()),
            times: m.pool.times.remove_keys(tx_hashes.to_set()),
            index: m.pool.index.remove_keys(tx_hashes.to_set()),
        },
        buffers: buffers::BufferModel { bodies: m.buffers.bodies.remove(hash), ..m.buffers },
    }
}

/// The receipts after the blocks of a batch, in their order.
pub open spec fn with_batch(
    m: receipt_store::ReceiptModel,
    batch: Seq<(u64, Vec<Receipt>)>,
) -> receipt_store::ReceiptModel
    decreases batch.len(),
{
    if batch.len() == 0 {
        m
    } else {
        receipt_store::after_block(
            with_batch(m, batch.drop_last()),
            batch.last().0,
            batch.last().1@,
        )
    }
}

impl NodeBooks {
    /// Each book keeps its invariant.
    pub open spec fn wf(&self) -> bool {
        &&& self.sync.wf()
        &&& self.receipts.wf()
        &&& self.pool.wf()
        &&& self.buffers.wf()
    }

    /// Empty books of a node whose chain is at `head_slot`.
    pub fn new(head_slot: u64) -> (b: Self)
        ensures
            b.wf(),
            b@.sync == (SyncModel {
                manager: SyncManager { local_tip: head_slot, network_tip: 0 },
                pending: Set::empty(),
                initial_sync_done: false,
                chunks: Seq::empty(),
                expected_root: None,
                total_chunks: 0,
                head_slot: 0,
                retries: 0,
            }),
            b@.receipts == (receipt_store::ReceiptModel {
                receipts: Map::empty(),
                included: Map::empty(),
                slots: Map::empty(),
            }),
            b@.pool == (mempool::PoolModel {
                txs: Map::empty(),
                times: Map::empty(),
                index: Map::empty(),
            }),
            b@.buffers == (buffers::BufferModel {
                competing: Map::empty(),
                bodies: Map::empty(),
                bundles: Map::empty(),
                shares: Map::empty(),
            }),
    {
        let mut sync = ChainSync::new();
        sync.resume_at(head_slot);
        NodeBooks {
            sync,
            receipts: ReceiptStore::new(),
            pool: PendingPool::new(),
            buffers: BlockBuffers::new(),
        }
    }

    fn keep_receipts(&mut self, slot: u64, receipts: Vec<Receipt>)
        requires
            old(self).wf(),
        ensures
            final(self).wf(),
            final(self)@ == (BooksModel {
                receipts: with_block_receipts(old(self)@.receipts, slot, receipts@),
                ..old(self)@
            }),
    {
        if receipts.len() > 0 {
            self.receipts.insert_block_receipts(slot, receipts);
        }
    }

    /// A certified block was applied: the tip moves, its receipts are kept, its
    /// transactions are no longer pending, and it no longer waits.
    pub fn on_canonical_applied(
        &mut self,
        slot: u64,
        hash: &Key,
        tx_hashes: &Vec<Key>,
        receipts: Vec<Receipt>,
    )
        requires
            old(self).wf(),
        ensures
            final(self).wf(),
            final(self)@ == after_canonical(old(self)@, slot, *hash, tx_hashes@, receipts@),
    {
        self.sync.on_block_processed(slot);
        self.keep_receipts(slot, receipts);
        self.pool.remove_committed(tx_hashes);
        self.buffers.drop_body(hash);
    }

    /// A gossiped block was applied: the tip moves, its receipts are kept and its
    /// transactions are no longer pending.
    pub fn on_gossip_applied(&mut self, slot: u64, tx_hashes: &Vec<Key>, receipts: Vec<Receipt>)
        requires
            old(self).wf(),
        ensures
            final(self).wf(),
            final(self)@ == (BooksModel {
                sync: synced_to(old(self)@.sync, slot),
                receipts: with_block_receipts(old(self)@.receipts, slot, receipts@),
                pool: mempool::PoolModel {
                    txs: old(self)@.pool.txs.remove_keys(tx_hashes@.to_set()),
                    times: old(self)@.pool.times.remove_keys(tx_hashes@.to_set()),
                    index: old(self)@.pool.index,
                },
                buffers: old(self)@.buffers,
            }),
    {
        self.sync.on_block_processed(slot);
        self.keep_receipts(slot, receipts);
        self.pool.remove_processed(tx_hashes);
    }

    /// The node's own fallback block was applied: the tip moves.
    pub fn on_fallback_applied(&mut self, slot: u64)
        requires
            old(self).wf(),
        ensures
            final(self).wf(),
            final(self)@ == (BooksModel { sync: synced_to(old(self)@.sync, slot), ..old(self)@ }),
    {
        self.sync.on_block_processed(slot);
    }

    /// Decrypted transactions of a block were executed: their receipts are kept.
    pub fn on_decrypted(&mut self, slot: u64, receipts: Vec<Receipt>)
        requires
            old(self).wf(),
        ensures
            final(self).wf(),
            final(self)@ == (BooksModel {
                receipts: with_block_receipts(old(self)@.receipts, slot, receipts@),
                ..old(self)@
            }),
    {
        self.keep_receipts(slot, receipts);
    }

    /// Blocks from the sync were applied: their receipts are kept.
    pub fn on_synced(&mut self, batch: Vec<(u64, Vec<Receipt>)>)
        requires
            old(self).wf(),
        ensures
            final(self).wf(),
            final(self)@ == (BooksModel {
                receipts: with_batch(old(self)@.receipts, batch@),
                ..old(self)@
            }),
    {
        let ghost all = batch@;
        let ghost m0 = self@;
        let mut rest = batch;
        let ghost mut i: int = 0;
        assert(all.skip(0) =~= all);
        assert(all.take(0) =~= Seq::<(u64, Vec<Receipt>)>::empty());
        while rest.len() > 0
            invariant
                self.wf(),
                0 <= i <= all.len(),
                rest@ == all.skip(i),
                self@ == (BooksModel { receipts: with_batch(m0.receipts, all.take(i)), ..m0 }),
            decreases rest@.len(),
        {
            let (slot, receipts) = rest.remove(0);
            self.receipts.insert_block_receipts(slot, receipts);
            proof {
                assert(all.take(i + 1).drop_last() =~= all.take(i));
                assert(all.take(i + 1).last() == all[i]);
                assert(rest@ =~= all.skip(i + 1));
                i = i + 1;
            }
        }
        assert(all.take(i) =~= all);
    }

    /// Transactions of a compact block are missing: its slot is one to sync to, and
    /// the result is the request to send for it, if one is due.
    pub fn on_missing_transactions(
        &mut self,
        slot: u64,
        has_peer: bool,
        next_blocks: Option<(u64, u32)>,
    ) -> (r: Option<SyncReq>)
        requires
            old(self).wf(),
        ensures
            final(self).wf(),
            ({
                let m = SyncModel {
                    manager: SyncManager {
                        network_tip: sync::max_slot(old(self)@.sync.manager.network_tip, slot),
                        ..old(self)@.sync.manager
                    },
                    ..old(self)@.sync
                };
                let (after, req) = sync::next_batch(m, has_peer, next_blocks);
                r == req && final(self)@ == (BooksModel { sync: after, ..old(self)@ })
            }),
    {
        self.sync.on_peer_tip(slot);
        self.sync.request_next_batch(has_peer, next_blocks)
    }

    /// The request with which a sync that is under way goes on, if one is due: for
    /// the next chunk of a snapshot, or else for the next batch.
    pub fn continue_sync(&mut self, has_peer: bool, next_blocks: Option<(u64, u32)>) -> (r: Option<
        SyncReq,
    >)
        requires
            old(self).wf(),
        ensures
            final(self).wf(),
            ({
                let m = old(self)@.sync;
                if m.total_chunks > 0 && m.chunks.len() < m.total_chunks {
                    &&& final(self)@ == old(self)@
                    &&& r == if has_peer {
                        Some(
                            SyncReq::GetStateSnapshotChunk {
                                chunk_index: m.chunks.len() as u32,
                                chunk_size: sync::SNAPSHOT_CHUNK_SIZE,
                            },
                        )
                    } else {
                        None
                    }
                } else {
                    let (after, req) = sync::next_batch(m, has_peer, next_blocks);
                    r == req && final(self)@ == (BooksModel { sync: after, ..old(self)@ })
                }
            }),
    {
        match self.sync.needs_next_chunk() {
            Some(index) => if has_peer {
                Some(ChainSync::request_next_chunk(index))
            } else {
                None
            },
            None => self.sync.request_next_batch(has_peer, next_blocks),
        }
    }

    /// Lets go of what has been pending or waiting for too long, and says how many
    /// transactions that were. `now` is in nanoseconds.
    pub fn maintain(&mut self, now: u64, head_slot: u64) -> (evicted: usize)
        requires
            old(self).wf(),
        ensures
            final(self).wf(),
            ({
                let stale = mempool::expired(old(self)@.pool.times, now);
                &&& evicted == stale.len()
                &&& final(self)@ == (BooksModel {
                    pool: mempool::PoolModel {
                        txs: old(self)@.pool.txs.remove_keys(stale),
                        times: old(self)@.pool.times.remove_keys(stale),
                        index: old(self)@.pool.index.remove_keys(stale),
                    },
                    buffers: buffers::maintained(old(self)@.buffers, head_slot),
                    ..old(self)@
                })
            }),
    {
        let evicted: usize = self.pool.sweep(now);
        self.buffers.maintain(head_slot);
        evicted
    }
}

/// A transaction of an applied block is not pending any more, and no other one is
/// touched; a receipt of the block is found under its transaction, at its slot; the
/// block waits no longer, and the tip is at least at its slot.
pub proof fn law_applied_blocks_are_settled(
    m: BooksModel,
    slot: u64,
    hash: Key,
    tx_hashes: Seq<Key>,
    receipts: Seq<Receipt>,
)
    ensures
        ({
            let after = after_canonical(m, slot, hash, tx_hashes, receipts);
            &&& forall|k: Key|
                tx_hashes.contains(k) ==> !#[trigger] after.pool.txs.contains_key(k)
                    && !after.pool.times.contains_key(k) && !after.pool.index.contains_key(k)
            &&& forall|k: Key|
                !tx_hashes.contains(k) && #[trigger] m.pool.txs.contains_key(k)
                    ==> after.pool.txs.contains_key(k) && after.pool.txs[k] == m.pool.txs[k]
            &&& forall|k: Key|
                receipt_store::hashes_of(receipts).contains(k)
                    ==> #[trigger] after.receipts.receipts.contains_key(k)
                    && receipts.contains(after.receipts.receipts[k])
                    && after.receipts.receipts[k].tx_hash == k && after.receipts.included[k] == slot
            &&& !after.buffers.bodies.contains_key(hash)
            &&& after.sync.manager.local_tip >= slot
            &&& after.sync.manager.local_tip >= m.sync.manager.local_tip
        }),
{
    let after = after_canonical(m, slot, hash, tx_hashes, receipts);
    assert forall|k: Key| receipt_store::hashes_of(receipts).contains(k) implies #[trigger] after.receipts.receipts.contains_key(
        k,
    ) && receipts.contains(after.receipts.receipts[k]) && after.receipts.receipts[k].tx_hash == k
        && after.receipts.included[k] == slot by {
        let i = receipt_store::lemma_last_of(receipts, k);
        receipt_store::law_inserted_receipts_are_found(m.receipts, slot, receipts, i);
    }
}

/// Decrypted transactions join the others of their block: the receipts of both
/// are kept, and the slot lists both.
pub proof fn law_decrypted_receipts_join_their_block(
    m: receipt_store::ReceiptModel,
    slot: u64,
    plain: Seq<Receipt>,
    decrypted: Seq<Receipt>,
    k: Key,
)
    requires
        receipt_store::consistent(m),
        receipt_store::hashes_of(plain).contains(k) || receipt_store::hashes_of(
            decrypted,
        ).contains(k),
    ensures
        ({
            let after = with_block_receipts(with_block_receipts(m, slot, plain), slot, decrypted);
            &&& after.receipts.contains_key(k)
            &&& after.slots.contains_key(slot)
            &&& after.slots[slot].contains(k)
        }),
{
    let mid = with_block_receipts(m, slot, plain);
    if receipt_store::hashes_of(plain).contains(k) {
        receipt_store::law_receipts_are_listed(m, slot, plain);
        receipt_store::law_slots_keep_what_they_list(m, slot, plain, k);
        if decrypted.len() > 0 {
            receipt_store::law_listed_receipts_are_kept(mid, slot, decrypted, slot, k);
            receipt_store::law_slots_keep_what_they_list(mid, slot, decrypted, k);
        } else {
            let i = receipt_store::lemma_last_of(plain, k);
            receipt_store::law_inserted_receipts_are_found(m, slot, plain, i);
        }
    } else {
        let i = receipt_store::lemma_last_of(decrypted, k);
        receipt_store::law_inserted_receipts_are_found(mid, slot, decrypted, i);
        receipt_store::law_slots_keep_what_they_list(mid, slot, decrypted, k);
    }
}

} // verus!
