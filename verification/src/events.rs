//! What the node does with the events of its network: which payloads are decoded
//! at all, which peers are held responsible for a bad one, and what follows from
//! the outcome.
//!
//! An event is handled in two steps. The first looks at where a payload came from
//! and how it is tagged, and says what to do with it. That work (decoding,
//! verifying signatures, asking the consensus engine) is done by the caller, whose
//! report of it the second step turns into an action.
use vstd::prelude::*;

use crate::keymap;
use crate::keymap::{key_eq, zero_key, Key};
use crate::rpc::{AuthKeys, DEVNET_CHAIN_ID};
use crate::sync::ChainSync;
use crate::text;
use crate::text::{join, str_eq, to_decimal};

verus! {

/// How many bad messages a peer may send before some of its messages are dropped
/// unread.
pub const SPAM_THRESHOLD: u64 = 5;

/// The channel that a gossip message came on.
#[derive(Clone, Copy, Debug, PartialEq, Eq, Structural)]
pub enum Channel {
    Transactions,
    EncryptedTransactions,
    Blocks,
    Consensus,
    Sync,
}

/// What the first byte of a payload says of it.
#[derive(Clone, Copy, Debug, PartialEq, Eq, Structural)]
pub enum WireTag {
    /// There is no first byte.
    Empty,
    CompactBlock,
    EncryptedTxBundle,
    FinalityVote,
    FinalityCheckpoint,
    RandomnessShare,
    SlashEvidence,
    PssRefresh,
    CommitteeResharing,
    DecryptionShares,
    Other,
}

/// What is known of a peer.
#[derive(Clone, Copy, Debug, PartialEq, Eq, Structural)]
pub struct PeerStanding {
    /// Whether the peer proved that it holds some validator key.
    pub attested: bool,
    /// Whether that key is one of the committee.
    pub authorized: bool,
    /// How many bad messages it has sent.
    pub invalid_messages: u64,
}

/// Whether a peer is known to be no member of the committee.
pub open spec fn is_outsider(p: PeerStanding) -> bool {
    p.attested && !p.authorized
}

/// The count of bad messages after one more.
pub open spec fn one_more(invalid_messages: u64) -> u64 {
    if invalid_messages == u64::MAX {
        u64::MAX
    } else {
        (invalid_messages + 1) as u64
    }
}

/// The count of bad messages after one more.
pub fn penalized(invalid_messages: u64) -> (r: u64)
    ensures
        r == one_more(invalid_messages),
{
    invalid_messages.saturating_add(1)
}

/// What to do with a gossip message.
#[derive(Clone, Copy, Debug, PartialEq, Eq, Structural)]
pub enum GossipRoute {
    /// Nothing.
    Ignore,
    /// Drop it, and hold the peer that forwarded it responsible.
    DropRelayed,
    /// Drop it, and hold the peer that it came from responsible.
    DropOriginated,
    /// Drop it unread: its forwarder has sent too many bad messages.
    DropSpam,
    Transaction,
    EncryptedTransaction,
    CompactBlock,
    EncryptedTxBundle,
    FullBlock,
    FinalityVote,
    FinalityCheckpoint,
    RandomnessShare,
    SlashEvidence,
    PssRefresh,
    CommitteeResharing,
    DecryptionShares,
    ConsensusMessage,
}

/// What is done with a consensus payload that no one was held responsible for.
pub open spec fn consensus_route(tag: WireTag, forwarder: PeerStanding) -> GossipRoute {
    match tag {
        WireTag::FinalityVote => GossipRoute::FinalityVote,
        WireTag::FinalityCheckpoint => GossipRoute::FinalityCheckpoint,
        WireTag::RandomnessShare => GossipRoute::RandomnessShare,
        WireTag::SlashEvidence => if forwarder.invalid_messages >= SPAM_THRESHOLD {
            GossipRoute::DropSpam
        } else {
            GossipRoute::SlashEvidence
        },
        WireTag::PssRefresh => GossipRoute::PssRefresh,
        WireTag::CommitteeResharing => GossipRoute::CommitteeResharing,
        WireTag::DecryptionShares => if forwarder.invalid_messages >= SPAM_THRESHOLD {
            GossipRoute::DropSpam
        } else {
            GossipRoute::DecryptionShares
        },
        _ => GossipRoute::ConsensusMessage,
    }
}

/// What is done with a gossip message. Consensus messages are for validators,
/// and not from peers known to be outside the committee.
pub open spec fn gossip_route(
    channel: Option<Channel>,
    tag: WireTag,
    is_validator: bool,
    forwarder: PeerStanding,
    originator: Option<PeerStanding>,
) -> GossipRoute {
    match channel {
        Some(Channel::Transactions) => GossipRoute::Transaction,
        Some(Channel::EncryptedTransactions) => GossipRoute::EncryptedTransaction,
        Some(Channel::Blocks) => match tag {
            WireTag::CompactBlock => GossipRoute::CompactBlock,
            WireTag::EncryptedTxBundle => GossipRoute::EncryptedTxBundle,
            _ => GossipRoute::FullBlock,
        },
        Some(Channel::Consensus) => if !is_validator {
            GossipRoute::Ignore
        } else if is_outsider(forwarder) {
            GossipRoute::DropRelayed
        } else if originator is Some && is_outsider(originator->0) {
            GossipRoute::DropOriginated
        } else {
            consensus_route(tag, forwarder)
        },
        Some(Channel::Sync) => GossipRoute::Ignore,
        None => GossipRoute::Ignore,
    }
}

/// Says what to do with a gossip message.
pub fn route_gossip(
    channel: Option<Channel>,
    tag: WireTag,
    is_validator: bool,
    forwarder: PeerStanding,
    originator: Option<PeerStanding>,
) -> (r: GossipRoute)
    ensures
        r == gossip_route(channel, tag, is_validator, forwarder, originator),
{
    match channel {
        Some(Channel::Transactions) => GossipRoute::Transaction,
        Some(Channel::EncryptedTransactions) => GossipRoute::EncryptedTransaction,
        Some(Channel::Blocks) => match tag {
            WireTag::CompactBlock => GossipRoute::CompactBlock,
            WireTag::EncryptedTxBundle => GossipRoute::EncryptedTxBundle,
            _ => GossipRoute::FullBlock,
        },
        Some(Channel::Consensus) => {
            if !is_validator {
                return GossipRoute::Ignore;
            }
            if forwarder.attested && !forwarder.authorized {
                return GossipRoute::DropRelayed;
            }
            if let Some(source) = originator {
                if source.attested && !source.authorized {
                    return GossipRoute::DropOriginated;
                }
            }
            route_consensus(tag, forwarder)
        },
        Some(Channel::Sync) => GossipRoute::Ignore,
        None => GossipRoute::Ignore,
    }
}

fn route_consensus(tag: WireTag, forwarder: PeerStanding) -> (r: GossipRoute)
    ensures
        r == consensus_route(tag, forwarder),
{
    let spam: bool = forwarder.invalid_messages >= SPAM_THRESHOLD;
    match tag {
        WireTag::FinalityVote => GossipRoute::FinalityVote,
        WireTag::FinalityCheckpoint => GossipRoute::FinalityCheckpoint,
        WireTag::RandomnessShare => GossipRoute::RandomnessShare,
        WireTag::SlashEvidence => if spam {
            GossipRoute::DropSpam
        } else {
            GossipRoute::SlashEvidence
        },
        WireTag::PssRefresh => GossipRoute::PssRefresh,
        WireTag::CommitteeResharing => GossipRoute::CommitteeResharing,
        WireTag::DecryptionShares => if spam {
            GossipRoute::DropSpam
        } else {
            GossipRoute::DecryptionShares
        },
        _ => GossipRoute::ConsensusMessage,
    }
}

/// Whether the signature of a gossiped transaction is to be verified: off
/// development networks, where there is a signature and the sender's account
/// names one key. The result is that key.
pub fn gossip_signature_key<'a>(
    chain_id: u64,
    signature: &[u8],
    auth_keys: Option<&'a AuthKeys>,
) -> (r: Option<&'a Vec<u8>>)
    ensures
        match r {
            Some(pk) => chain_id != DEVNET_CHAIN_ID && signature@.len() > 0 && auth_keys == Some(
                &AuthKeys::Single(*pk),
            ),
            None => chain_id == DEVNET_CHAIN_ID || signature@.len() == 0 || !(auth_keys is Some
                && auth_keys->0 is Single),
        },
{
    if chain_id == DEVNET_CHAIN_ID || signature.len() == 0 {
        return None;
    }
    match auth_keys {
        Some(AuthKeys::Single(pk)) => Some(pk),
        _ => None,
    }
}

/// Whether a contribution to a key refresh or a resharing is for the epoch that
/// is under way.
pub fn contribution_is_current(epoch: u64, active: u64) -> (r: bool)
    ensures
        r == (epoch == active),
{
    epoch == active
}

/// Whether the certificate in a new-view message replaces the highest one known.
pub fn replaces_highest_qc(their_slot: u64, highest_slot: u64) -> (r: bool)
    ensures
        r == (their_slot > highest_slot),
{
    their_slot > highest_slot
}

/// The parent of a fallback proposal: the block at the head, or zero where its
/// header is not known.
pub fn fallback_parent(head_hash: Option<Key>) -> (r: Key)
    ensures
        r == match head_hash {
            Some(h) => h,
            None => keymap::zeros(),
        },
{
    match head_hash {
        Some(h) => h,
        None => zero_key(),
    }
}

/// What a header is checked against.
#[derive(Clone, Copy)]
pub struct ParentCheck {
    pub hash: Option<Key>,
    pub timestamp: Option<u64>,
}

/// What the header of a block is checked against: the genesis for slot 1, else
/// the header of the slot before, given as its hash and timestamp where it is
/// known.
pub fn parent_check(slot: u64, genesis_hash: Key, parent: Option<(Key, u64)>) -> (r: ParentCheck)
    ensures
        r == if slot == 1 {
            ParentCheck { hash: Some(genesis_hash), timestamp: None }
        } else {
            match parent {
                Some((h, t)) => ParentCheck { hash: Some(h), timestamp: Some(t) },
                None => ParentCheck { hash: None, timestamp: None },
            }
        },
{
    if slot == 1 {
        ParentCheck { hash: Some(genesis_hash), timestamp: None }
    } else {
        match parent {
            Some((h, t)) => ParentCheck { hash: Some(h), timestamp: Some(t) },
            None => ParentCheck { hash: None, timestamp: None },
        }
    }
}

/// The committee that the headers of gossiped blocks are validated with: the
/// engine's where there is one, else the one known from the genesis; none where
/// that is empty.
pub fn validation_committee<'a>(
    engine_keys: Option<&'a Vec<Vec<u8>>>,
    genesis_keys: &'a Vec<Vec<u8>>,
) -> (r: Option<&'a Vec<Vec<u8>>>)
    ensures
        ({
            let keys = match engine_keys {
                Some(k) => k,
                None => genesis_keys,
            };
            r == if keys@.len() == 0 {
                None::<&Vec<Vec<u8>>>
            } else {
                Some(keys)
            }
        }),
{
    let keys = match engine_keys {
        Some(k) => k,
        None => genesis_keys,
    };
    if keys.len() == 0 {
        None
    } else {
        Some(keys)
    }
}

/// What became of a full block.
#[derive(Clone, Copy)]
pub enum BlockWork {
    /// It did not decode.
    Undecoded,
    /// A committee was known and the header did not pass.
    BadHeader,
    /// The body did not pass.
    BadBody,
    /// It was applied.
    Applied { slot: u64 },
    /// It passed the checks, and applying it failed. `local_hash` is the hash of
    /// the block held at its slot.
    Refused { slot: u64, hash: Key, head_slot: u64, local_hash: Option<Key> },
}

/// Whether a block competes with the one at the head: it is for the same slot,
/// and has another hash.
pub open spec fn competes(slot: u64, hash: Key, head_slot: u64, local_hash: Option<Key>) -> bool {
    slot == head_slot && local_hash is Some && local_hash->0 != hash
}

/// What became of a consensus message.
#[derive(Clone, Copy)]
pub enum ConsensusWork {
    /// It did not decode.
    Undecoded,
    /// A proposal was buffered; `evidence` says whether it revealed that its
    /// proposer proposed twice.
    Proposal { evidence: bool },
    /// A vote was counted; `certified` is the block that has a quorum with it.
    Vote { slot: u64, certified: Option<Key> },
    /// A timeout was counted. `quorum` says whether there is a quorum with it,
    /// and `proposal_built` whether this node proposes the fallback block.
    Timeout { quorum: bool, proposal_built: bool },
    /// A new view was taken note of.
    NewView,
}

/// What became of a gossip message.
#[derive(Clone, Copy)]
pub enum GossipWork {
    /// Nothing was done, or nothing follows from what was done.
    Ignored,
    /// The message was dropped for a peer outside the committee.
    DroppedRelayed,
    DroppedOriginated,
    /// `signature_valid` is the result of verifying, where that was called for.
    Transaction { decoded: bool, signature_valid: Option<bool> },
    EncryptedTransaction { decoded: bool },
    CompactBlock { decoded: bool },
    EncryptedTxBundle { decoded: bool },
    FullBlock(BlockWork),
    /// `cert_formed` says whether there is a quorum with the vote, and
    /// `has_checkpoint` whether a checkpoint came of it.
    FinalityVote { cert_formed: bool, has_checkpoint: bool },
    /// Whether the evidence decoded, was new and verified.
    SlashEvidence { ingested: bool },
    DecryptionShares { decoded: bool },
    Consensus(ConsensusWork),
}

/// How a consensus request is answered.
#[derive(Clone, Copy, Debug, PartialEq, Eq, Structural)]
pub enum ConsensusResp {
    Ack,
    DecodeError,
}

/// What the node does after an event.
#[derive(Clone, Copy, Debug, PartialEq, Eq)]
pub enum PostEventAction {
    Nothing,
    SendSyncResponse,
    SyncedBlocksApplied { continue_sync: bool },
    BroadcastConsensus,
    BroadcastConsensusMany,
    AcceptTransaction,
    AcceptEncryptedTransaction,
    AddPeerToKademlia,
    BlockProcessed { slot: u64 },
    ReconstructCompactBlock,
    AddDecryptionShares,
    BufferEncryptedBundle,
    ApplyCanonicalAfterQc { qc_slot: u64, qc_block_hash: Key },
    SendAuthResponse,
    BufferCompetingBlock,
    SendConsensusRrResponse { resp: ConsensusResp },
    SendConsensusRrResponseAndBroadcast,
    SendConsensusRrResponseAndApplyQcd { qc_slot: u64, qc_block_hash: Key },
    SendConsensusRrResponseAndAddShares,
    DisconnectStalePeer,
    /// The answer to a block request that could not be read.
    SendBlocksRrDecodeError,
    RecordPeerAndAuth,
    AddExplicitGossipPeer,
    ReplayCachedGossip,
}

/// Who is held responsible for an event.
#[derive(Clone, Copy, Debug, PartialEq, Eq, Structural)]
pub enum Blame {
    Nobody,
    /// The peer that forwarded or sent the payload.
    Sender,
    /// The peer that a forwarded message came from.
    Originator,
}

/// What follows from an event.
#[derive(Clone, Copy, Debug, PartialEq, Eq)]
pub struct EventOutcome {
    pub action: PostEventAction,
    pub blame: Blame,
}

/// An action with nobody to blame.
pub open spec fn doing(action: PostEventAction) -> EventOutcome {
    EventOutcome { action, blame: Blame::Nobody }
}

/// Nothing to do but to blame.
pub open spec fn blaming(blame: Blame) -> EventOutcome {
    EventOutcome { action: PostEventAction::Nothing, blame }
}

fn act(action: PostEventAction) -> (r: EventOutcome)
    ensures
        r == doing(action),
{
    EventOutcome { action, blame: Blame::Nobody }
}

/// What follows from a full block.
pub open spec fn block_action(work: BlockWork) -> PostEventAction {
    match work {
        BlockWork::Undecoded => PostEventAction::Nothing,
        BlockWork::BadHeader => PostEventAction::Nothing,
        BlockWork::BadBody => PostEventAction::Nothing,
        BlockWork::Applied { slot } => PostEventAction::BlockProcessed { slot },
        BlockWork::Refused { slot, hash, head_slot, local_hash } => if competes(
            slot,
            hash,
            head_slot,
            local_hash,
        ) {
            PostEventAction::BufferCompetingBlock
        } else {
            PostEventAction::Nothing
        },
    }
}

fn after_block(work: BlockWork) -> (r: PostEventAction)
    ensures
        r == block_action(work),
{
    match work {
        BlockWork::Undecoded => PostEventAction::Nothing,
        BlockWork::BadHeader => PostEventAction::Nothing,
        BlockWork::BadBody => PostEventAction::Nothing,
        BlockWork::Applied { slot } => PostEventAction::BlockProcessed { slot },
        BlockWork::Refused { slot, hash, head_slot, local_hash } => {
            if slot == head_slot {
                if let Some(held) = local_hash {
                    if !key_eq(&held, &hash) {
                        return PostEventAction::BufferCompetingBlock;
                    }
                }
            }
            PostEventAction::Nothing
        },
    }
}

/// What follows from a gossiped consensus message.
pub open spec fn consensus_action(work: ConsensusWork) -> PostEventAction {
    match work {
        ConsensusWork::Undecoded => PostEventAction::Nothing,
        ConsensusWork::Proposal { evidence } => if evidence {
            PostEventAction::BroadcastConsensusMany
        } else {
            PostEventAction::Nothing
        },
        ConsensusWork::Vote { slot, certified } => match certified {
            Some(h) => PostEventAction::ApplyCanonicalAfterQc { qc_slot: slot, qc_block_hash: h },
            None => PostEventAction::Nothing,
        },
        ConsensusWork::Timeout { quorum, proposal_built } => if quorum && proposal_built {
            PostEventAction::BroadcastConsensus
        } else {
            PostEventAction::Nothing
        },
        ConsensusWork::NewView => PostEventAction::Nothing,
    }
}

fn after_consensus(work: ConsensusWork) -> (r: PostEventAction)
    ensures
        r == consensus_action(work),
{
    match work {
        ConsensusWork::Proposal { evidence: true } => PostEventAction::BroadcastConsensusMany,
        ConsensusWork::Vote { slot, certified: Some(h) } => PostEventAction::ApplyCanonicalAfterQc {
            qc_slot: slot,
            qc_block_hash: h,
        },
        ConsensusWork::Timeout { quorum: true, proposal_built: true } =>
            PostEventAction::BroadcastConsensus,
        _ => PostEventAction::Nothing,
    }
}

/// What follows from a gossip message.
pub open spec fn gossip_outcome(work: GossipWork) -> EventOutcome {
    match work {
        GossipWork::Ignored => doing(PostEventAction::Nothing),
        GossipWork::DroppedRelayed => blaming(Blame::Sender),
        GossipWork::DroppedOriginated => blaming(Blame::Originator),
        GossipWork::Transaction { decoded, signature_valid } => doing(
            if decoded && signature_valid != Some(false) {
                PostEventAction::AcceptTransaction
            } else {
                PostEventAction::Nothing
            },
        ),
        GossipWork::EncryptedTransaction { decoded } => doing(
            if decoded {
                PostEventAction::AcceptEncryptedTransaction
            } else {
                PostEventAction::Nothing
            },
        ),
        GossipWork::CompactBlock { decoded } => doing(
            if decoded {
                PostEventAction::ReconstructCompactBlock
            } else {
                PostEventAction::Nothing
            },
        ),
        GossipWork::EncryptedTxBundle { decoded } => doing(
            if decoded {
                PostEventAction::BufferEncryptedBundle
            } else {
                PostEventAction::Nothing
            },
        ),
        GossipWork::FullBlock(b) => doing(block_action(b)),
        GossipWork::FinalityVote { cert_formed, has_checkpoint } => doing(
            if cert_formed && has_checkpoint {
                PostEventAction::BroadcastConsensus
            } else {
                PostEventAction::Nothing
            },
        ),
        GossipWork::SlashEvidence { ingested } => blaming(
            if ingested {
                Blame::Nobody
            } else {
                Blame::Sender
            },
        ),
        GossipWork::DecryptionShares { decoded } => if decoded {
            doing(PostEventAction::AddDecryptionShares)
        } else {
            blaming(Blame::Sender)
        },
        GossipWork::Consensus(c) => doing(consensus_action(c)),
    }
}

/// Says what follows from a gossip message.
pub fn after_gossip(work: GossipWork) -> (r: EventOutcome)
    ensures
        r == gossip_outcome(work),
{
    match work {
        GossipWork::Ignored => act(PostEventAction::Nothing),
        GossipWork::DroppedRelayed => EventOutcome {
            action: PostEventAction::Nothing,
            blame: Blame::Sender,
        },
        GossipWork::DroppedOriginated => EventOutcome {
            action: PostEventAction::Nothing,
            blame: Blame::Originator,
        },
        GossipWork::Transaction { decoded, signature_valid } => {
            let refused: bool = match signature_valid {
                Some(valid) => !valid,
                None => false,
            };
            act(
                if decoded && !refused {
                    PostEventAction::AcceptTransaction
                } else {
                    PostEventAction::Nothing
                },
            )
        },
        GossipWork::EncryptedTransaction { decoded: true } => act(
            PostEventAction::AcceptEncryptedTransaction,
        ),
        GossipWork::CompactBlock { decoded: true } => act(PostEventAction::ReconstructCompactBlock),
        GossipWork::EncryptedTxBundle { decoded: true } => act(
            PostEventAction::BufferEncryptedBundle,
        ),
        GossipWork::FullBlock(b) => act(after_block(b)),
        GossipWork::FinalityVote { cert_formed: true, has_checkpoint: true } => act(
            PostEventAction::BroadcastConsensus,
        ),
        GossipWork::SlashEvidence { ingested: false } => EventOutcome {
            action: PostEventAction::Nothing,
            blame: Blame::Sender,
        },
        GossipWork::DecryptionShares { decoded: true } => act(PostEventAction::AddDecryptionShares),
        GossipWork::DecryptionShares { decoded: false } => EventOutcome {
            action: PostEventAction::Nothing,
            blame: Blame::Sender,
        },
        GossipWork::Consensus(c) => act(after_consensus(c)),
        _ => act(PostEventAction::Nothing),
    }
}

/// Says how to go on after a sync response was taken in: there is more to do where
/// blocks left receipts or encrypted transactions behind, or where the sync is not
/// over.
pub fn after_sync(sync: &ChainSync, receipt_slots: usize, encrypted_blocks: usize) -> (r:
    PostEventAction)
    requires
        sync.wf(),
    ensures
        ({
            let more = (sync@.total_chunks > 0 && sync@.chunks.len() < sync@.total_chunks)
                || sync@.manager.behind();
            r == if receipt_slots > 0 || encrypted_blocks > 0 || more {
                PostEventAction::SyncedBlocksApplied { continue_sync: more }
            } else {
                PostEventAction::Nothing
            }
        }),
{
    let more: bool = sync.needs_next_chunk().is_some() || sync.is_syncing();
    if receipt_slots > 0 || more || encrypted_blocks > 0 {
        PostEventAction::SyncedBlocksApplied { continue_sync: more }
    } else {
        PostEventAction::Nothing
    }
}

/// The height that a validator aims at when its head is at `head_slot`.
pub fn target_after_sync(head_slot: u64) -> (r: u64)
    ensures
        r == if head_slot == u64::MAX {
            u64::MAX as int
        } else {
            head_slot + 1
        },
{
    head_slot.saturating_add(1)
}

/// What a request on the consensus protocol holds.
#[derive(Clone, Copy, Debug, PartialEq, Eq, Structural)]
pub enum ConsensusRequest {
    FinalityVote,
    ConsensusMessage,
    DecryptionShares,
    Unreadable,
}

/// Says what a request holds: by its tag, or else by which way it decodes.
pub fn route_consensus_request(tag: WireTag, decodes_as_consensus: bool, decodes_as_shares: bool)
    -> (r: ConsensusRequest)
    ensures
        r == if tag == WireTag::FinalityVote {
            ConsensusRequest::FinalityVote
        } else if decodes_as_consensus {
            ConsensusRequest::ConsensusMessage
        } else if decodes_as_shares {
            ConsensusRequest::DecryptionShares
        } else {
            ConsensusRequest::Unreadable
        },
{
    if tag == WireTag::FinalityVote {
        ConsensusRequest::FinalityVote
    } else if decodes_as_consensus {
        ConsensusRequest::ConsensusMessage
    } else if decodes_as_shares {
        ConsensusRequest::DecryptionShares
    } else {
        ConsensusRequest::Unreadable
    }
}

/// What became of a request on the consensus protocol. A node that is no
/// validator reports a vote without effect, or a new view.
#[derive(Clone, Copy)]
pub enum RequestWork {
    FinalityVote { cert_formed: bool, has_checkpoint: bool },
    Consensus(ConsensusWork),
    Shares,
    Unreadable,
}

/// How a request on the consensus protocol is answered, and what is done besides.
/// Evidence that a proposal revealed is not broadcast from here.
pub open spec fn request_action(work: RequestWork) -> PostEventAction {
    let ack = PostEventAction::SendConsensusRrResponse { resp: ConsensusResp::Ack };
    match work {
        RequestWork::FinalityVote { cert_formed, has_checkpoint } => if cert_formed
            && has_checkpoint {
            PostEventAction::SendConsensusRrResponseAndBroadcast
        } else {
            ack
        },
        RequestWork::Consensus(c) => match consensus_action(c) {
            PostEventAction::ApplyCanonicalAfterQc { qc_slot, qc_block_hash } =>
                PostEventAction::SendConsensusRrResponseAndApplyQcd { qc_slot, qc_block_hash },
            PostEventAction::BroadcastConsensus =>
                PostEventAction::SendConsensusRrResponseAndBroadcast,
            _ => ack,
        },
        RequestWork::Shares => PostEventAction::SendConsensusRrResponseAndAddShares,
        RequestWork::Unreadable => PostEventAction::SendConsensusRrResponse {
            resp: ConsensusResp::DecodeError,
        },
    }
}

/// Says how to answer a request on the consensus protocol.
pub fn after_consensus_request(work: RequestWork) -> (r: PostEventAction)
    ensures
        r == request_action(work),
{
    match work {
        RequestWork::FinalityVote { cert_formed: true, has_checkpoint: true } =>
            PostEventAction::SendConsensusRrResponseAndBroadcast,
        RequestWork::Consensus(c) => match after_consensus(c) {
            PostEventAction::ApplyCanonicalAfterQc { qc_slot, qc_block_hash } =>
                PostEventAction::SendConsensusRrResponseAndApplyQcd { qc_slot, qc_block_hash },
            PostEventAction::BroadcastConsensus =>
                PostEventAction::SendConsensusRrResponseAndBroadcast,
            _ => PostEventAction::SendConsensusRrResponse { resp: ConsensusResp::Ack },
        },
        RequestWork::Shares => PostEventAction::SendConsensusRrResponseAndAddShares,
        RequestWork::Unreadable => PostEventAction::SendConsensusRrResponse {
            resp: ConsensusResp::DecodeError,
        },
        _ => PostEventAction::SendConsensusRrResponse { resp: ConsensusResp::Ack },
    }
}

/// What to do with a request on the block protocol.
#[derive(Clone, Copy, Debug, PartialEq, Eq, Structural)]
pub enum BlocksRoute {
    /// Answer that it cannot be read, without reading it.
    Refuse,
    CompactBlock,
    EncryptedTxBundle,
    /// It is empty, or has a tag that is not supported here.
    Unsupported,
}

/// What is done with a request on the block protocol.
pub open spec fn blocks_route(invalid_messages: u64, tag: WireTag) -> BlocksRoute {
    if invalid_messages >= SPAM_THRESHOLD {
        BlocksRoute::Refuse
    } else {
        match tag {
            WireTag::CompactBlock => BlocksRoute::CompactBlock,
            WireTag::EncryptedTxBundle => BlocksRoute::EncryptedTxBundle,
            _ => BlocksRoute::Unsupported,
        }
    }
}

/// Says what to do with a request on the block protocol.
pub fn route_blocks_request(invalid_messages: u64, tag: WireTag) -> (r: BlocksRoute)
    ensures
        r == blocks_route(invalid_messages, tag),
{
    if invalid_messages >= SPAM_THRESHOLD {
        return BlocksRoute::Refuse;
    }
    match tag {
        WireTag::CompactBlock => BlocksRoute::CompactBlock,
        WireTag::EncryptedTxBundle => BlocksRoute::EncryptedTxBundle,
        _ => BlocksRoute::Unsupported,
    }
}

/// What follows from a request on the block protocol. One that is read is not
/// answered; one that cannot be read is, at the sender's cost.
pub open spec fn blocks_outcome(route: BlocksRoute, decoded: bool) -> EventOutcome {
    match route {
        BlocksRoute::Refuse => doing(PostEventAction::SendBlocksRrDecodeError),
        BlocksRoute::CompactBlock if decoded => doing(PostEventAction::ReconstructCompactBlock),
        BlocksRoute::EncryptedTxBundle if decoded => doing(PostEventAction::BufferEncryptedBundle),
        _ => EventOutcome {
            action: PostEventAction::SendBlocksRrDecodeError,
            blame: Blame::Sender,
        },
    }
}

/// Says what follows from a request on the block protocol.
pub fn after_blocks_request(route: BlocksRoute, decoded: bool) -> (r: EventOutcome)
    ensures
        r == blocks_outcome(route, decoded),
{
    match route {
        BlocksRoute::Refuse => act(PostEventAction::SendBlocksRrDecodeError),
        BlocksRoute::CompactBlock if decoded => act(PostEventAction::ReconstructCompactBlock),
        BlocksRoute::EncryptedTxBundle if decoded => act(PostEventAction::BufferEncryptedBundle),
        _ => EventOutcome {
            action: PostEventAction::SendBlocksRrDecodeError,
            blame: Blame::Sender,
        },
    }
}

/// What became of the answer to an authentication request.
#[derive(Clone, Copy, Debug, PartialEq, Eq, Structural)]
pub enum AuthOutcome {
    StoredAsValidator,
    StoredAsNonValidator,
    NoPendingNonce,
    VerifyFailed,
    RebindRejected,
}

/// An event of the network other than a gossip message, with what the caller
/// found out about it.
pub enum SwarmEvent {
    /// A peer subscribed to a topic.
    Subscribed,
    /// A sync request was answered.
    SyncRequest,
    SyncFailure,
    /// `answer_built` says whether an answer could be signed; `None` where the
    /// node has no key to sign with.
    AuthRequest { answer_built: Option<bool> },
    AuthResponse(AuthOutcome),
    AuthFailure,
    ConsensusRequest(RequestWork),
    BlocksRequest { route: BlocksRoute, decoded: bool },
    /// A request on the consensus or the block protocol got no answer.
    RequestFailure { timeout: bool },
    ConnectionEstablished,
    ConnectionClosed,
    /// A peer told its protocol version and `addresses` listen addresses.
    Identified { protocol_version: String, addresses: usize },
    /// The routing table learned `addresses` addresses of a peer.
    RoutingUpdated { addresses: usize },
    /// Any other event.
    Other,
}

/// The protocol version that the peers of a chain tell.
pub open spec fn protocol_version_of(chain_id: u64) -> Seq<char> {
    "/pyde/1.0.0/"@ + text::decimal(chain_id as nat)
}

/// What follows from an event.
pub open spec fn event_outcome(event: SwarmEvent, chain_id: u64) -> EventOutcome {
    match event {
        SwarmEvent::Subscribed => doing(PostEventAction::ReplayCachedGossip),
        SwarmEvent::SyncRequest => doing(PostEventAction::SendSyncResponse),
        SwarmEvent::SyncFailure => doing(PostEventAction::Nothing),
        SwarmEvent::AuthRequest { answer_built } => doing(
            if answer_built == Some(true) {
                PostEventAction::SendAuthResponse
            } else {
                PostEventAction::Nothing
            },
        ),
        SwarmEvent::AuthResponse(o) => doing(
            if o == AuthOutcome::StoredAsValidator {
                PostEventAction::AddExplicitGossipPeer
            } else {
                PostEventAction::Nothing
            },
        ),
        SwarmEvent::AuthFailure => doing(PostEventAction::Nothing),
        SwarmEvent::ConsensusRequest(work) => doing(request_action(work)),
        SwarmEvent::BlocksRequest { route, decoded } => blocks_outcome(route, decoded),
        SwarmEvent::RequestFailure { timeout } => doing(
            if timeout {
                PostEventAction::DisconnectStalePeer
            } else {
                PostEventAction::Nothing
            },
        ),
        SwarmEvent::ConnectionEstablished => doing(PostEventAction::RecordPeerAndAuth),
        SwarmEvent::ConnectionClosed => doing(PostEventAction::Nothing),
        SwarmEvent::Identified { protocol_version, addresses } => doing(
            if protocol_version@ != protocol_version_of(chain_id) {
                PostEventAction::DisconnectStalePeer
            } else if addresses > 0 {
                PostEventAction::AddPeerToKademlia
            } else {
                PostEventAction::Nothing
            },
        ),
        SwarmEvent::RoutingUpdated { addresses } => doing(
            if addresses > 0 {
                PostEventAction::AddPeerToKademlia
            } else {
                PostEventAction::Nothing
            },
        ),
        SwarmEvent::Other => doing(PostEventAction::Nothing),
    }
}

/// Says what follows from an event.
pub fn handle_swarm_event(event: &SwarmEvent, chain_id: u64) -> (r: EventOutcome)
    ensures
        r == event_outcome(*event, chain_id),
{
    match event {
        SwarmEvent::Subscribed => act(PostEventAction::ReplayCachedGossip),
        SwarmEvent::SyncRequest => act(PostEventAction::SendSyncResponse),
        SwarmEvent::AuthRequest { answer_built: Some(true) } => act(
            PostEventAction::SendAuthResponse,
        ),
        SwarmEvent::AuthResponse(AuthOutcome::StoredAsValidator) => act(
            PostEventAction::AddExplicitGossipPeer,
        ),
        SwarmEvent::ConsensusRequest(work) => act(after_consensus_request(*work)),
        SwarmEvent::BlocksRequest { route, decoded } => after_blocks_request(*route, *decoded),
        SwarmEvent::RequestFailure { timeout: true } => act(PostEventAction::DisconnectStalePeer),
        SwarmEvent::ConnectionEstablished => act(PostEventAction::RecordPeerAndAuth),
        SwarmEvent::Identified { protocol_version, addresses } => {
            let version = to_decimal(chain_id as u128);
            let expected = join("/pyde/1.0.0/", version.as_str());
            if !str_eq(protocol_version.as_str(), expected.as_str()) {
                act(PostEventAction::DisconnectStalePeer)
            } else if *addresses > 0 {
                act(PostEventAction::AddPeerToKademlia)
            } else {
                act(PostEventAction::Nothing)
            }
        },
        SwarmEvent::RoutingUpdated { addresses } => {
            if *addresses > 0 {
                act(PostEventAction::AddPeerToKademlia)
            } else {
                act(PostEventAction::Nothing)
            }
        },
        _ => act(PostEventAction::Nothing),
    }
}

/// The action as this node may perform it: only validators send consensus
/// messages of their own accord.
pub fn permitted(action: PostEventAction, is_validator: bool) -> (r: PostEventAction)
    ensures
        r == if !is_validator && (action == PostEventAction::BroadcastConsensus || action
            == PostEventAction::BroadcastConsensusMany) {
            PostEventAction::Nothing
        } else {
            action
        },
{
    match action {
        PostEventAction::BroadcastConsensus if !is_validator => PostEventAction::Nothing,
        PostEventAction::BroadcastConsensusMany if !is_validator => PostEventAction::Nothing,
        _ => action,
    }
}

/// Consensus gossip that an outsider forwards or sends never reaches a validator's
/// engine: it is dropped whatever it holds, and the outsider is blamed for it.
pub proof fn law_outsiders_do_not_reach_the_engine(
    tag: WireTag,
    forwarder: PeerStanding,
    originator: Option<PeerStanding>,
)
    requires
        is_outsider(forwarder) || (originator is Some && is_outsider(originator->0)),
    ensures
        ({
            let route = gossip_route(
                Some(Channel::Consensus),
                tag,
                true,
                forwarder,
                originator,
            );
            &&& is_outsider(forwarder) ==> route == GossipRoute::DropRelayed
            &&& !is_outsider(forwarder) ==> route == GossipRoute::DropOriginated
        }),
        gossip_outcome(GossipWork::DroppedRelayed) == blaming(Blame::Sender),
        gossip_outcome(GossipWork::DroppedOriginated) == blaming(Blame::Originator),
{
}

/// A node that is no validator takes no part in the consensus gossip.
pub proof fn law_consensus_is_for_validators(
    tag: WireTag,
    forwarder: PeerStanding,
    originator: Option<PeerStanding>,
)
    ensures
        gossip_route(Some(Channel::Consensus), tag, false, forwarder, originator)
            == GossipRoute::Ignore,
{
}

/// The count of bad messages after `n` more.
pub open spec fn many_more(invalid_messages: u64, n: nat) -> u64
    decreases n,
{
    if n == 0 {
        invalid_messages
    } else {
        one_more(many_more(invalid_messages, (n - 1) as nat))
    }
}

/// A peer that sends unreadable block requests is blamed for each until it is over
/// the threshold; from then on its block requests, its evidence and its decryption
/// shares are dropped unread.
pub proof fn law_spammers_are_cut_off(invalid_messages: u64, n: nat, tag: WireTag, p: PeerStanding)
    requires
        n >= SPAM_THRESHOLD,
        p.invalid_messages == many_more(invalid_messages, n),
    ensures
        p.invalid_messages >= SPAM_THRESHOLD,
        blocks_route(p.invalid_messages, tag) == BlocksRoute::Refuse,
        consensus_route(WireTag::SlashEvidence, p) == GossipRoute::DropSpam,
        consensus_route(WireTag::DecryptionShares, p) == GossipRoute::DropSpam,
        invalid_messages < SPAM_THRESHOLD ==> blocks_outcome(
            blocks_route(invalid_messages, tag),
            false,
        ).blame == Blame::Sender,
{
    lemma_many_more(invalid_messages, n);
}

proof fn lemma_many_more(invalid_messages: u64, n: nat)
    ensures
        many_more(invalid_messages, n) >= n || many_more(invalid_messages, n) == u64::MAX,
    decreases n,
{
    if n > 0 {
        lemma_many_more(invalid_messages, (n - 1) as nat);
    }
}

/// A vote that completes a quorum has the same block applied whichever way it
/// came, and a vote that does not has none.
pub proof fn law_votes_count_alike_on_both_paths(slot: u64, certified: Option<Key>)
    ensures
        ({
            let work = ConsensusWork::Vote { slot, certified };
            match certified {
                Some(h) => {
                    &&& gossip_outcome(GossipWork::Consensus(work)).action
                        == (PostEventAction::ApplyCanonicalAfterQc {
                        qc_slot: slot,
                        qc_block_hash: h,
                    })
                    &&& request_action(RequestWork::Consensus(work))
                        == (PostEventAction::SendConsensusRrResponseAndApplyQcd {
                        qc_slot: slot,
                        qc_block_hash: h,
                    })
                },
                None => {
                    &&& gossip_outcome(GossipWork::Consensus(work)).action
                        == PostEventAction::Nothing
                    &&& request_action(RequestWork::Consensus(work))
                        == (PostEventAction::SendConsensusRrResponse { resp: ConsensusResp::Ack })
                },
            }
        }),
{
}

} // verus!
