//! What the node does with what the network hands it, stated by what is done: to
//! whom a message goes, what follows from it, and who is held responsible.
use vstd::prelude::*;

use crate::events;
use crate::events::{
    AuthOutcome,
    Blame,
    BlocksRoute,
    Channel,
    ConsensusRequest,
    ConsensusResp,
    EventOutcome,
    GossipRoute,
    GossipWork,
    ParentCheck,
    PeerStanding,
    PostEventAction,
    RequestWork,
    SwarmEvent,
    WireTag,
};
use crate::keymap::Key;
use crate::text;

verus! {

/// The header of the block in slot 1 is checked against the genesis, and has no
/// timestamp to come after; any other one against the header of the slot before, as
/// far as that is known.
pub proof fn law_headers_follow_their_parents(
    slot: u64,
    genesis_hash: Key,
    parent: Option<(Key, u64)>,
    r: ParentCheck,
)
    requires
        call_ensures(events::parent_check, (slot, genesis_hash, parent), r),
    ensures
        slot == 1 ==> r.hash == Some(genesis_hash) && r.timestamp is None,
        slot != 1 ==> (r.hash is Some <==> parent is Some),
        slot != 1 ==> (r.timestamp is Some <==> parent is Some),
        slot != 1 && parent is Some ==> r.hash->0 == (parent->0).0 && r.timestamp->0 == (
        parent->0).1,
{
}

/// The committee that headers are validated with is the engine's where there is an
/// engine, and else the one of the genesis; an empty one validates nothing.
pub proof fn law_headers_need_a_committee(
    engine_keys: Option<&Vec<Vec<u8>>>,
    genesis_keys: &Vec<Vec<u8>>,
    r: Option<&Vec<Vec<u8>>>,
)
    requires
        call_ensures(events::validation_committee, (engine_keys, genesis_keys), r),
    ensures
        r is Some ==> r->0@.len() > 0,
        engine_keys is Some ==> (r is Some <==> engine_keys->0@.len() > 0),
        engine_keys is Some && r is Some ==> r->0 == engine_keys->0,
        engine_keys is None ==> (r is Some <==> genesis_keys@.len() > 0),
        engine_keys is None && r is Some ==> r->0 == genesis_keys,
{
}

/// A fallback proposal goes on from the head, and from zero where the head is not
/// known.
pub proof fn law_fallbacks_go_on_from_the_head(head: Key, known: Key, unknown: Key)
    requires
        call_ensures(events::fallback_parent, (Some(head),), known),
        call_ensures(events::fallback_parent, (None,), unknown),
    ensures
        known == head,
        forall|i: int| 0 <= i < 32 ==> #[trigger] unknown@[i] == 0,
{
    crate::rpc_laws::lemma_zero_key();
}

/// Only certificates of later slots replace the highest one, and only contributions
/// to the epoch under way are current.
pub proof fn law_only_later_certificates_replace(a: u64, b: u64, r: bool, c: bool)
    requires
        call_ensures(events::replaces_highest_qc, (a, b), r),
        call_ensures(events::contribution_is_current, (a, b), c),
    ensures
        a > b ==> r && !c,
        a == b ==> !r && c,
        a < b ==> !r && !c,
{
}

/// A signature is verified with the one key of the sender's account, where there is
/// a signature and the network is not for development; else none is.
pub proof fn law_signatures_are_verified_with_the_sender_s_key(
    chain_id: u64,
    signature: &[u8],
    auth_keys: Option<&crate::rpc::AuthKeys>,
    r: Option<&Vec<u8>>,
)
    requires
        call_ensures(events::gossip_signature_key, (chain_id, signature, auth_keys), r),
    ensures
        r is Some <==> chain_id != 31337 && signature@.len() > 0 && auth_keys is Some
            && *auth_keys->0 is Single,
        r is Some ==> *r->0 == (*auth_keys->0)->Single_0,
{
}

/// The height to aim at is the one after the head.
pub proof fn law_validators_aim_past_the_head(head_slot: u64, r: u64)
    requires
        call_ensures(events::target_after_sync, (head_slot,), r),
    ensures
        head_slot < u64::MAX ==> r > head_slot && r - 1 == head_slot,
        head_slot == u64::MAX ==> r == head_slot,
{
}

/// After a sync response the node goes on where the sync is not over, and looks after
/// what the blocks left behind; where there is neither, nothing follows.
pub proof fn law_syncs_go_on_until_they_are_over(
    sync: &crate::sync::ChainSync,
    receipt_slots: usize,
    encrypted_blocks: usize,
    r: PostEventAction,
)
    requires
        sync.wf(),
        call_ensures(events::after_sync, (sync, receipt_slots, encrypted_blocks), r),
    ensures
        r is SyncedBlocksApplied || r is Nothing,
        r is Nothing ==> receipt_slots == 0 && encrypted_blocks == 0,
        receipt_slots == 0 && encrypted_blocks == 0 && r is SyncedBlocksApplied
            ==> r->continue_sync,
        r is Nothing ==> sync@.manager.local_tip >= sync@.manager.network_tip,
        sync@.manager.local_tip < sync@.manager.network_tip ==> r
            is SyncedBlocksApplied && r->continue_sync,
        sync@.chunks.len() < sync@.total_chunks ==> r is SyncedBlocksApplied && r->continue_sync,
        r is SyncedBlocksApplied && r->continue_sync ==> sync@.manager.local_tip
            < sync@.manager.network_tip || sync@.chunks.len() < sync@.total_chunks,
{
}

/// What a request holds is told by its tag where it is a vote on finality, and else
/// by the first way in which it decodes.
pub proof fn law_requests_are_what_they_decode_as(
    tag: WireTag,
    as_consensus: bool,
    as_shares: bool,
    r: ConsensusRequest,
)
    requires
        call_ensures(events::route_consensus_request, (tag, as_consensus, as_shares), r),
    ensures
        r == ConsensusRequest::FinalityVote <==> tag == WireTag::FinalityVote,
        r == ConsensusRequest::ConsensusMessage <==> tag != WireTag::FinalityVote && as_consensus,
        r == ConsensusRequest::DecryptionShares <==> tag != WireTag::FinalityVote && !as_consensus
            && as_shares,
        r == ConsensusRequest::Unreadable <==> tag != WireTag::FinalityVote && !as_consensus
            && !as_shares,
{
}

/// A node that is no validator broadcasts no consensus messages; it does all else,
/// and a validator does everything.
pub proof fn law_only_validators_broadcast(
    action: PostEventAction,
    is_validator: bool,
    r: PostEventAction,
)
    requires
        call_ensures(events::permitted, (action, is_validator), r),
    ensures
        is_validator ==> r == action,
        !is_validator ==> !(r is BroadcastConsensus) && !(r is BroadcastConsensusMany),
        r != action ==> r is Nothing && (action is BroadcastConsensus
            || action is BroadcastConsensusMany),
{
}

/// To whom a gossip message goes. Transactions and blocks are for every node, by
/// their channel and, for blocks, by their tag. What comes on the consensus channel
/// is for validators, from peers that are not known to be outside the committee.
pub proof fn law_gossip_is_routed_by_channel_and_tag(
    channel: Option<Channel>,
    tag: WireTag,
    is_validator: bool,
    forwarder: PeerStanding,
    originator: Option<PeerStanding>,
    r: GossipRoute,
)
    requires
        call_ensures(
            events::route_gossip,
            (channel, tag, is_validator, forwarder, originator),
            r,
        ),
    ensures
        ({
            let consensus = channel == Some(Channel::Consensus);
            let by_outsider = forwarder.attested && !forwarder.authorized;
            let of_outsider = originator is Some && originator->0.attested
                && !originator->0.authorized;
            let heard = consensus && is_validator && !by_outsider && !of_outsider;
            &&& r == GossipRoute::Transaction <==> channel == Some(Channel::Transactions)
            &&& r == GossipRoute::EncryptedTransaction <==> channel == Some(
                Channel::EncryptedTransactions,
            )
            &&& r == GossipRoute::CompactBlock <==> channel == Some(Channel::Blocks) && tag
                == WireTag::CompactBlock
            &&& r == GossipRoute::EncryptedTxBundle <==> channel == Some(Channel::Blocks) && tag
                == WireTag::EncryptedTxBundle
            &&& r == GossipRoute::FullBlock <==> channel == Some(Channel::Blocks) && tag
                != WireTag::CompactBlock && tag != WireTag::EncryptedTxBundle
            &&& r == GossipRoute::Ignore <==> channel is None || channel == Some(Channel::Sync) || (
            consensus && !is_validator)
            &&& r == GossipRoute::DropRelayed <==> consensus && is_validator && by_outsider
            &&& r == GossipRoute::DropOriginated <==> consensus && is_validator && !by_outsider
                && of_outsider
            &&& r == GossipRoute::FinalityVote <==> heard && tag == WireTag::FinalityVote
            &&& r == GossipRoute::FinalityCheckpoint <==> heard && tag
                == WireTag::FinalityCheckpoint
            &&& r == GossipRoute::RandomnessShare <==> heard && tag == WireTag::RandomnessShare
            &&& r == GossipRoute::PssRefresh <==> heard && tag == WireTag::PssRefresh
            &&& r == GossipRoute::CommitteeResharing <==> heard && tag
                == WireTag::CommitteeResharing
            &&& r == GossipRoute::SlashEvidence <==> heard && tag == WireTag::SlashEvidence
                && forwarder.invalid_messages < 5
            &&& r == GossipRoute::DecryptionShares <==> heard && tag == WireTag::DecryptionShares
                && forwarder.invalid_messages < 5
            &&& r == GossipRoute::DropSpam <==> heard && (tag == WireTag::SlashEvidence || tag
                == WireTag::DecryptionShares) && forwarder.invalid_messages >= 5
            &&& r == GossipRoute::ConsensusMessage <==> heard && (tag == WireTag::Empty || tag
                == WireTag::CompactBlock || tag == WireTag::EncryptedTxBundle || tag
                == WireTag::Other)
        }),
{
}

/// Each bad message counts once, up to the greatest count there is.
pub proof fn law_bad_messages_count_once(invalid_messages: u64, r: u64)
    requires
        call_ensures(events::penalized, (invalid_messages,), r),
    ensures
        invalid_messages < u64::MAX ==> r - invalid_messages == 1,
        invalid_messages == u64::MAX ==> r == invalid_messages,
{
}

/// When a gossip message has the node do something, and who is to blame for it.
pub proof fn law_gossip_has_its_effect(work: GossipWork, r: EventOutcome)
    requires
        call_ensures(events::after_gossip, (work,), r),
    ensures
        ({
            let b = work->FullBlock_0;
            let c = work->Consensus_0;
            &&& r.action is AcceptTransaction <==> work is Transaction && work->Transaction_decoded
                && work->signature_valid != Some(false)
            &&& r.action is AcceptEncryptedTransaction <==> work is EncryptedTransaction
                && work->EncryptedTransaction_decoded
            &&& r.action is ReconstructCompactBlock <==> work is CompactBlock
                && work->CompactBlock_decoded
            &&& r.action is BufferEncryptedBundle <==> work is EncryptedTxBundle
                && work->EncryptedTxBundle_decoded
            &&& r.action is AddDecryptionShares <==> work is DecryptionShares
                && work->DecryptionShares_decoded
            &&& r.action is BlockProcessed <==> work is FullBlock && b is Applied
            &&& r.action is BlockProcessed ==> r.action->slot == b->Applied_slot
            &&& r.action is BufferCompetingBlock <==> work is FullBlock && b is Refused
                && b->Refused_slot == b->head_slot && b->local_hash is Some && b->local_hash->0
                != b->hash
            &&& r.action is BroadcastConsensusMany <==> work is Consensus && c is Proposal
                && c->evidence
            &&& r.action is ApplyCanonicalAfterQc <==> work is Consensus && c is Vote
                && c->certified is Some
            &&& r.action is ApplyCanonicalAfterQc ==> r.action->ApplyCanonicalAfterQc_qc_slot
                == c->Vote_slot && r.action->ApplyCanonicalAfterQc_qc_block_hash == c->certified->0
            &&& r.action is BroadcastConsensus <==> (work is FinalityVote && work->cert_formed
                && work->has_checkpoint) || (work is Consensus && c is Timeout && c->quorum
                && c->proposal_built)
        }),
        r.action is Nothing || r.action is AcceptTransaction
            || r.action is AcceptEncryptedTransaction || r.action is ReconstructCompactBlock
            || r.action is BufferEncryptedBundle || r.action is AddDecryptionShares
            || r.action is BlockProcessed || r.action is BufferCompetingBlock
            || r.action is BroadcastConsensusMany || r.action is ApplyCanonicalAfterQc
            || r.action is BroadcastConsensus,
        r.blame == Blame::Originator <==> work is DroppedOriginated,
        r.blame == Blame::Sender <==> work is DroppedRelayed || (work is SlashEvidence
            && !work->ingested) || (work is DecryptionShares && !work->DecryptionShares_decoded),
{
}

/// Every request on the consensus protocol is answered: that it could not be read
/// where it could not, and else that it was taken, with what follows from it.
pub proof fn law_requests_are_answered(work: RequestWork, r: PostEventAction)
    requires
        call_ensures(events::after_consensus_request, (work,), r),
    ensures
        ({
            let c = work->Consensus_0;
            &&& r is SendConsensusRrResponse || r is SendConsensusRrResponseAndBroadcast
                || r is SendConsensusRrResponseAndApplyQcd
                || r is SendConsensusRrResponseAndAddShares
            &&& (r is SendConsensusRrResponse && r->resp == ConsensusResp::DecodeError) <==> work
                is Unreadable
            &&& r is SendConsensusRrResponseAndAddShares <==> work is Shares
            &&& r is SendConsensusRrResponseAndApplyQcd <==> work is Consensus && c is Vote
                && c->certified is Some
            &&& r is SendConsensusRrResponseAndApplyQcd
                ==> r->SendConsensusRrResponseAndApplyQcd_qc_slot == c->Vote_slot
                && r->SendConsensusRrResponseAndApplyQcd_qc_block_hash == c->certified->0
            &&& r is SendConsensusRrResponseAndBroadcast <==> (work is FinalityVote
                && work->cert_formed && work->has_checkpoint) || (work is Consensus && c is Timeout
                && c->quorum && c->proposal_built)
        }),
{
}

/// A request on the block protocol is read where its sender has sent fewer than five
/// bad messages and its tag is one of the two that are supported. One that is not
/// read costs a sender that is not cut off already.
pub proof fn law_block_requests_are_read_or_answered(
    invalid_messages: u64,
    tag: WireTag,
    decoded: bool,
    route: BlocksRoute,
    r: EventOutcome,
)
    requires
        call_ensures(events::route_blocks_request, (invalid_messages, tag), route),
        call_ensures(events::after_blocks_request, (route, decoded), r),
    ensures
        route == BlocksRoute::Refuse <==> invalid_messages >= 5,
        r.action is ReconstructCompactBlock <==> invalid_messages < 5 && tag
            == WireTag::CompactBlock && decoded,
        r.action is BufferEncryptedBundle <==> invalid_messages < 5 && tag
            == WireTag::EncryptedTxBundle && decoded,
        r.action is ReconstructCompactBlock || r.action is BufferEncryptedBundle
            || r.action is SendBlocksRrDecodeError,
        r.blame == Blame::Sender <==> r.action is SendBlocksRrDecodeError && invalid_messages < 5,
        r.blame == Blame::Sender || r.blame == Blame::Nobody,
{
}

/// When an event of the network has the node do something.
pub proof fn law_events_have_their_effect(event: &SwarmEvent, chain_id: u64, r: EventOutcome)
    requires
        call_ensures(events::handle_swarm_event, (event, chain_id), r),
    ensures
        ({
            let e = *event;
            let ours = "/pyde/1.0.0/"@ + text::decimal(chain_id as nat);
            &&& r.action is ReplayCachedGossip <==> e is Subscribed
            &&& r.action is SendSyncResponse <==> e is SyncRequest
            &&& r.action is SendAuthResponse <==> e is AuthRequest && e->answer_built == Some(true)
            &&& r.action is AddExplicitGossipPeer <==> e is AuthResponse && e->AuthResponse_0
                == AuthOutcome::StoredAsValidator
            &&& r.action is RecordPeerAndAuth <==> e is ConnectionEstablished
            &&& r.action is DisconnectStalePeer <==> (e is RequestFailure && e->timeout) || (
            e is Identified && e->protocol_version@ != ours)
            &&& r.action is AddPeerToKademlia <==> (e is Identified && e->protocol_version@ == ours
                && e->Identified_addresses > 0) || (e is RoutingUpdated
                && e->RoutingUpdated_addresses > 0)
            &&& (r.action is SendConsensusRrResponse
                || r.action is SendConsensusRrResponseAndBroadcast
                || r.action is SendConsensusRrResponseAndApplyQcd
                || r.action is SendConsensusRrResponseAndAddShares) <==> e is ConsensusRequest
            &&& (r.action is ReconstructCompactBlock || r.action is BufferEncryptedBundle
                || r.action is SendBlocksRrDecodeError) <==> e is BlocksRequest
            &&& r.blame == Blame::Sender ==> e is BlocksRequest
            &&& r.blame != Blame::Originator
            &&& r.action is Nothing || r.action is ReplayCachedGossip
                || r.action is SendSyncResponse || r.action is SendAuthResponse
                || r.action is AddExplicitGossipPeer || r.action is RecordPeerAndAuth
                || r.action is DisconnectStalePeer || r.action is AddPeerToKademlia
                || e is ConsensusRequest || e is BlocksRequest
        }),
        *event is ConsensusRequest ==> r.action == events::request_action(
            event->ConsensusRequest_0,
        ) && r.blame == Blame::Nobody,
        *event is BlocksRequest ==> r == events::blocks_outcome(
            event->route,
            event->BlocksRequest_decoded,
        ),
{
}

} // verus!
