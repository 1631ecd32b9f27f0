use pyde_node::events::{
    after_blocks_request, after_consensus_request, after_gossip, after_sync,
    contribution_is_current, fallback_parent, gossip_signature_key, handle_swarm_event,
    parent_check, penalized, permitted, replaces_highest_qc, route_blocks_request,
    route_consensus_request, route_gossip, target_after_sync, validation_committee, AuthOutcome,
    Blame, BlockWork, BlocksRoute, Channel, ConsensusRequest, ConsensusResp, ConsensusWork,
    EventOutcome, GossipRoute, GossipWork, PeerStanding, PostEventAction, RequestWork, SwarmEvent,
    WireTag,
};
use pyde_node::rpc::AuthKeys;
use pyde_node::sync::ChainSync;

const FRIEND: PeerStanding = PeerStanding { attested: true, authorized: true, invalid_messages: 0 };
const STRANGER: PeerStanding =
    PeerStanding { attested: false, authorized: false, invalid_messages: 0 };
const OUTSIDER: PeerStanding =
    PeerStanding { attested: true, authorized: false, invalid_messages: 0 };

fn nobody(action: PostEventAction) -> EventOutcome {
    EventOutcome { action, blame: Blame::Nobody }
}

#[test]
fn gossip_is_routed_by_channel_and_tag() {
    let route = |c, t| route_gossip(c, t, true, FRIEND, None);
    assert_eq!(route(Some(Channel::Transactions), WireTag::Other), GossipRoute::Transaction);
    assert_eq!(
        route(Some(Channel::EncryptedTransactions), WireTag::Empty),
        GossipRoute::EncryptedTransaction
    );
    assert_eq!(route(Some(Channel::Blocks), WireTag::CompactBlock), GossipRoute::CompactBlock);
    assert_eq!(
        route(Some(Channel::Blocks), WireTag::EncryptedTxBundle),
        GossipRoute::EncryptedTxBundle
    );
    assert_eq!(route(Some(Channel::Blocks), WireTag::Empty), GossipRoute::FullBlock);
    assert_eq!(route(Some(Channel::Sync), WireTag::Other), GossipRoute::Ignore);
    assert_eq!(route(None, WireTag::Other), GossipRoute::Ignore);
    for (tag, r) in [
        (WireTag::FinalityVote, GossipRoute::FinalityVote),
        (WireTag::FinalityCheckpoint, GossipRoute::FinalityCheckpoint),
        (WireTag::RandomnessShare, GossipRoute::RandomnessShare),
        (WireTag::SlashEvidence, GossipRoute::SlashEvidence),
        (WireTag::PssRefresh, GossipRoute::PssRefresh),
        (WireTag::CommitteeResharing, GossipRoute::CommitteeResharing),
        (WireTag::DecryptionShares, GossipRoute::DecryptionShares),
        (WireTag::CompactBlock, GossipRoute::ConsensusMessage),
        (WireTag::Empty, GossipRoute::ConsensusMessage),
    ] {
        assert_eq!(route(Some(Channel::Consensus), tag), r);
    }
}

#[test]
fn consensus_gossip_is_kept_among_the_committee() {
    let route = |validator, forwarder, origin| {
        route_gossip(Some(Channel::Consensus), WireTag::Other, validator, forwarder, origin)
    };
    assert_eq!(route(false, FRIEND, Some(FRIEND)), GossipRoute::Ignore);
    assert_eq!(route(true, OUTSIDER, Some(FRIEND)), GossipRoute::DropRelayed);
    assert_eq!(route(true, FRIEND, Some(OUTSIDER)), GossipRoute::DropOriginated);
    assert_eq!(route(true, STRANGER, Some(STRANGER)), GossipRoute::ConsensusMessage);
    assert_eq!(route(true, STRANGER, None), GossipRoute::ConsensusMessage);
    assert_eq!(after_gossip(GossipWork::DroppedRelayed).blame, Blame::Sender);
    assert_eq!(after_gossip(GossipWork::DroppedOriginated).blame, Blame::Originator);
}

#[test]
fn spammers_are_not_read() {
    let mut invalid = 0u64;
    for _ in 0..5 {
        assert_eq!(route_blocks_request(invalid, WireTag::Empty), BlocksRoute::Unsupported);
        let o = after_blocks_request(BlocksRoute::Unsupported, false);
        assert_eq!(o.action, PostEventAction::SendBlocksRrDecodeError);
        assert_eq!(o.blame, Blame::Sender);
        invalid = penalized(invalid);
    }
    assert_eq!(route_blocks_request(invalid, WireTag::CompactBlock), BlocksRoute::Refuse);
    let o = after_blocks_request(BlocksRoute::Refuse, false);
    assert_eq!(o, nobody(PostEventAction::SendBlocksRrDecodeError));
    let spammer = PeerStanding { invalid_messages: invalid, ..STRANGER };
    for tag in [WireTag::SlashEvidence, WireTag::DecryptionShares] {
        assert_eq!(
            route_gossip(Some(Channel::Consensus), tag, true, spammer, None),
            GossipRoute::DropSpam
        );
    }
    assert_eq!(
        route_gossip(Some(Channel::Consensus), WireTag::FinalityVote, true, spammer, None),
        GossipRoute::FinalityVote
    );
    assert_eq!(penalized(u64::MAX), u64::MAX);
}

#[test]
fn block_requests() {
    assert_eq!(route_blocks_request(4, WireTag::CompactBlock), BlocksRoute::CompactBlock);
    assert_eq!(route_blocks_request(0, WireTag::EncryptedTxBundle), BlocksRoute::EncryptedTxBundle);
    assert_eq!(
        after_blocks_request(BlocksRoute::CompactBlock, true),
        nobody(PostEventAction::ReconstructCompactBlock)
    );
    assert_eq!(
        after_blocks_request(BlocksRoute::EncryptedTxBundle, true),
        nobody(PostEventAction::BufferEncryptedBundle)
    );
    assert_eq!(after_blocks_request(BlocksRoute::CompactBlock, false).blame, Blame::Sender);
}

#[test]
fn gossiped_transactions() {
    let single = AuthKeys::Single(vec![1, 2]);
    assert_eq!(gossip_signature_key(1, &[9], Some(&single)), Some(&vec![1, 2]));
    assert_eq!(gossip_signature_key(31337, &[9], Some(&single)), None);
    assert_eq!(gossip_signature_key(1, &[], Some(&single)), None);
    assert_eq!(gossip_signature_key(1, &[9], Some(&AuthKeys::Unset)), None);
    assert_eq!(gossip_signature_key(1, &[9], None), None);
    let after = |decoded, signature_valid| {
        after_gossip(GossipWork::Transaction { decoded, signature_valid }).action
    };
    assert_eq!(after(true, Some(true)), PostEventAction::AcceptTransaction);
    assert_eq!(after(true, None), PostEventAction::AcceptTransaction);
    assert_eq!(after(true, Some(false)), PostEventAction::Nothing);
    assert_eq!(after(false, None), PostEventAction::Nothing);
    assert_eq!(
        after_gossip(GossipWork::EncryptedTransaction { decoded: true }).action,
        PostEventAction::AcceptEncryptedTransaction
    );
}

#[test]
fn gossiped_blocks() {
    let action = |w| after_gossip(GossipWork::FullBlock(w)).action;
    assert_eq!(action(BlockWork::Undecoded), PostEventAction::Nothing);
    assert_eq!(action(BlockWork::BadHeader), PostEventAction::Nothing);
    assert_eq!(action(BlockWork::BadBody), PostEventAction::Nothing);
    assert_eq!(
        action(BlockWork::Applied { slot: 4 }),
        PostEventAction::BlockProcessed { slot: 4 }
    );
    let refused = |head_slot, local_hash| {
        action(BlockWork::Refused { slot: 4, hash: [1; 32], head_slot, local_hash })
    };
    assert_eq!(refused(4, Some([2; 32])), PostEventAction::BufferCompetingBlock);
    assert_eq!(refused(4, Some([1; 32])), PostEventAction::Nothing);
    assert_eq!(refused(4, None), PostEventAction::Nothing);
    assert_eq!(refused(5, Some([2; 32])), PostEventAction::Nothing);

    let c = parent_check(1, [9; 32], Some(([8; 32], 7)));
    assert_eq!((c.hash, c.timestamp), (Some([9; 32]), None));
    let c = parent_check(2, [9; 32], Some(([8; 32], 7)));
    assert_eq!((c.hash, c.timestamp), (Some([8; 32]), Some(7)));
    let c = parent_check(2, [9; 32], None);
    assert_eq!((c.hash, c.timestamp), (None, None));

    let engine = vec![vec![1u8]];
    let genesis = vec![vec![2u8]];
    assert_eq!(validation_committee(Some(&engine), &genesis), Some(&engine));
    assert_eq!(validation_committee(None, &genesis), Some(&genesis));
    assert_eq!(validation_committee(None, &vec![]), None);
}

#[test]
fn consensus_messages() {
    let action = |w| after_gossip(GossipWork::Consensus(w)).action;
    assert_eq!(
        action(ConsensusWork::Vote { slot: 3, certified: Some([5; 32]) }),
        PostEventAction::ApplyCanonicalAfterQc { qc_slot: 3, qc_block_hash: [5; 32] }
    );
    assert_eq!(
        action(ConsensusWork::Vote { slot: 3, certified: None }),
        PostEventAction::Nothing
    );
    assert_eq!(
        action(ConsensusWork::Proposal { evidence: true }),
        PostEventAction::BroadcastConsensusMany
    );
    assert_eq!(action(ConsensusWork::Proposal { evidence: false }), PostEventAction::Nothing);
    assert_eq!(
        action(ConsensusWork::Timeout { quorum: true, proposal_built: true }),
        PostEventAction::BroadcastConsensus
    );
    assert_eq!(
        action(ConsensusWork::Timeout { quorum: true, proposal_built: false }),
        PostEventAction::Nothing
    );
    assert_eq!(action(ConsensusWork::NewView), PostEventAction::Nothing);
    assert_eq!(
        after_gossip(GossipWork::FinalityVote { cert_formed: true, has_checkpoint: true }).action,
        PostEventAction::BroadcastConsensus
    );
    assert_eq!(after_gossip(GossipWork::SlashEvidence { ingested: false }).blame, Blame::Sender);
    assert_eq!(after_gossip(GossipWork::SlashEvidence { ingested: true }).blame, Blame::Nobody);
    assert_eq!(
        after_gossip(GossipWork::DecryptionShares { decoded: true }),
        nobody(PostEventAction::AddDecryptionShares)
    );
    assert_eq!(after_gossip(GossipWork::DecryptionShares { decoded: false }).blame, Blame::Sender);
    assert!(contribution_is_current(4, 4) && !contribution_is_current(3, 4));
    assert!(replaces_highest_qc(5, 4) && !replaces_highest_qc(4, 4));
    assert_eq!(fallback_parent(Some([1; 32])), [1; 32]);
    assert_eq!(fallback_parent(None), [0; 32]);
}

#[test]
fn consensus_requests() {
    assert_eq!(
        route_consensus_request(WireTag::FinalityVote, true, true),
        ConsensusRequest::FinalityVote
    );
    assert_eq!(
        route_consensus_request(WireTag::Other, true, true),
        ConsensusRequest::ConsensusMessage
    );
    assert_eq!(
        route_consensus_request(WireTag::DecryptionShares, false, true),
        ConsensusRequest::DecryptionShares
    );
    assert_eq!(
        route_consensus_request(WireTag::Other, false, false),
        ConsensusRequest::Unreadable
    );
    let ack = PostEventAction::SendConsensusRrResponse { resp: ConsensusResp::Ack };
    assert_eq!(
        after_consensus_request(RequestWork::Consensus(ConsensusWork::Vote {
            slot: 3,
            certified: Some([5; 32])
        })),
        PostEventAction::SendConsensusRrResponseAndApplyQcd { qc_slot: 3, qc_block_hash: [5; 32] }
    );
    assert_eq!(
        after_consensus_request(RequestWork::Consensus(ConsensusWork::Timeout {
            quorum: true,
            proposal_built: true
        })),
        PostEventAction::SendConsensusRrResponseAndBroadcast
    );
    assert_eq!(
        after_consensus_request(RequestWork::Consensus(ConsensusWork::Proposal { evidence: true })),
        ack
    );
    assert_eq!(
        after_consensus_request(RequestWork::FinalityVote {
            cert_formed: true,
            has_checkpoint: true
        }),
        PostEventAction::SendConsensusRrResponseAndBroadcast
    );
    assert_eq!(
        after_consensus_request(RequestWork::FinalityVote {
            cert_formed: true,
            has_checkpoint: false
        }),
        ack
    );
    assert_eq!(
        after_consensus_request(RequestWork::Shares),
        PostEventAction::SendConsensusRrResponseAndAddShares
    );
    assert_eq!(
        after_consensus_request(RequestWork::Unreadable),
        PostEventAction::SendConsensusRrResponse { resp: ConsensusResp::DecodeError }
    );
}

#[test]
fn other_events() {
    let action = |e: SwarmEvent| handle_swarm_event(&e, 7331).action;
    assert_eq!(action(SwarmEvent::Subscribed), PostEventAction::ReplayCachedGossip);
    assert_eq!(action(SwarmEvent::SyncRequest), PostEventAction::SendSyncResponse);
    assert_eq!(action(SwarmEvent::SyncFailure), PostEventAction::Nothing);
    assert_eq!(
        action(SwarmEvent::AuthRequest { answer_built: Some(true) }),
        PostEventAction::SendAuthResponse
    );
    assert_eq!(action(SwarmEvent::AuthRequest { answer_built: None }), PostEventAction::Nothing);
    assert_eq!(
        action(SwarmEvent::AuthResponse(AuthOutcome::StoredAsValidator)),
        PostEventAction::AddExplicitGossipPeer
    );
    for o in [
        AuthOutcome::StoredAsNonValidator,
        AuthOutcome::NoPendingNonce,
        AuthOutcome::VerifyFailed,
        AuthOutcome::RebindRejected,
    ] {
        assert_eq!(action(SwarmEvent::AuthResponse(o)), PostEventAction::Nothing);
    }
    assert_eq!(
        action(SwarmEvent::RequestFailure { timeout: true }),
        PostEventAction::DisconnectStalePeer
    );
    assert_eq!(action(SwarmEvent::RequestFailure { timeout: false }), PostEventAction::Nothing);
    assert_eq!(action(SwarmEvent::ConnectionEstablished), PostEventAction::RecordPeerAndAuth);
    assert_eq!(action(SwarmEvent::ConnectionClosed), PostEventAction::Nothing);
    let identified = |v: &str, addresses| {
        action(SwarmEvent::Identified { protocol_version: v.to_string(), addresses })
    };
    assert_eq!(identified("/pyde/1.0.0/7331", 2), PostEventAction::AddPeerToKademlia);
    assert_eq!(identified("/pyde/1.0.0/7331", 0), PostEventAction::Nothing);
    assert_eq!(identified("/pyde/1.0.0/1", 2), PostEventAction::DisconnectStalePeer);
    assert_eq!(identified("/pyde/1.0.0/73311", 2), PostEventAction::DisconnectStalePeer);
    assert_eq!(
        action(SwarmEvent::RoutingUpdated { addresses: 1 }),
        PostEventAction::AddPeerToKademlia
    );
    assert_eq!(action(SwarmEvent::RoutingUpdated { addresses: 0 }), PostEventAction::Nothing);
    assert_eq!(action(SwarmEvent::Other), PostEventAction::Nothing);
}

#[test]
fn only_validators_send_consensus_messages() {
    for a in [PostEventAction::BroadcastConsensus, PostEventAction::BroadcastConsensusMany] {
        assert_eq!(permitted(a, false), PostEventAction::Nothing);
        assert_eq!(permitted(a, true), a);
    }
    assert_eq!(
        permitted(PostEventAction::SendSyncResponse, false),
        PostEventAction::SendSyncResponse
    );
}

#[test]
fn syncing_goes_on_while_there_is_something_left() {
    let mut sync = ChainSync::new();
    assert_eq!(after_sync(&sync, 0, 0), PostEventAction::Nothing);
    assert_eq!(
        after_sync(&sync, 1, 0),
        PostEventAction::SyncedBlocksApplied { continue_sync: false }
    );
    assert_eq!(
        after_sync(&sync, 0, 1),
        PostEventAction::SyncedBlocksApplied { continue_sync: false }
    );
    sync.on_peer_tip(3);
    assert_eq!(
        after_sync(&sync, 0, 0),
        PostEventAction::SyncedBlocksApplied { continue_sync: true }
    );
    assert_eq!(target_after_sync(4), 5);
    assert_eq!(target_after_sync(u64::MAX), u64::MAX);
}
