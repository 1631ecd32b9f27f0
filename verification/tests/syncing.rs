use pyde_node::serve::{snapshot_response, InboundStep, SlotScan};
use pyde_node::sync::{
    chunk_hash_input, BlockOutcome, ChainSync, PinnedSnapshot, SyncAction, SyncReq, SyncResp,
    CHUNK_MAX_RETRIES, SNAPSHOT_CHUNK_SIZE,
};
use std::collections::BTreeMap;

#[test]
fn sync_manager_tracks_tips() {
    let mut sync = ChainSync::new();

    sync.on_peer_tip(100);
    assert_eq!(sync.manager.network_tip, 100);
    assert!(sync.manager.needs_sync());
    assert_eq!(sync.manager.slots_behind(), 100);
}

#[test]
fn sync_completes_when_caught_up() {
    let mut sync = ChainSync::new();

    sync.on_peer_tip(5);
    assert!(!sync.initial_sync_done);

    for slot in 1..=5 {
        sync.on_block_processed(slot);
    }

    assert!(!sync.manager.needs_sync());
    assert!(sync.initial_sync_done);
}

#[test]
fn snapshot_sync_triggers_when_far_behind() {
    let mut sync = ChainSync::new();
    sync.on_peer_tip(ChainSync::SNAPSHOT_THRESHOLD + 100);
    assert!(
        sync.should_use_snapshot_sync(),
        "should switch to snapshot sync when slots_behind > threshold"
    );
}

#[test]
fn snapshot_sync_skipped_when_close_enough() {
    let mut sync = ChainSync::new();
    sync.on_peer_tip(ChainSync::SNAPSHOT_THRESHOLD / 2);
    assert!(
        !sync.should_use_snapshot_sync(),
        "no snapshot sync when slots_behind ≤ threshold"
    );
}

#[test]
fn snapshot_sync_skipped_after_initial_sync_done() {
    let mut sync = ChainSync::new();
    sync.on_peer_tip(5);
    for slot in 1..=5 {
        sync.on_block_processed(slot);
    }
    assert!(sync.initial_sync_done);
    // Now suddenly see a peer way ahead.
    sync.on_peer_tip(ChainSync::SNAPSHOT_THRESHOLD + 1000);
    assert!(
        !sync.should_use_snapshot_sync(),
        "post-initial-sync nodes use block sync regardless of distance"
    );
}

#[test]
fn snapshot_sync_skipped_when_already_in_progress() {
    let mut sync = ChainSync::new();
    sync.on_peer_tip(ChainSync::SNAPSHOT_THRESHOLD + 100);
    sync.snapshot_expected_root = Some([0u8; 32]); // simulate in-flight
    assert!(
        !sync.should_use_snapshot_sync(),
        "no double-request while snapshot is in flight"
    );
}

#[test]
fn snapshot_ws_anchor_no_checkpoint_accepts_anything() {
    // Bootstrap path: no checkpoint set, so nothing is rejected.
    assert!(ChainSync::check_snapshot_ws_anchor(0, &[0u8; 32], None).is_ok());
    assert!(ChainSync::check_snapshot_ws_anchor(1_000_000, &[0xAA; 32], None).is_ok());
}

#[test]
fn snapshot_ws_anchor_rejects_pre_checkpoint_slot() {
    let cp = (500u64, [0xAA; 32]);
    let err = ChainSync::check_snapshot_ws_anchor(499, &[0xBB; 32], Some(cp)).unwrap_err();
    assert!(err.contains("before WS checkpoint"));
    // Even with a state_root that happens to match, slot wins.
    let err = ChainSync::check_snapshot_ws_anchor(0, &[0xAA; 32], Some(cp)).unwrap_err();
    assert!(err.contains("before WS checkpoint"));
}

#[test]
fn snapshot_ws_anchor_rejects_wrong_root_at_checkpoint_slot() {
    let cp = (500u64, [0xAA; 32]);
    let err = ChainSync::check_snapshot_ws_anchor(500, &[0xBB; 32], Some(cp)).unwrap_err();
    assert!(err.contains("does not match"));
}

#[test]
fn snapshot_ws_anchor_accepts_at_checkpoint_with_matching_root() {
    let cp = (500u64, [0xAA; 32]);
    assert!(ChainSync::check_snapshot_ws_anchor(500, &[0xAA; 32], Some(cp)).is_ok());
}

#[test]
fn snapshot_ws_anchor_accepts_post_checkpoint() {
    let cp = (500u64, [0xAA; 32]);
    assert!(ChainSync::check_snapshot_ws_anchor(501, &[0xBB; 32], Some(cp)).is_ok());
    assert!(ChainSync::check_snapshot_ws_anchor(10_000, &[0xCC; 32], Some(cp)).is_ok());
}

/// Answers a request from a chain that is at `head` and holds these headers and
/// blocks, and from this state.
fn answer(
    req: &SyncReq,
    head: u64,
    root: [u8; 32],
    headers: &BTreeMap<u64, Vec<u8>>,
    blocks: &BTreeMap<u64, Vec<u8>>,
    entries: &Vec<(Vec<u8>, Vec<u8>)>,
    pinned: &mut Option<PinnedSnapshot>,
) -> SyncResp {
    match ChainSync::handle_inbound_request(req, head, root, pinned) {
        InboundStep::Respond(r) => r,
        InboundStep::Scan(mut scan) => {
            while let Some(slot) = scan.wanted() {
                scan.offer(blocks.get(&slot).cloned(), headers.get(&slot).cloned());
            }
            scan.finish()
        }
        InboundStep::Export => snapshot_response(entries.clone(), root, head),
        InboundStep::Chunk { pin, chunk_index, chunk_size } => {
            if pin {
                *pinned = Some(PinnedSnapshot::new(entries.clone(), root, head));
            }
            let snapshot = pinned.as_ref().unwrap();
            match snapshot.chunk(chunk_index, chunk_size) {
                Some(draft) => {
                    let hash = toy_hash(&chunk_hash_input(&draft.entries));
                    snapshot.chunk_response(chunk_index, draft, hash)
                }
                None => SyncResp::NotFound,
            }
        }
    }
}

fn toy_hash(bytes: &[u8]) -> [u8; 32] {
    let mut h = [0u8; 32];
    for (i, b) in bytes.iter().enumerate() {
        h[i % 32] = h[i % 32].wrapping_mul(31).wrapping_add(*b).wrapping_add(i as u8);
    }
    h
}

fn headers_to(n: u64) -> BTreeMap<u64, Vec<u8>> {
    (1..=n).map(|s| (s, vec![s as u8])).collect()
}

#[test]
fn handle_chain_tip_request() {
    let resp = answer(
        &SyncReq::GetChainTip,
        10,
        [0u8; 32],
        &headers_to(10),
        &BTreeMap::new(),
        &vec![],
        &mut None,
    );
    match resp {
        SyncResp::ChainTip { slot, .. } => assert_eq!(slot, 10),
        _ => panic!("expected ChainTip response"),
    }
}

#[test]
fn handle_get_blocks_request() {
    let resp = answer(
        &SyncReq::GetBlocks {
            start_slot: 1,
            count: 3,
        },
        5,
        [0u8; 32],
        &headers_to(5),
        &BTreeMap::new(),
        &vec![],
        &mut None,
    );
    match resp {
        SyncResp::Blocks(blocks) => {
            assert_eq!(blocks.len(), 3);
            // Falls back to header-only since no block bodies stored
            assert_eq!(blocks[0], vec![1]);
        }
        _ => panic!("expected Blocks response"),
    }
}

#[test]
fn handle_get_blocks_not_found() {
    let resp = answer(
        &SyncReq::GetBlocks {
            start_slot: 100,
            count: 10,
        },
        0,
        [0u8; 32],
        &BTreeMap::new(),
        &BTreeMap::new(),
        &vec![],
        &mut None,
    );
    match resp {
        SyncResp::NotFound => {}
        _ => panic!("expected NotFound"),
    }
}

#[test]
fn handle_state_snapshot_request() {
    let root = [7u8; 32];
    let entries = vec![(vec![1u8; 32], 42u128.to_le_bytes().to_vec())];
    let resp = answer(
        &SyncReq::GetStateSnapshot,
        5,
        root,
        &headers_to(5),
        &BTreeMap::new(),
        &entries,
        &mut None,
    );
    match resp {
        SyncResp::StateSnapshot {
            state_root,
            head_slot,
            entries,
        } => {
            assert_eq!(head_slot, 5);
            assert_eq!(entries.len(), 1);
            assert_eq!(state_root, root);
        }
        _ => panic!("expected StateSnapshot"),
    }
}

#[test]
fn answers_are_bounded() {
    let headers = headers_to(2_000);
    let none = BTreeMap::new();
    let all = |req: SyncReq| answer(&req, 2_000, [0; 32], &headers, &none, &vec![], &mut None);
    match all(SyncReq::GetBlocks { start_slot: 1, count: u32::MAX }) {
        SyncResp::Blocks(b) => assert_eq!(b.len(), 256),
        _ => panic!("blocks"),
    }
    match all(SyncReq::GetHeaders { start_slot: 1, count: u32::MAX }) {
        SyncResp::Headers(h) => assert_eq!(h.len(), 1024),
        _ => panic!("headers"),
    }
    assert!(matches!(
        all(SyncReq::GetHeaders { start_slot: 5_000, count: 2 }),
        SyncResp::NotFound
    ));
    assert!(matches!(
        all(SyncReq::GetBlocks { start_slot: u64::MAX, count: 5 }),
        SyncResp::NotFound
    ));
}

#[test]
fn headers_stop_at_the_first_gap_and_blocks_do_not() {
    let mut headers = headers_to(6);
    headers.remove(&3);
    let mut blocks = BTreeMap::new();
    blocks.insert(5u64, vec![50u8]);
    match answer(
        &SyncReq::GetHeaders { start_slot: 1, count: 6 },
        6,
        [0; 32],
        &headers,
        &blocks,
        &vec![],
        &mut None,
    ) {
        SyncResp::Headers(h) => assert_eq!(h, vec![vec![1], vec![2]]),
        _ => panic!("headers"),
    }
    match answer(
        &SyncReq::GetBlocks { start_slot: 2, count: 10 },
        6,
        [0; 32],
        &headers,
        &blocks,
        &vec![],
        &mut None,
    ) {
        SyncResp::Blocks(b) => assert_eq!(b, vec![vec![2], vec![4], vec![50], vec![6]]),
        _ => panic!("blocks"),
    }
}

#[test]
fn requests_go_out_one_at_a_time() {
    let mut sync = ChainSync::new();
    assert!(sync.request_next_batch(true, Some((1, 10))).is_none());
    sync.on_peer_tip(20);
    assert!(sync.is_syncing());
    assert!(sync.request_next_batch(false, Some((1, 10))).is_none());
    match sync.request_next_batch(true, Some((1, 10))) {
        Some(SyncReq::GetBlocks { start_slot: 1, count: 10 }) => {}
        _ => panic!("blocks are asked for"),
    }
    sync.on_request_sent(77);
    assert!(sync.request_next_batch(true, Some((1, 10))).is_none());
    let blocks = SyncResp::Blocks(vec![vec![1], vec![2]]);
    match sync.on_response(77, blocks, [0; 32], None) {
        SyncAction::ProcessBlocks(b) => assert_eq!(b, vec![vec![1], vec![2]]),
        _ => panic!("blocks are handed on"),
    }
    let n = sync.on_blocks(&vec![
        BlockOutcome::Applied { slot: 1 },
        BlockOutcome::HeaderApplied { head_slot: 2 },
        BlockOutcome::Rejected,
        BlockOutcome::Applied { slot: 4 },
    ]);
    assert_eq!(n, 2);
    assert_eq!(sync.manager.local_tip, 2);
    assert!(sync.request_next_batch(true, Some((3, 10))).is_some());
    assert!(matches!(ChainSync::request_chain_tip(), SyncReq::GetChainTip));
}

fn entries(n: usize) -> Vec<(Vec<u8>, Vec<u8>)> {
    (0..n).map(|i| (vec![(i % 251) as u8; 32], (i as u32).to_le_bytes().to_vec())).collect()
}

#[test]
fn a_snapshot_is_downloaded_in_chunks() {
    let state = entries(12_345);
    let root = [9u8; 32];
    let mut pinned = None;
    let mut sync = ChainSync::new();
    sync.on_peer_tip(5_000);
    let mut req = sync.request_next_batch(true, None).unwrap();
    match req {
        SyncReq::GetStateSnapshotChunk { chunk_index: 0, chunk_size } => {
            assert_eq!(chunk_size, SNAPSHOT_CHUNK_SIZE)
        }
        _ => panic!("a fresh node that is far behind asks for a snapshot"),
    }
    let mut id = 0;
    loop {
        id += 1;
        sync.on_request_sent(id);
        let none = BTreeMap::new();
        let resp = answer(&req, 5_000, root, &none, &none, &state, &mut pinned);
        let hash = match &resp {
            SyncResp::StateSnapshotChunk { entries, total_chunks, .. } => {
                assert_eq!(*total_chunks, 3);
                toy_hash(&chunk_hash_input(entries))
            }
            _ => panic!("a chunk"),
        };
        match sync.on_response(id, resp, hash, Some((4_000, [1; 32]))) {
            SyncAction::Nothing => {
                let next = sync.needs_next_chunk().expect("there are more chunks");
                req = ChainSync::request_next_chunk(next);
            }
            SyncAction::ImportSnapshot { entries, state_root, head_slot } => {
                assert_eq!(id, 3);
                assert_eq!(entries, state);
                assert_eq!(state_root, root);
                assert_eq!(head_slot, 5_000);
                assert!(sync.needs_next_chunk().is_none());
                sync.on_snapshot_imported(root, 5_000, &Ok([0; 32]));
                assert!(!sync.initial_sync_done, "another root is no import");
                sync.on_snapshot_imported(root, 5_000, &Ok(root));
                assert!(sync.initial_sync_done);
                assert_eq!(sync.manager.local_tip, 5_000);
                return;
            }
            SyncAction::ProcessBlocks(_) => panic!("no blocks here"),
        }
    }
}

#[test]
fn bad_chunks_end_a_download() {
    let mut sync = ChainSync::new();
    sync.on_peer_tip(5_000);
    let chunk = || SyncResp::StateSnapshotChunk {
        state_root: [9; 32],
        head_slot: 5_000,
        chunk_index: 0,
        total_chunks: 2,
        chunk_hash: [1; 32],
        entries: entries(3),
    };
    assert!(matches!(sync.on_response(1, chunk(), [1; 32], None), SyncAction::Nothing));
    assert_eq!(sync.needs_next_chunk(), Some(1));
    for id in 0..CHUNK_MAX_RETRIES as u64 {
        // The hash that is computed differs from the one that was sent.
        assert!(matches!(sync.on_response(10 + id, chunk(), [2; 32], None), SyncAction::Nothing));
        assert_eq!(sync.needs_next_chunk(), Some(1), "it is asked for again");
    }
    assert!(matches!(sync.on_response(20, chunk(), [2; 32], None), SyncAction::Nothing));
    assert!(sync.needs_next_chunk().is_none(), "the download was given up");
    assert!(sync.snapshot_expected_root.is_none());
}

#[test]
fn a_snapshot_before_the_anchor_is_not_imported() {
    let mut sync = ChainSync::new();
    sync.on_peer_tip(5_000);
    let whole = SyncResp::StateSnapshot { state_root: [9; 32], head_slot: 10, entries: entries(2) };
    assert!(matches!(
        sync.on_response(1, whole, [0; 32], Some((11, [3; 32]))),
        SyncAction::Nothing
    ));
    let whole = SyncResp::StateSnapshot { state_root: [9; 32], head_slot: 12, entries: entries(2) };
    assert!(matches!(
        sync.on_response(2, whole, [0; 32], Some((11, [3; 32]))),
        SyncAction::ImportSnapshot { .. }
    ));
}

#[test]
fn scans_walk_the_slots() {
    let mut scan = SlotScan::headers(7, 2);
    assert_eq!(scan.wanted(), Some(7));
    scan.offer(Some(vec![1]), Some(vec![2]));
    assert_eq!(scan.wanted(), Some(8));
    scan.offer(None, Some(vec![3]));
    assert_eq!(scan.wanted(), None);
    match scan.finish() {
        SyncResp::Headers(h) => assert_eq!(h, vec![vec![2], vec![3]]),
        _ => panic!("headers"),
    }
    // Blocks are looked for past the head as far as they were asked for.
    let mut scan = SlotScan::blocks(9, 2, 3);
    scan.offer(None, None);
    assert_eq!(scan.wanted(), Some(10));
    scan.offer(None, None);
    assert_eq!(scan.wanted(), None);
    assert!(matches!(scan.finish(), SyncResp::NotFound));
}
