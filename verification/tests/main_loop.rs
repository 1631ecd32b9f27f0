use pyde_node::buffers::{is_recent, BlockBuffers, ShareMsg};
use pyde_node::dashboard::{
    chain_rows, header_texts, kv, mempool_rows, peer_rows, total_rows, ChainFigures, Counters,
    ThroughputState,
};
use pyde_node::events::Channel;
use pyde_node::keymap::BlockId;
use pyde_node::mempool::{FeePayer, GossipVerdict, Transaction, TransactionType};
use pyde_node::node::{
    canonical_step, commit_jmt_writes, compact_hashes, dial_choice, epoch_boundary, rotation_plan,
    inclusion_verdict, infers_access_lists, kicks_decryption, may_propose, mismatch_step,
    own_vote_step, polls_tip, proposal_transactions, replays, split_body, stuck_slots, tx_kind,
    voting_open, vrf_data, CanonicalStep, InclusionVerdict, MismatchStep, NodeBooks, OwnVoteStep,
    SlotWatch, TxKind,
};
use pyde_node::receipt_store::Receipt;
use pyde_node::state_manager::{StateManager, TreeError};
use pyde_node::sync::SyncReq;

fn tx(from: u8, nonce: u64) -> Transaction {
    Transaction {
        from: [from; 32],
        to: [0xEE; 32],
        value: 1,
        data: vec![],
        gas_limit: 21_000,
        nonce,
        signature: vec![],
        fee_payer: FeePayer::Sender,
        access_list: vec![],
        deadline: None,
        chain_id: 31337,
        tx_type: TransactionType::Standard,
    }
}

fn receipt(tx_hash: [u8; 32]) -> Receipt {
    Receipt {
        tx_hash,
        success: true,
        gas_used: 1,
        gas_refund: 0,
        effective_gas: 1,
        fee_paid: 0,
        fee_burned: 0,
        fee_validator: 0,
        fee_treasury: 0,
        logs: vec![],
        state_root: [0; 32],
        return_data: vec![],
    }
}

#[test]
fn competing_blocks_are_bounded() {
    let mut b = BlockBuffers::new();
    for slot in 0..64u64 {
        b.buffer_competing(BlockId { slot, hash: [1; 32] }, vec![slot as u8]);
    }
    assert_eq!(b.competing_len(), 64);
    b.buffer_competing(BlockId { slot: 3, hash: [1; 32] }, vec![0xAA]);
    assert_eq!(b.competing_len(), 64);
    let id = BlockId { slot: 99, hash: [2; 32] };
    b.buffer_competing(id, vec![0xBB]);
    assert_eq!(b.competing_len(), 64);
    assert_eq!(b.take_competing(&id), Some(vec![0xBB]));
    assert_eq!(b.take_competing(&id), None);
    assert_eq!(b.competing_len(), 63);
}

#[test]
fn what_is_too_old_is_let_go_of() {
    assert!(is_recent(1, 100));
    assert!(!is_recent(1, 101));
    assert!(is_recent(u64::MAX, 5));
    let mut b = BlockBuffers::new();
    b.buffer_body([1; 32], 50, vec![1]);
    b.buffer_body([2; 32], 51, vec![2]);
    let id = |slot| BlockId { slot, hash: [7; 32] };
    // A bundle of a block that is exactly a hundred slots behind is still taken.
    assert!(b.buffer_bundle(id(50), vec![vec![5]], 150));
    assert!(!b.buffer_bundle(id(49), vec![vec![4]], 150));
    assert!(b.buffer_bundle(id(51), vec![vec![6], vec![7]], 150));
    let msg = |m| ShareMsg { member_index: m, shares: vec![vec![m], vec![m, m]] };
    assert!(b.on_shares(50, msg(1), false).is_none());
    assert!(b.on_shares(51, msg(2), false).is_none());
    assert!(b.on_shares(51, msg(3), false).is_none());
    b.maintain(150);
    assert!(b.body(&[1; 32]).is_none());
    assert_eq!(b.body(&[2; 32]).map(|x| x.bytes.clone()), Some(vec![2]));
    assert_eq!(b.take_bundle(&id(50)), None);
    assert_eq!(b.take_bundle(&id(51)), Some(vec![vec![6], vec![7]]));
    assert_eq!(b.take_bundle(&id(51)), None);
    assert!(b.take_shares(50).is_empty());
    // In the order in which they came, each with its transaction's index.
    assert_eq!(
        b.take_shares(51),
        vec![(0, vec![2]), (1, vec![2, 2]), (0, vec![3]), (1, vec![3, 3])]
    );
    assert!(b.take_shares(51).is_empty());
    assert_eq!(b.on_shares(9, msg(4), true), Some(vec![(0, vec![4]), (1, vec![4, 4])]));
    b.drop_body(&[2; 32]);
    assert!(b.body(&[2; 32]).is_none());
}

#[test]
fn certified_blocks() {
    let mut b = BlockBuffers::new();
    let hash = [1; 32];
    assert_eq!(canonical_step(&b, 4, 5, &hash, None), CanonicalStep::Unavailable);
    assert_eq!(canonical_step(&b, 4, 5, &hash, Some([9; 32])), CanonicalStep::Unavailable);
    assert_eq!(canonical_step(&b, 4, 5, &hash, Some([0; 32])), CanonicalStep::ApplyEmpty);
    assert_eq!(canonical_step(&b, 5, 5, &hash, Some([0; 32])), CanonicalStep::AlreadyApplied);
    b.buffer_body(hash, 5, vec![1]);
    assert_eq!(canonical_step(&b, 4, 5, &hash, None), CanonicalStep::ApplyBuffered);
    assert_eq!(canonical_step(&b, 6, 5, &hash, None), CanonicalStep::AlreadyApplied);
}

#[test]
fn blocks_certified_by_the_own_vote() {
    let mut b = BlockBuffers::new();
    let hash = [1; 32];
    let root = Some([9; 32]);
    assert_eq!(own_vote_step(&b, 4, None, 5, hash, None), OwnVoteStep::NoProposal);
    assert_eq!(own_vote_step(&b, 4, None, 5, hash, root), OwnVoteStep::Unavailable);
    assert_eq!(own_vote_step(&b, 4, None, 5, hash, Some([0; 32])), OwnVoteStep::Apply);
    b.buffer_body(hash, 5, vec![1]);
    assert_eq!(own_vote_step(&b, 4, None, 5, hash, root), OwnVoteStep::Apply);
    assert_eq!(own_vote_step(&b, 5, Some(hash), 5, hash, root), OwnVoteStep::AlreadyCanonical);
    assert_eq!(
        own_vote_step(&b, 5, Some([2; 32]), 5, hash, root),
        OwnVoteStep::RollBack { target: 4 }
    );
    assert_eq!(own_vote_step(&b, 5, None, 5, hash, root), OwnVoteStep::RollBack { target: 4 });
    assert_eq!(own_vote_step(&b, 6, Some(hash), 5, hash, root), OwnVoteStep::BehindHead);

    assert_eq!(mismatch_step(None, &hash, true), MismatchStep::Agrees);
    assert_eq!(mismatch_step(Some(hash), &hash, true), MismatchStep::Agrees);
    assert_eq!(mismatch_step(Some([2; 32]), &hash, true), MismatchStep::Reorganize);
    assert_eq!(mismatch_step(Some([2; 32]), &hash, false), MismatchStep::TargetNotBuffered);
}

#[test]
fn slots_and_epochs() {
    let mut w = SlotWatch { last_slot: 3 };
    assert!(!w.tick(3));
    assert!(w.tick(7));
    assert!(!w.tick(6));
    assert_eq!(w.last_slot, 7);
    assert_eq!(epoch_boundary(999, 1000, 1000), Some(1));
    assert_eq!(epoch_boundary(1000, 1999, 1000), None);
    assert_eq!(epoch_boundary(0, 5000, 1000), Some(5));
    assert_eq!(epoch_boundary(0, 10, 1000), None);
    assert!(may_propose(5, 4) && !may_propose(5, 5));
    assert!(voting_open(100) && !voting_open(99));
    assert!(infers_access_lists(100) && !infers_access_lists(99));
    assert!(polls_tip(6, 4) && !polls_tip(5, 4));
    assert!(!polls_tip(u64::MAX, u64::MAX));
}

#[test]
fn proposals() {
    let nonces: Vec<u64> = proposal_transactions(vec![tx(1, 9)], vec![tx(2, 1), tx(2, 2)])
        .iter()
        .map(|t| t.nonce)
        .collect();
    assert_eq!(nonces, vec![9, 1, 2]);
    assert_eq!(vrf_data(&vec![1; 32], &vec![2, 3])[30..], [1, 1, 2, 3]);
    assert_eq!(compact_hashes(vec![[1; 32]], vec![[2; 32]]), vec![[1; 32], [2; 32]]);
}

#[test]
fn compact_blocks_are_taken_apart() {
    assert_eq!(tx_kind(true, true), TxKind::Plain);
    assert_eq!(tx_kind(false, true), TxKind::Encrypted);
    assert_eq!(tx_kind(false, false), TxKind::Unreadable);
    let parts = split_body(&vec![
        (TxKind::Encrypted, vec![1]),
        (TxKind::Plain, vec![2]),
        (TxKind::Unreadable, vec![3]),
        (TxKind::Plain, vec![4]),
    ]);
    assert_eq!(parts.plain, vec![vec![2], vec![4]]);
    assert_eq!(parts.encrypted, vec![vec![1]]);
    assert_eq!(parts.group, vec![0, 1]);
}

#[test]
fn small_committees_do_not_abstain() {
    assert_eq!(inclusion_verdict(true, 128), InclusionVerdict::Clean);
    assert_eq!(inclusion_verdict(false, 31), InclusionVerdict::Observe);
    assert_eq!(inclusion_verdict(false, 32), InclusionVerdict::Abstain);
}

#[test]
fn decryption_starts_when_everything_is_there() {
    assert!(kicks_decryption(1, true, false, true, true));
    assert!(!kicks_decryption(0, true, false, true, true));
    assert!(!kicks_decryption(1, false, false, true, true));
    assert!(!kicks_decryption(1, true, true, true, true));
    assert!(!kicks_decryption(1, true, false, false, true));
    assert!(!kicks_decryption(1, true, false, true, false));
    assert_eq!(stuck_slots(&vec![(4, true), (5, false), (6, false)]), vec![5, 6]);
}

#[test]
fn what_a_new_epoch_calls_for() {
    let plan = rotation_plan(7, true, true);
    assert_eq!((plan.randomness_for, plan.refresh_for), (8, 8));
    assert_eq!(plan.reshare_for, Some(7));
    // Only an outgoing member with a key share deals the key on.
    assert_eq!(rotation_plan(7, false, true).reshare_for, None);
    assert_eq!(rotation_plan(7, true, false).reshare_for, None);
    assert_eq!(rotation_plan(7, false, false).randomness_for, 8);
}

#[test]
fn discovered_peers_are_dialed_once() {
    assert_eq!(dial_choice(false, true, &vec![false, true, true]), Some(1));
    assert_eq!(dial_choice(false, true, &vec![false, false]), Some(0));
    assert_eq!(dial_choice(false, true, &vec![]), None);
    assert_eq!(dial_choice(true, true, &vec![true]), None);
    assert_eq!(dial_choice(false, false, &vec![true]), None);
    assert!(replays(Some(Channel::Consensus)) && replays(Some(Channel::Blocks)));
    assert!(!replays(Some(Channel::Transactions)) && !replays(None));
}

#[test]
fn the_root_of_a_commit_is_taken_over() {
    let mut s = StateManager::open([1; 32]);
    commit_jmt_writes(&mut s, 0, Ok([2; 32]));
    assert_eq!(s.root(), [1; 32]);
    commit_jmt_writes(&mut s, 1, Err(TreeError::Failed("x".to_string())));
    assert_eq!(s.root(), [1; 32]);
    commit_jmt_writes(&mut s, 1, Ok([2; 32]));
    assert_eq!(s.root(), [2; 32]);
}

#[test]
fn books_follow_an_applied_block() {
    let mut books = NodeBooks::new(4);
    assert_eq!(books.sync.manager.local_tip, 4);
    for n in 1..=3u8 {
        assert_eq!(
            books.pool.accept_gossip([n; 32], tx(n, 0), vec![n], 0),
            GossipVerdict::Accepted
        );
    }
    books.buffers.buffer_body([0xB0; 32], 5, vec![1]);
    books.on_canonical_applied(5, &[0xB0; 32], &vec![[1; 32]], vec![receipt([1; 32])]);
    assert_eq!(books.sync.manager.local_tip, 5);
    assert!(books.sync.initial_sync_done);
    assert!(books.pool.get(&[1; 32]).is_none());
    assert!(books.pool.encoded(&[1; 32]).is_none());
    assert!(books.receipts.get(&[1; 32]).is_some());
    assert!(books.buffers.body(&[0xB0; 32]).is_none());

    books.on_gossip_applied(6, &vec![[2; 32]], vec![]);
    assert_eq!(books.sync.manager.local_tip, 6);
    assert!(books.pool.get(&[2; 32]).is_none());
    assert!(books.pool.encoded(&[2; 32]).is_some());
    // What is listed for a proposal is what is pending, with an encoding or not.
    assert!(books.pool.submit([4; 32], tx(4, 0), 0).is_ok());
    assert!(books.pool.encoded(&[4; 32]).is_none());
    let mut listed: Vec<[u8; 32]> =
        books.pool.pending_transactions().iter().map(|(h, _)| *h).collect();
    listed.sort();
    assert_eq!(listed, vec![[3; 32], [4; 32]]);
    let four = books.pool.pending_transactions();
    assert!(four.iter().any(|(h, t)| *h == [4; 32] && t.from == tx(4, 0).from));
    books.pool.remove_processed(&vec![[4; 32]]);
    assert_eq!(books.receipts.tx_hashes_at_slot(6), None);

    books.on_synced(vec![(7, vec![receipt([7; 32])]), (8, vec![receipt([8; 32])])]);
    books.on_decrypted(8, vec![]);
    assert_eq!(books.receipts.slot_of(&[8; 32]), Some(8));
    assert_eq!(books.receipts.len(), 3);
    books.on_fallback_applied(9);
    assert_eq!(books.sync.manager.local_tip, 9);

    assert_eq!(books.maintain(241_000_000_000, 9), 1);
    assert_eq!(books.pool.len(), 0);
}

#[test]
fn decrypted_receipts_join_those_of_their_block() {
    let mut books = NodeBooks::new(4);
    books.on_canonical_applied(5, &[0xB0; 32], &vec![[1; 32]], vec![receipt([1; 32])]);
    books.on_decrypted(5, vec![receipt([2; 32])]);
    assert_eq!(books.receipts.tx_hashes_at_slot(5), Some(vec![[1; 32], [2; 32]]));
    assert_eq!(books.receipts.slot_of(&[1; 32]), Some(5));
    assert_eq!(books.receipts.slot_of(&[2; 32]), Some(5));
}

#[test]
fn missing_transactions_lead_to_a_sync() {
    let mut books = NodeBooks::new(4);
    match books.on_missing_transactions(9, true, Some((5, 5))) {
        Some(SyncReq::GetBlocks { start_slot: 5, count: 5 }) => {}
        _ => panic!("the blocks are asked for"),
    }
    assert_eq!(books.sync.manager.network_tip, 9);
    assert!(books.continue_sync(false, Some((5, 5))).is_none());
    assert!(books.continue_sync(true, Some((5, 5))).is_some());
}

#[test]
fn dashboard_lines() {
    let r = kv("epoch", "3".to_string());
    assert_eq!(r.label, format!("  {:<18}", "epoch"));
    assert_eq!(r.value, "3");
    assert_eq!(kv("a name of more than eighteen", String::new()).label, "  a name of more than eighteen");
    let c = ChainFigures {
        head_slot: 10,
        finalized_slot: 8,
        epoch: 1,
        base_fee: 50,
        last_block_slot: 10,
        last_block_txs: 2,
        last_block_gas: 42_000,
        last_block_ms: 7,
        last_block_at_ms: 1_000,
    };
    let values: Vec<String> = chain_rows(&c, 1_250).into_iter().map(|r| r.value).collect();
    assert_eq!(
        values,
        vec!["10", "8", "2", "1", "50", "slot=10 txs=2 gas=42000 elapsed_ms=7", "250 ms"]
    );
    assert_eq!(peer_rows(3, 4, &[0; 32])[2].value, "—");
    assert_eq!(peer_rows(3, 4, &[0xAB; 32])[2].value, "0xabababababababab");
    assert_eq!(mempool_rows(5, 6)[1].value, "6");
    let (role, addr) = header_texts(true, &[1; 32]);
    assert_eq!(role, "· role=validator ");
    assert_eq!(addr, "· addr=0x010101010101");
    assert_eq!(header_texts(false, &[1; 32]).0, "· role=full ");
}

#[test]
fn throughput_is_what_the_counters_grew_by() {
    let first = Counters { blocks: 1, txs: 10, accepts: 5, rejects: 7 };
    let second = Counters { blocks: 3, txs: 15, accepts: 5, rejects: 2 };
    let mut t = ThroughputState::new(&first);
    let grown = t.tick(&second);
    assert_eq!(grown, Counters { blocks: 2, txs: 5, accepts: 0, rejects: 0 });
    assert_eq!(t.tick(&second), Counters { blocks: 0, txs: 0, accepts: 0, rejects: 0 });
    assert_eq!(total_rows(&second)[2].value, "5 ok / 2 err");
}
