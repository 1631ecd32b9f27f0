use pyde_node::mempool::{FeePayer, GossipVerdict, PendingPool, Transaction, TransactionType};

fn tx(from: u8, nonce: u64) -> Transaction {
    Transaction {
        from: [from; 32],
        to: [0xEE; 32],
        value: 1,
        data: vec![],
        gas_limit: 21_000,
        nonce,
        signature: vec![],
        fee_payer: FeePayer::Sender,
        access_list: vec![],
        deadline: None,
        chain_id: 31337,
        tx_type: TransactionType::Standard,
    }
}

fn hash(n: u64) -> [u8; 32] {
    let mut h = [0u8; 32];
    h[..8].copy_from_slice(&n.to_le_bytes());
    h
}

const SECOND: u64 = 1_000_000_000;

#[test]
fn a_sender_has_a_cap() {
    let mut pool = PendingPool::new();
    for n in 0..128u64 {
        assert!(pool.submit(hash(n), tx(1, n), 0).is_ok());
    }
    let e = pool.submit(hash(500), tx(1, 500), 0).unwrap_err();
    assert_eq!(e.code, -32009);
    assert_eq!(
        e.message,
        "mempool sender cap reached: 128 pending txs from this sender (max 128)"
    );
    // A duplicate is named as one even at the cap; others are not held up.
    assert_eq!(pool.submit(hash(501), tx(1, 5), 0).unwrap_err().code, -32010);
    assert!(pool.submit(hash(502), tx(2, 5), 0).is_ok());
    assert_eq!(pool.check(&[2; 32], 5).map(|e| e.code), Some(-32010));
    assert!(pool.check(&[3; 32], 5).is_none());
    // Gossip has no cap for a sender.
    assert_eq!(
        pool.accept_gossip(hash(600), tx(1, 600), vec![1], 0),
        GossipVerdict::Accepted
    );
    assert_eq!(
        pool.accept_gossip(hash(601), tx(1, 600), vec![1], 0),
        GossipVerdict::Duplicate
    );
}

#[test]
fn old_transactions_are_swept() {
    let mut pool = PendingPool::new();
    pool.submit(hash(1), tx(1, 0), 10 * SECOND).unwrap();
    pool.submit(hash(2), tx(1, 1), 20 * SECOND).unwrap();
    pool.index_encoded(hash(1), vec![1]);
    assert_eq!(pool.age_secs(&hash(1), 15 * SECOND), 5);
    // Exactly four minutes are not too many.
    assert_eq!(pool.sweep(250 * SECOND), 0);
    assert_eq!(pool.sweep(250 * SECOND + 1), 1);
    assert!(pool.get(&hash(1)).is_none());
    assert!(pool.encoded(&hash(1)).is_none());
    assert!(pool.get(&hash(2)).is_some());
    assert_eq!(pool.len(), 1);
}

#[test]
fn committed_transactions_leave_the_pool() {
    let mut pool = PendingPool::new();
    for n in 1..=3u64 {
        assert_eq!(
            pool.accept_gossip(hash(n), tx(n as u8, 0), vec![n as u8], 0),
            GossipVerdict::Accepted
        );
    }
    pool.remove_committed(&vec![hash(1), hash(99)]);
    assert!(pool.get(&hash(1)).is_none());
    assert!(pool.encoded(&hash(1)).is_none());
    // Blocks that are still put together need the encodings.
    pool.remove_processed(&vec![hash(2)]);
    assert!(pool.get(&hash(2)).is_none());
    assert_eq!(pool.encoded(&hash(2)), Some(&vec![2]));
    assert_eq!(pool.len(), 1);
    let mut entries = pool.index_entries();
    entries.sort();
    assert_eq!(entries, vec![(hash(2), vec![2]), (hash(3), vec![3])]);
    assert_eq!(pool.gossip_retry(), vec![hash(3)]);
}

#[test]
fn retries_are_bounded() {
    let mut pool = PendingPool::new();
    for n in 0..1_100u64 {
        assert_eq!(
            pool.accept_gossip(hash(n), tx(1, n), vec![], 0),
            GossipVerdict::Accepted
        );
    }
    assert_eq!(pool.gossip_retry().len(), 1_000);
    assert_eq!(pool.next_nonce(&[1; 32], None, 0), 1_100);
    assert_eq!(pool.next_nonce(&[1; 32], None, 5_000), 5_000);
    assert_eq!(pool.next_nonce(&[1; 32], Some(2), 5_000), 2);
    assert_eq!(pool.next_nonce(&[9; 32], None, 4), 4);
}
