use pyde_node::receipt_store::{LogEntry, Receipt, ReceiptStore};

fn dummy_receipt(tx_hash: [u8; 32], gas: u64) -> Receipt {
    Receipt {
        tx_hash,
        success: true,
        gas_used: gas,
        gas_refund: 0,
        effective_gas: gas,
        fee_paid: 0,
        fee_burned: 0,
        fee_validator: 0,
        fee_treasury: 0,
        logs: vec![],
        state_root: [0u8; 32],
        return_data: vec![],
    }
}

#[test]
fn insert_and_get() {
    let mut store = ReceiptStore::new();
    let hash = [0xAA; 32];
    store.insert_block_receipts(1, vec![dummy_receipt(hash, 21000)]);

    let r = store.get(&hash).unwrap();
    assert_eq!(r.gas_used, 21000);
    assert!(r.success);
}

#[test]
fn missing_receipt_returns_none() {
    let store = ReceiptStore::new();
    assert!(store.get(&[0xFF; 32]).is_none());
}

#[test]
fn prune_old_slots() {
    let mut store = ReceiptStore::new();
    store.insert_block_receipts(1, vec![dummy_receipt([0x01; 32], 100)]);
    store.insert_block_receipts(20_000, vec![dummy_receipt([0x02; 32], 200)]);

    // Slot 1 should be pruned (20000 - 10000 = 10000 > 1)
    assert!(store.get(&[0x01; 32]).is_none());
    assert!(store.get(&[0x02; 32]).is_some());
}

#[test]
fn get_logs_with_filter() {
    let mut store = ReceiptStore::new();
    let addr = [0xCC; 32];
    let receipt = Receipt {
        tx_hash: [0xAA; 32],
        success: true,
        gas_used: 50000,
        gas_refund: 0,
        effective_gas: 50000,
        fee_paid: 0,
        fee_burned: 0,
        fee_validator: 0,
        fee_treasury: 0,
        logs: vec![
            LogEntry { address: addr, topics: vec![], data: vec![1, 2, 3] },
            LogEntry { address: [0xDD; 32], topics: vec![], data: vec![4, 5] },
        ],
        state_root: [0u8; 32],
        return_data: vec![],
    };
    store.insert_block_receipts(5, vec![receipt]);

    // Filter by address
    let logs = store.get_logs(0, 10, Some(&addr));
    assert_eq!(logs.len(), 1);
    assert_eq!(logs[0].1.data, vec![1, 2, 3]);

    // No filter — all logs
    let all_logs = store.get_logs(0, 10, None);
    assert_eq!(all_logs.len(), 2);
}

#[test]
fn the_oldest_kept_slot_is_the_last_one_in_the_window() {
    let mut store = ReceiptStore::new();
    store.insert_block_receipts(1, vec![dummy_receipt([1; 32], 1)]);
    store.insert_block_receipts(2, vec![dummy_receipt([2; 32], 1)]);
    store.insert_block_receipts(10_002, vec![dummy_receipt([3; 32], 1)]);
    assert!(store.get(&[1; 32]).is_none());
    assert!(store.get(&[2; 32]).is_some());
    assert_eq!(store.len(), 2);
    assert_eq!(store.tx_hashes_at_slot(2), Some(vec![[2; 32]]));
    assert_eq!(store.tx_hashes_at_slot(1), None);
    assert_eq!(store.slot_of(&[3; 32]), Some(10_002));
    assert_eq!(store.slot_of(&[1; 32]), None);
}

#[test]
fn logs_come_in_the_order_of_slots() {
    let mut store = ReceiptStore::new();
    for slot in [3u64, 1, 2] {
        let mut r = dummy_receipt([slot as u8; 32], 1);
        r.logs.push(LogEntry { address: [9; 32], topics: vec![], data: vec![slot as u8] });
        store.insert_block_receipts(slot, vec![r]);
    }
    let slots: Vec<u64> = store.get_logs(2, 3, None).iter().map(|l| l.0).collect();
    assert_eq!(slots, vec![2, 3]);
}

fn receipt_with_log(tx_hash: [u8; 32], data: u8) -> Receipt {
    let mut r = dummy_receipt(tx_hash, 1);
    r.logs.push(LogEntry { address: [0xCC; 32], topics: vec![], data: vec![data] });
    r
}

#[test]
fn a_slot_keeps_what_it_lists() {
    let mut store = ReceiptStore::new();
    store.insert_block_receipts(5, vec![receipt_with_log([1; 32], 1)]);
    store.insert_block_receipts(5, vec![receipt_with_log([2; 32], 2)]);
    let data: Vec<Vec<u8>> = store.get_logs(5, 5, None).iter().map(|l| l.1.data.clone()).collect();
    assert_eq!(data, vec![vec![1], vec![2]]);
    assert_eq!(store.tx_hashes_at_slot(5), Some(vec![[1; 32], [2; 32]]));
    assert_eq!(store.slot_of(&[1; 32]), Some(5));
    // A receipt that comes again takes the place of the earlier one.
    store.insert_block_receipts(5, vec![receipt_with_log([1; 32], 3)]);
    let data: Vec<Vec<u8>> = store.get_logs(5, 5, None).iter().map(|l| l.1.data.clone()).collect();
    assert_eq!(data, vec![vec![2], vec![3]]);
    assert_eq!(store.len(), 2);
    // Both are dropped with their slot.
    store.insert_block_receipts(20_000, vec![]);
    assert_eq!(store.len(), 0);
}

#[test]
fn a_receipt_that_came_again_outlives_its_old_slot() {
    let mut store = ReceiptStore::new();
    store.insert_block_receipts(1, vec![dummy_receipt([1; 32], 1), dummy_receipt([2; 32], 1)]);
    store.insert_block_receipts(20_000, vec![dummy_receipt([1; 32], 7)]);
    assert_eq!(store.get(&[1; 32]).unwrap().gas_used, 7);
    assert!(store.get(&[2; 32]).is_none());
    assert_eq!(store.slot_of(&[1; 32]), Some(20_000));
    assert_eq!(store.tx_hashes_at_slot(1), None);
    // The slot is that of the receipt that is kept, be it an earlier one.
    store.insert_block_receipts(19_990, vec![dummy_receipt([1; 32], 8)]);
    assert_eq!(store.slot_of(&[1; 32]), Some(19_990));
    assert_eq!(store.get(&[1; 32]).unwrap().gas_used, 8);
}

#[test]
fn the_last_of_several_receipts_counts() {
    let mut store = ReceiptStore::new();
    store.insert_block_receipts(3, vec![dummy_receipt([1; 32], 1), dummy_receipt([1; 32], 2)]);
    assert_eq!(store.get(&[1; 32]).unwrap().gas_used, 2);
}

#[test]
fn ranges_of_logs_join_and_filters_select() {
    let mut store = ReceiptStore::new();
    for slot in 1..=4u64 {
        let mut r = receipt_with_log([slot as u8; 32], slot as u8);
        r.logs.push(LogEntry { address: [0xDD; 32], topics: vec![], data: vec![slot as u8 + 10] });
        store.insert_block_receipts(slot, vec![r]);
    }
    let data = |from: u64, to: u64, at: Option<[u8; 32]>| -> Vec<u8> {
        store.get_logs(from, to, at.as_ref()).iter().map(|l| l.1.data[0]).collect()
    };
    assert_eq!(data(1, 4, None), vec![1, 11, 2, 12, 3, 13, 4, 14]);
    let mut halves = data(1, 2, None);
    halves.extend(data(3, 4, None));
    assert_eq!(halves, data(1, 4, None));
    assert_eq!(data(1, 4, Some([0xDD; 32])), vec![11, 12, 13, 14]);
}
