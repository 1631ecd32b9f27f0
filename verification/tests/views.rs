use pyde_node::hexcodec::key_text;
use pyde_node::mempool::{FeePayer, PendingPool, Transaction, TransactionType};
use pyde_node::receipt_store::{LogEntry, Receipt, ReceiptStore};
use pyde_node::rpc::CallRequest;
use pyde_node::rpc_views::{
    balance_slot_preimage, balance_text, block_not_found, block_view, count_text,
    decode_block_transactions, deploy_access_list, get_logs, head_event, log_events, log_matches,
    parse_log_filter, receipt_to_json, simulated_access_list, stored_text, subscription_passes,
    syncing_view, transaction_receipt, transaction_status, transfer_access_list, validator_count,
    validators_view, BlockTxFields, FilterObject, HeaderFields, TopicEntry, TransactionStatus,
    ValidatorEntry, ValidatorRow,
};

fn receipt(tx_hash: [u8; 32]) -> Receipt {
    Receipt {
        tx_hash,
        success: true,
        gas_used: 21000,
        gas_refund: 0,
        effective_gas: 21000,
        fee_paid: 1050000,
        fee_burned: 735000,    // 70%
        fee_validator: 210000, // 20%
        fee_treasury: 105000,  // 10%
        logs: vec![],
        state_root: [0; 32],
        return_data: vec![],
    }
}

#[test]
fn receipt_json_format() {
    let json = receipt_to_json(&receipt([0xAA; 32]));
    assert_eq!(json.success, true);
    assert_eq!(json.gas_used, "0x5208");
}

#[test]
fn receipts_are_shown_in_full() {
    let mut r = receipt([0xAA; 32]);
    r.return_data = vec![1, 255];
    r.logs.push(LogEntry { address: [2; 32], topics: vec![vec![3; 32]], data: vec![4] });
    let v = receipt_to_json(&r);
    assert_eq!(v.tx_hash, key_text(&[0xAA; 32]));
    assert_eq!(v.fee_paid, "1050000");
    assert_eq!(v.fee_burned, "735000");
    assert_eq!(v.fee_validator, "210000");
    assert_eq!(v.fee_treasury, "105000");
    assert_eq!(v.return_data, Some("0x01ff".to_string()));
    assert_eq!(v.logs.len(), 1);
    assert_eq!(v.logs[0].address, key_text(&[2; 32]));
    assert_eq!(v.logs[0].topics, vec![key_text(&[3; 32])]);
    assert_eq!(v.logs[0].data, "0x04");
    assert_eq!(receipt_to_json(&receipt([0; 32])).return_data, None);
}

#[test]
fn transactions_are_looked_up() {
    let mut receipts = ReceiptStore::new();
    receipts.insert_block_receipts(9, vec![receipt([1; 32])]);
    let mut pool = PendingPool::new();
    let tx = Transaction {
        from: [7; 32],
        to: [8; 32],
        value: 0,
        data: vec![],
        gas_limit: 0,
        nonce: 0,
        signature: vec![],
        fee_payer: FeePayer::Sender,
        access_list: vec![],
        deadline: None,
        chain_id: 1,
        tx_type: TransactionType::Standard,
    };
    pool.submit([2; 32], tx, 1_000_000_000).unwrap();
    match transaction_status(&receipts, &pool, &[1; 32], 0) {
        TransactionStatus::Included { slot, success, gas_used, effective_gas } => {
            assert_eq!(slot, 9);
            assert!(success);
            assert_eq!(gas_used, "0x5208");
            assert_eq!(effective_gas, "0x5208");
        }
        _ => panic!("included"),
    }
    assert!(matches!(
        transaction_status(&receipts, &pool, &[2; 32], 4_999_999_999),
        TransactionStatus::Pending { age_secs: 3 }
    ));
    assert!(matches!(
        transaction_status(&receipts, &pool, &[3; 32], 0),
        TransactionStatus::NotFound
    ));
    assert!(transaction_receipt(&receipts, &key_text(&[1; 32])).unwrap().is_some());
    assert!(transaction_receipt(&receipts, &key_text(&[3; 32])).unwrap().is_none());
    assert_eq!(transaction_receipt(&receipts, "0x").err().unwrap().code, -32602);
}

fn store_with_logs() -> ReceiptStore {
    let mut store = ReceiptStore::new();
    for slot in 1..=3u64 {
        let mut r = receipt([slot as u8; 32]);
        r.logs.push(LogEntry {
            address: [slot as u8; 32],
            topics: vec![vec![slot as u8; 32], vec![9; 32]],
            data: vec![slot as u8],
        });
        store.insert_block_receipts(slot, vec![r]);
    }
    store
}

fn no_filter() -> FilterObject {
    FilterObject { from_block: None, to_block: None, address: None, topics: None }
}

#[test]
fn logs_are_filtered() {
    let store = store_with_logs();
    let slots = |o: &FilterObject| -> Vec<u64> {
        get_logs(&store, &parse_log_filter(o).ok().unwrap()).iter().map(|l| l.slot).collect()
    };
    assert_eq!(slots(&no_filter()), vec![1, 2, 3]);
    let mut o = no_filter();
    o.from_block = Some(2);
    o.to_block = Some(2);
    assert_eq!(slots(&o), vec![2]);
    let mut o = no_filter();
    o.address = Some(key_text(&[3; 32]));
    assert_eq!(slots(&o), vec![3]);
    let mut o = no_filter();
    o.topics = Some(vec![TopicEntry::One(key_text(&[1; 32]))]);
    assert_eq!(slots(&o), vec![1]);
    o.topics = Some(vec![
        TopicEntry::OneOf(vec![Some(key_text(&[1; 32])), None, Some(key_text(&[2; 32]))]),
        TopicEntry::Any,
    ]);
    assert_eq!(slots(&o), vec![1, 2]);
    o.topics = Some(vec![TopicEntry::Any, TopicEntry::One(key_text(&[9; 32]))]);
    assert_eq!(slots(&o), vec![1, 2, 3]);
    // A log with fewer topics than are asked for does not match.
    o.topics = Some(vec![TopicEntry::Any, TopicEntry::Any, TopicEntry::One(key_text(&[9; 32]))]);
    assert!(slots(&o).is_empty());
    o.address = Some("0x1".to_string());
    assert!(parse_log_filter(&o).is_err());
}

#[test]
fn an_unreadable_single_topic_matches_anything() {
    let mut o = no_filter();
    o.topics = Some(vec![TopicEntry::One("zz".to_string())]);
    let f = parse_log_filter(&o).ok().unwrap();
    assert_eq!(f.topics, vec![Vec::<Vec<u8>>::new()]);
    // A single topic counts by its first 32 bytes, after any number of prefixes.
    let long = format!("0x0x{}ff", &key_text(&[5; 32])[2..]);
    o.topics = Some(vec![TopicEntry::One(long)]);
    let f = parse_log_filter(&o).ok().unwrap();
    assert_eq!(f.topics, vec![vec![vec![5u8; 32]]]);
    assert!(log_matches(&vec![], &vec![]));
    assert!(!log_matches(&vec![vec![vec![1]]], &vec![]));
}

#[test]
fn subscriptions_ignore_case() {
    let upper = Some("0xABCDEF".to_string());
    let lower = Some("0xabcdef".to_string());
    assert!(subscription_passes(&None, &None));
    assert!(subscription_passes(&upper, &lower));
    assert!(subscription_passes(&lower, &upper));
    assert!(!subscription_passes(&lower, &Some("0xab".to_string())));
    assert!(!subscription_passes(&lower, &None));
}

#[test]
fn validators_are_listed() {
    assert_eq!(validator_count(&Some(3u64.to_le_bytes().to_vec())), 3);
    assert_eq!(validator_count(&None), 0);
    let rows = vec![
        ValidatorRow {
            address: Some(vec![1; 32]),
            entry: Some(ValidatorEntry { stake: 10, status: 0 }),
        },
        ValidatorRow { address: None, entry: None },
    ];
    let out = validators_view(&rows);
    assert_eq!(out.len(), 1);
    assert_eq!(out[0].address, key_text(&[1; 32]));
    assert_eq!(out[0].stake, "10");
    assert_eq!(out[0].index, 0);
}

#[test]
fn blocks_are_shown() {
    let h = HeaderFields {
        slot: 4,
        epoch: 1,
        block_hash: [1; 32],
        parent_hash: [2; 32],
        state_root: [3; 32],
        tx_root: [4; 32],
        timestamp: 255,
        proposer: [5; 32],
    };
    let tx = || BlockTxFields {
        hash: [6; 32],
        from: [7; 32],
        to: [8; 32],
        value: 12,
        nonce: 3,
        gas_limit: 21_000,
        tx_type: 0,
    };
    let v = block_view(&h, &Some(vec![[6; 32]]), &Some(vec![tx()]));
    assert_eq!(v.slot, 4);
    assert_eq!(v.block_hash, key_text(&[1; 32]));
    assert_eq!(v.proposer, key_text(&[5; 32]));
    assert_eq!(v.transaction_hashes, vec![key_text(&[6; 32])]);
    assert_eq!(v.transactions.len(), 1);
    assert_eq!(v.transactions[0].value, "12");
    assert_eq!(v.transactions[0].index_in_block, 0);
    let empty = block_view(&h, &None, &None);
    assert!(empty.transaction_hashes.is_empty());
    assert!(empty.transactions.is_empty());
    assert_eq!(decode_block_transactions(&Some(vec![tx(), tx()]))[1].index_in_block, 1);
    assert!(block_not_found().message.contains("not found"));
}

#[test]
fn access_lists() {
    let call = CallRequest {
        from: [1; 32],
        to: [0; 32],
        calldata: vec![0; 2],
        value: 0,
        gas_limit: 0,
    };
    let v = deploy_access_list(&call);
    assert!(v.access_list.is_empty());
    assert_eq!(v.gas_used, "0x7d20");

    let v = transfer_access_list(&[1; 32], &[11; 32], &[2; 32], &[22; 32]);
    assert_eq!(v.gas_used, "0x5208");
    assert_eq!(v.access_list.len(), 2);
    assert_eq!(v.access_list[0].address, key_text(&[1; 32]));
    assert!(v.access_list[0].reads.is_empty());
    assert_eq!(v.access_list[0].writes, vec![key_text(&[11; 32])]);
    assert_eq!(v.access_list[1].writes, vec![key_text(&[22; 32])]);

    let v = simulated_access_list(&[3; 32], &vec![[4; 32], [5; 32]], &vec![[5; 32], [6; 32]], 16);
    assert_eq!(v.access_list[0].reads, vec![key_text(&[4; 32])]);
    assert_eq!(v.access_list[0].writes, vec![key_text(&[5; 32]), key_text(&[6; 32])]);
    assert_eq!(v.gas_used, "0x10");

    let mut preimage = vec![9u8; 32];
    preimage.push(4);
    assert_eq!(balance_slot_preimage(&[9; 32]), preimage);
}

#[test]
fn plain_answers() {
    assert_eq!(balance_text(&Some(vec![0; 3]), Some(5)), "5");
    assert_eq!(balance_text(&Some(9u128.to_le_bytes().to_vec()), None), "9");
    assert_eq!(balance_text(&Some(vec![1; 3]), None), "0");
    assert_eq!(balance_text(&None, None), "0");
    assert_eq!(count_text(Some(7)), "7");
    assert_eq!(count_text(None), "0");
    assert_eq!(stored_text(&Some(vec![0xAB])), "0xab");
    assert_eq!(stored_text(&None), "0x");
    let s = syncing_view(3, 1, &[0xFF; 32]);
    assert_eq!((s.head_slot, s.epoch), (3, 1));
    assert_eq!(s.state_root, key_text(&[0xFF; 32]));
}

#[test]
fn subscribers_are_told_of_heads_and_events() {
    let e = head_event(16, 255, &[1; 32], 0);
    assert_eq!(e.slot, "0x10");
    assert_eq!(e.timestamp, "0xff");
    assert_eq!(e.proposer, key_text(&[1; 32]));
    assert_eq!(e.tx_count, "0x0");
    let mut a = receipt([1; 32]);
    let mut b = receipt([2; 32]);
    for d in 1..=2u8 {
        a.logs.push(LogEntry { address: [d; 32], topics: vec![], data: vec![d] });
    }
    b.logs.push(LogEntry { address: [3; 32], topics: vec![], data: vec![3] });
    let data: Vec<String> =
        log_events(&vec![a, receipt([9; 32]), b]).into_iter().map(|l| l.data).collect();
    assert_eq!(data, vec!["0x01", "0x02", "0x03"]);
}
