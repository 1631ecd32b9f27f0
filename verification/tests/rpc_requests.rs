use ethnum::U256;
use pyde_node::hexcodec::{decode_text, hex_of, key_text, parse_address, parse_hash, prefixed_hex_of};
use pyde_node::mempool::{FeePayer, PendingPool, Transaction, TransactionType};
use pyde_node::rpc::{
    build_call_block_context, build_transaction, call_result, check_nonce_window, clamp_call_gas,
    concurrency_gate, encrypted_result, encrypted_tx_ingest_policy, encryption_failed,
    estimate_after_simulation, estimate_without_simulation, fee_payer_ingest_policy,
    access_list_step, hash_window_len, hash_window_slots, ingress_validate, returned_range, invalid_encrypted_encoding, invalid_tx_encoding, parse_call,
    parse_call_object, parse_encrypted_request, parse_raw_encrypted, parse_raw_transaction,
    parse_send_transaction, plaintext_tx_ingest_policy, read_account_balance,
    resolve_request_chain_id, skips_signature, submit_transaction, threshold_public_key, AuthKeys,
    AccessListStep, CallMethod, CallOutcome, CallRequest, ChainHead, EncryptedTxIngestPolicy, RelayVerdict, RequestObject,
    ValidationFailure, CALL_GAS_CAP, CALL_GAS_DEFAULT,
};
use pyde_node::words::{decode_u128, decode_u32, decode_u64, encode_le, key_word, Word};

fn request() -> RequestObject {
    RequestObject {
        from: None,
        to: None,
        value: None,
        data: None,
        gas: None,
        nonce: None,
        tx_type: None,
        signature: None,
        chain_id: None,
    }
}

fn address(b: u8) -> Option<String> {
    Some(key_text(&[b; 32]))
}

#[test]
fn parse_valid_address() {
    let hex_addr = format!("0x{}", hex::encode([0xAA; 32]));
    let addr = parse_address(&hex_addr).unwrap();
    assert_eq!(addr, [0xAA; 32]);
}

#[test]
fn parse_address_no_prefix() {
    let hex_addr = hex::encode([0xBB; 32]);
    let addr = parse_address(&hex_addr).unwrap();
    assert_eq!(addr, [0xBB; 32]);
}

#[test]
fn parse_invalid_address_length() {
    assert!(parse_address("0xdeadbeef").is_err());
}

#[test]
fn parse_invalid_hex() {
    assert!(parse_address("0xnothex").is_err());
}

#[test]
fn parse_valid_hash() {
    let hex_hash = format!("0x{}", hex::encode([0xCC; 32]));
    let hash = parse_hash(&hex_hash).unwrap();
    assert_eq!(hash, [0xCC; 32]);
}

#[test]
fn what_is_wrong_with_a_hex_text_is_said() {
    let e = parse_address("0xdeadbeef").unwrap_err();
    assert_eq!((e.code, e.message.as_str()), (-32602, "address must be 32 bytes, got 4"));
    let e = parse_address("0xno").unwrap_err();
    assert_eq!(e.message, "invalid address: Invalid character 'n' at position 0");
    let e = parse_hash("abc").unwrap_err();
    assert_eq!(e.message, "invalid hash: Odd number of digits");
    let e = parse_hash("").unwrap_err();
    assert_eq!(e.message, "hash must be 32 bytes, got 0");
    let e = parse_hash("0\"").unwrap_err();
    assert_eq!(e.message, "invalid hash: Invalid character '\"' at position 1");
}

#[test]
fn hex_goes_there_and_back() {
    let bytes = vec![0u8, 1, 15, 16, 254, 255];
    assert_eq!(hex_of(&bytes), "00010f10feff");
    assert_eq!(prefixed_hex_of(&bytes), "0x00010f10feff");
    assert_eq!(decode_text("0x00010F10feFF", "x: "), Ok(bytes));
    assert_eq!(parse_hash(&key_text(&[7; 32])), Ok([7; 32]));
}

#[test]
fn decode_u128_from_bytes() {
    let val: u128 = 10_000_000_000_000;
    assert_eq!(decode_u128(&val.to_le_bytes()), val);
}

#[test]
fn decode_u128_short_returns_zero() {
    assert_eq!(decode_u128(&[1, 2, 3]), 0);
}

#[test]
fn numbers_are_read_from_little_endian_bytes() {
    assert_eq!(decode_u64(&0x0102030405060708u64.to_le_bytes()), 0x0102030405060708);
    assert_eq!(decode_u64(&[1, 2, 3]), 0);
    assert_eq!(decode_u32(&[1, 2, 3, 4, 5]), 0x04030201);
    assert_eq!(encode_le(0x0102, 4), vec![2, 1, 0, 0]);
}

#[test]
fn keys_are_words() {
    let mut k = [0u8; 32];
    k[0] = 3;
    k[16] = 5;
    k[31] = 1;
    let expected = U256::from_le_bytes(k);
    let (high, low) = expected.into_words();
    assert_eq!(key_word(&k), Word { high, low });
    assert_eq!(low, 3);
}

#[test]
fn clamp_call_gas_default_when_omitted() {
    assert_eq!(clamp_call_gas(None), CALL_GAS_DEFAULT);
}

#[test]
fn clamp_call_gas_passes_through_below_cap() {
    // Default sits below the cap, so it's preserved as-is.
    assert_eq!(clamp_call_gas(Some(50_000_000)), 50_000_000);
    assert_eq!(clamp_call_gas(Some(CALL_GAS_DEFAULT)), CALL_GAS_DEFAULT);
    // Exact cap is allowed.
    assert_eq!(clamp_call_gas(Some(CALL_GAS_CAP)), CALL_GAS_CAP);
}

#[test]
fn clamp_call_gas_caps_oversized_request() {
    assert_eq!(clamp_call_gas(Some(CALL_GAS_CAP + 1)), CALL_GAS_CAP);
    assert_eq!(clamp_call_gas(Some(u64::MAX)), CALL_GAS_CAP);
    assert_eq!(clamp_call_gas(Some(2 * CALL_GAS_CAP)), CALL_GAS_CAP);
}

#[test]
fn resolve_chain_id_defaults_to_node_when_missing() {
    for node_chain in [1u64, 7, 7331, 31337, 1_000_000] {
        assert_eq!(
            resolve_request_chain_id(None, node_chain).unwrap(),
            node_chain,
            "node {} should default to itself",
            node_chain
        );
    }
}

#[test]
fn resolve_chain_id_accepts_matching_value() {
    for chain in [1u64, 7331, 31337] {
        assert_eq!(resolve_request_chain_id(Some(chain), chain).unwrap(), chain);
    }
}

#[test]
fn resolve_chain_id_rejects_mismatch() {
    assert!(resolve_request_chain_id(Some(1), 7331).is_err());
    assert!(resolve_request_chain_id(Some(7331), 1).is_err());
    assert!(resolve_request_chain_id(Some(31337), 7331).is_err());
    assert!(resolve_request_chain_id(Some(7331), 31337).is_err());
}

#[test]
fn a_chain_id_mismatch_names_both() {
    assert_eq!(
        resolve_request_chain_id(Some(1), 7331).unwrap_err(),
        "chainId mismatch: tx claims 1 but node is on 7331"
    );
}

#[test]
fn ingest_policy_verifies_when_auth_key_registered() {
    let pk = vec![0x11u8; 900];
    assert_eq!(
        encrypted_tx_ingest_policy(Some(pk.clone()), 1),
        EncryptedTxIngestPolicy::Verify(pk.clone())
    );
    assert_eq!(
        encrypted_tx_ingest_policy(Some(pk.clone()), 31337),
        EncryptedTxIngestPolicy::Verify(pk)
    );
}

#[test]
fn ingest_policy_devnet_falls_through_without_key() {
    assert_eq!(
        encrypted_tx_ingest_policy(None, 31337),
        EncryptedTxIngestPolicy::StructuralOnly
    );
}

#[test]
fn ingest_policy_production_rejects_without_key() {
    for chain_id in [1u64, 2, 7, 1337, 1_000_000] {
        assert_eq!(
            encrypted_tx_ingest_policy(None, chain_id),
            EncryptedTxIngestPolicy::Reject,
            "chain_id {} must reject no-key encrypted tx",
            chain_id
        );
    }
}

#[test]
fn ingest_policy_structural_only_is_devnet_exclusive() {
    for chain_id in 0u64..=10_000 {
        let policy = encrypted_tx_ingest_policy(None, chain_id);
        if chain_id == 31337 {
            continue; // not in range, but explicit for clarity
        }
        assert_ne!(
            policy,
            EncryptedTxIngestPolicy::StructuralOnly,
            "chain_id {} must not produce StructuralOnly without auth_key",
            chain_id,
        );
    }
    for chain_id in [1u64, 7331, 100_000, 1_000_000, u64::MAX] {
        assert_ne!(
            encrypted_tx_ingest_policy(None, chain_id),
            EncryptedTxIngestPolicy::StructuralOnly,
            "chain_id {} must not produce StructuralOnly without auth_key",
            chain_id,
        );
    }
    assert_eq!(
        encrypted_tx_ingest_policy(None, 31337),
        EncryptedTxIngestPolicy::StructuralOnly,
    );
}

#[test]
fn plaintext_ingest_policy_allows_single_on_every_chain() {
    let pk = vec![0x11u8; 900];
    for chain_id in [1u64, 7, 31337, 1_000_000] {
        assert!(plaintext_tx_ingest_policy(&AuthKeys::Single(pk.clone()), chain_id).is_ok());
    }
}

#[test]
fn plaintext_ingest_policy_multisig_devnet_only() {
    let pk = vec![0x11u8; 900];
    let multi = AuthKeys::MultiSig {
        keys: vec![pk.clone()],
        threshold: 1,
    };
    // Devnet: allowed (test ergonomics).
    assert!(plaintext_tx_ingest_policy(&multi, 31337).is_ok());
    // Every other chain_id: rejected.
    for chain_id in [1u64, 2, 7, 7331, 1_000_000] {
        let err = plaintext_tx_ingest_policy(&multi, chain_id);
        assert!(
            err.is_err(),
            "chain_id {chain_id} must reject AuthKeys::MultiSig"
        );
        assert!(err.err().unwrap().contains("audit 304"));
    }
}

#[test]
fn plaintext_ingest_policy_devnet_allows_no_auth_key() {
    assert!(plaintext_tx_ingest_policy(&AuthKeys::Unset, 31337).is_ok());
}

#[test]
fn plaintext_ingest_policy_production_rejects_no_auth_key() {
    for chain_id in [1u64, 2, 7, 1337, 1_000_000] {
        let err = plaintext_tx_ingest_policy(&AuthKeys::Unset, chain_id);
        assert!(
            err.is_err(),
            "chain_id {chain_id} must reject AuthKeys::Unset"
        );
    }
}

#[test]
fn fee_payer_ingest_policy_sender_always_ok() {
    for chain_id in [1u64, 7, 7331, 31337, 1_000_000] {
        assert!(
            fee_payer_ingest_policy(&FeePayer::Sender, chain_id).is_ok(),
            "Sender must always pass at chain_id {chain_id}"
        );
    }
}

#[test]
fn fee_payer_ingest_policy_paymaster_devnet_only() {
    let paymaster = FeePayer::Paymaster([0xAA; 32]);
    assert!(fee_payer_ingest_policy(&paymaster, 31337).is_ok());
    for chain_id in [1u64, 2, 7, 7331, 1_000_000] {
        let err = fee_payer_ingest_policy(&paymaster, chain_id);
        assert!(
            err.is_err(),
            "chain_id {chain_id} must reject FeePayer::Paymaster"
        );
        assert!(err.err().unwrap().contains("audit 305"));
    }
}

#[test]
fn fee_payer_ingest_policy_gas_tank_devnet_only() {
    let gas_tank = FeePayer::GasTank([0xBB; 32]);
    assert!(fee_payer_ingest_policy(&gas_tank, 31337).is_ok());
    for chain_id in [1u64, 2, 7, 7331, 1_000_000] {
        let err = fee_payer_ingest_policy(&gas_tank, chain_id);
        assert!(
            err.is_err(),
            "chain_id {chain_id} must reject FeePayer::GasTank"
        );
        assert!(err.err().unwrap().contains("audit 305"));
    }
}

#[test]
fn each_validation_failure_has_its_code() {
    let single = AuthKeys::Single(vec![1]);
    let cases = [
        (ValidationFailure::InvalidSignature, -32001),
        (ValidationFailure::InvalidNonce, -32002),
        (ValidationFailure::InsufficientBalance, -32003),
        (ValidationFailure::WrongChainId, -32004),
        (ValidationFailure::GasLimitTooLow, -32005),
        (ValidationFailure::GasLimitTooHigh, -32005),
        (ValidationFailure::DeadlineExpired, -32006),
        (ValidationFailure::TxTooLarge, -32007),
        (ValidationFailure::CalldataTooLarge, -32007),
        (ValidationFailure::InvalidAccessList, -32008),
        (ValidationFailure::Other, -32000),
    ];
    for (failure, code) in cases {
        let r = ingress_validate(
            TransactionType::Standard,
            &single,
            &FeePayer::Sender,
            1,
            Some((failure, "Detail".to_string())),
        );
        let e = r.unwrap_err();
        assert_eq!(e.code, code);
        assert_eq!(e.message, "ingress validation: Detail");
    }
    assert!(ingress_validate(TransactionType::Standard, &single, &FeePayer::Sender, 1, None).is_ok());
    let e = ingress_validate(TransactionType::Standard, &AuthKeys::Unset, &FeePayer::Sender, 1, None)
        .unwrap_err();
    assert_eq!(
        (e.code, e.message.as_str()),
        (-32001, "ingress validation: sender has no registered auth_key (audit 226)")
    );
    // Registering a key is for accounts that have none.
    assert!(ingress_validate(
        TransactionType::RegisterPubkey,
        &AuthKeys::Unset,
        &FeePayer::Sender,
        1,
        None
    )
    .is_ok());
    assert!(ingress_validate(
        TransactionType::RegisterPubkey,
        &AuthKeys::Unset,
        &FeePayer::GasTank([0; 32]),
        1,
        None
    )
    .is_err());
    assert!(skips_signature(31337));
    assert!(!skips_signature(1));
}

#[test]
fn dev_mode_requests() {
    let e = parse_send_transaction(false, &request()).err().unwrap();
    assert_eq!(e.code, -32601);
    let e = parse_send_transaction(true, &request()).err().unwrap();
    assert_eq!((e.code, e.message.as_str()), (-32602, "missing 'from' field"));

    let mut o = request();
    o.from = address(1);
    let s = parse_send_transaction(true, &o).ok().unwrap();
    assert_eq!(s.to, [0; 32]);
    assert_eq!(s.value, 0);
    assert_eq!(s.gas_limit, 21_000);
    assert_eq!(s.tx_type, TransactionType::Deploy);
    assert_eq!(s.explicit_nonce, None);

    o.to = address(2);
    o.value = Some("340282366920938463463374607431768211455".to_string());
    o.data = Some("0x0a0B".to_string());
    o.gas = Some(5);
    o.nonce = Some(9);
    let s = parse_send_transaction(true, &o).ok().unwrap();
    assert_eq!(s.to, [2; 32]);
    assert_eq!(s.value, u128::MAX);
    assert_eq!(s.data, vec![10, 11]);
    assert_eq!(s.tx_type, TransactionType::Standard);

    // What cannot be read as a number or as hex counts as nothing.
    o.value = Some("340282366920938463463374607431768211456".to_string());
    o.data = Some("zz".to_string());
    for (name, t) in [
        ("stakeDeposit", TransactionType::StakeDeposit),
        ("stakeWithdraw", TransactionType::StakeWithdraw),
        ("deploy", TransactionType::Deploy),
        ("slash", TransactionType::Slash),
        ("transfer", TransactionType::Standard),
    ] {
        o.tx_type = Some(name.to_string());
        let s = parse_send_transaction(true, &o).ok().unwrap();
        assert_eq!(s.tx_type, t);
        assert_eq!(s.value, 0);
        assert_eq!(s.data, Vec::<u8>::new());
    }
    o.to = Some("0x12".to_string());
    assert_eq!(
        parse_send_transaction(true, &o).err().unwrap().message,
        "address must be 32 bytes, got 1"
    );
}

fn pending(from: u8, nonce: u64) -> Transaction {
    Transaction {
        from: [from; 32],
        to: [0xEE; 32],
        value: 1,
        data: vec![],
        gas_limit: 21_000,
        nonce,
        signature: vec![],
        fee_payer: FeePayer::Sender,
        access_list: vec![],
        deadline: None,
        chain_id: 31337,
        tx_type: TransactionType::Standard,
    }
}

#[test]
fn automatic_nonces_follow_the_pending_ones() {
    let mut pool = PendingPool::new();
    let mut o = request();
    o.from = address(1);
    o.to = address(2);
    let build = |o: &RequestObject, pool: &PendingPool, on_chain: u64| {
        build_transaction(parse_send_transaction(true, o).ok().unwrap(), pool, on_chain, 31337).nonce
    };
    assert_eq!(build(&o, &pool, 7), 7);
    pool.submit([9; 32], pending(1, 7), 0).unwrap();
    assert_eq!(build(&o, &pool, 7), 8);
    // The chain may be past the pending ones.
    assert_eq!(build(&o, &pool, 20), 20);
    o.nonce = Some(3);
    assert_eq!(build(&o, &pool, 20), 3);
}

#[test]
fn accepted_transactions_are_answered_with_their_hash() {
    let mut pool = PendingPool::new();
    let r = submit_transaction(&mut pool, [5; 32], pending(1, 0), Ok(()), 10);
    assert_eq!(r, Ok(key_text(&[5; 32])));
    let refused = ingress_validate(
        TransactionType::Standard,
        &AuthKeys::Unset,
        &FeePayer::Sender,
        1,
        None,
    );
    assert!(submit_transaction(&mut pool, [6; 32], pending(1, 1), refused, 10).is_err());
    assert_eq!(pool.len(), 1);
    let e = submit_transaction(&mut pool, [7; 32], pending(1, 0), Ok(()), 10).unwrap_err();
    assert_eq!(e.code, -32010);
    assert_eq!(
        e.message,
        "duplicate (sender, nonce)=0 in mempool; cancel or wait for the existing tx to commit/expire"
    );
}

#[test]
fn raw_transactions() {
    assert_eq!(parse_raw_transaction("0x0102"), Ok(vec![1, 2]));
    let e = parse_raw_transaction("0x1").unwrap_err();
    assert_eq!((e.code, e.message.as_str()), (-32602, "invalid tx hex: Odd number of digits"));
    assert_eq!(invalid_tx_encoding("why").message, "invalid tx encoding: why");
    assert_eq!(parse_raw_encrypted("ff"), Ok(vec![255]));
    assert_eq!(
        parse_raw_encrypted("0xg0").unwrap_err().message,
        "invalid hex: Invalid character 'g' at position 0"
    );
    assert_eq!(invalid_encrypted_encoding().message, "invalid EncryptedTx wire format");
}

#[test]
fn simulated_calls() {
    assert!(concurrency_gate(true).is_ok());
    let e = concurrency_gate(false).unwrap_err();
    assert_eq!((e.code, e.message.as_str()), (-32000, "server busy: too many concurrent calls"));

    let e = parse_call(&request(), CallMethod::Call).err().unwrap();
    assert_eq!(e.message, "missing 'to' for call");
    let mut o = request();
    o.value = Some("0xff".to_string());
    let c = parse_call(&o, CallMethod::EstimateGas).ok().unwrap();
    assert_eq!(c.value, 0);
    let c = parse_call(&o, CallMethod::CreateAccessList).ok().unwrap();
    assert_eq!(c.to, [0; 32]);
    assert_eq!(c.value, 255);
    assert_eq!(c.gas_limit, CALL_GAS_DEFAULT);

    assert_eq!(call_result(CallOutcome::NoCode).unwrap_err().message, "no code at address");
    assert_eq!(
        call_result(CallOutcome::LoadFailed("X".to_string())).unwrap_err().message,
        "failed to load code: X"
    );
    assert_eq!(
        call_result(CallOutcome::Failed("Revert".to_string())).unwrap_err().message,
        "execution failed: Revert"
    );
    assert_eq!(
        call_result(CallOutcome::Returned { r1: 258, r2: 0, memory: vec![] }),
        Ok("0x0201000000000000".to_string())
    );
    assert_eq!(
        call_result(CallOutcome::Returned { r1: 258, r2: 1, memory: vec![9] }),
        Ok("0x09".to_string())
    );
}

#[test]
fn gas_estimates() {
    let mut call = CallRequest {
        from: [0; 32],
        to: [0; 32],
        calldata: vec![1, 2, 3],
        value: 0,
        gas_limit: 1,
    };
    // 32_000 + 3 * 16
    assert_eq!(estimate_without_simulation(&call, true), Some("0x7d30".to_string()));
    call.to = [1; 32];
    assert_eq!(estimate_without_simulation(&call, false), Some("0x5208".to_string()));
    assert_eq!(estimate_without_simulation(&call, true), None);
    assert_eq!(estimate_after_simulation(0), "0x5208");
    // 21_000 + 105 + 10
    assert_eq!(estimate_after_simulation(105), "0x527b");
}

#[test]
fn audit_349_genesis_returns_zero_context() {
    let c = build_call_block_context(true, 0, None, None, &vec![]);
    assert_eq!(c.block_number, 0);
    assert_eq!(c.timestamp, 0);
    assert_eq!(c.proposer, [0u8; 32]);
    assert!(c.block_hashes.is_empty());
}

#[test]
fn audit_349_head_fields_match_chain_head() {
    let head_proposer = [0xCC; 32];
    let head_timestamp = 1_715_000_000_000;
    let head_slot = 42;
    let recent = vec![(None, None); 42];
    let c = build_call_block_context(
        false,
        head_slot,
        Some((head_timestamp, head_proposer)),
        None,
        &recent,
    );
    assert_eq!(c.block_number, head_slot);
    assert_eq!(c.timestamp, head_timestamp);
    assert_eq!(c.proposer, head_proposer);
    // Where memory does not have the head, the disk is asked.
    let c = build_call_block_context(false, head_slot, None, Some((5, [1; 32])), &recent);
    assert_eq!((c.timestamp, c.proposer), (5, [1; 32]));
    let c = build_call_block_context(false, head_slot, None, None, &recent);
    assert_eq!((c.timestamp, c.proposer), (0, [0; 32]));
}

#[test]
fn audit_349_block_hashes_indexed_newest_first() {
    // Slots 1..=5 with distinct hashes; the genesis slot has no header.
    let slot_hash = |slot: u64| -> [u8; 32] { [(slot * 17) as u8; 32] };
    let recent: Vec<(Option<[u8; 32]>, Option<[u8; 32]>)> = vec![
        (Some(slot_hash(4)), None),
        (Some(slot_hash(3)), Some([0xEE; 32])),
        (None, Some(slot_hash(2))),
        (Some(slot_hash(1)), None),
        (None, None),
    ];
    let c = build_call_block_context(false, 5, Some((5000, slot_hash(5))), None, &recent);
    assert_eq!(c.block_number, 5);
    assert_eq!(c.block_hashes.len(), 5);

    let expect = |slot: u64| {
        let (high, low) = U256::from_le_bytes(slot_hash(slot)).into_words();
        Word { high, low }
    };
    assert_eq!(c.block_hashes[0], expect(4), "block_hashes[0] must be hash(head-1)");
    assert_eq!(c.block_hashes[1], expect(3));
    assert_eq!(c.block_hashes[2], expect(2));
    assert_eq!(c.block_hashes[3], expect(1));
    assert_eq!(
        c.block_hashes[4],
        Word { high: 0, low: 0 },
        "slot 0 (genesis, no header recorded) → zero",
    );
}

#[test]
fn audit_349_block_hashes_capped_at_256() {
    let n = hash_window_len(false, 300);
    assert_eq!(n, 256);
    let recent = vec![(None, None); n as usize];
    let c = build_call_block_context(false, 300, Some((1, [0; 32])), None, &recent);
    assert_eq!(c.block_hashes.len(), 256, "BLOCKHASH window must cap at 256");
    assert_eq!(hash_window_len(false, 255), 255);
    assert_eq!(hash_window_len(true, 0), 0);
}

#[test]
fn hashes_are_asked_for_newest_first() {
    assert_eq!(hash_window_slots(false, 5), vec![4, 3, 2, 1, 0]);
    assert_eq!(hash_window_slots(true, 5), Vec::<u64>::new());
    let slots = hash_window_slots(false, 300);
    assert_eq!(slots.len(), 256);
    assert_eq!((slots[0], slots[255]), (299, 44));
}

#[test]
fn results_in_a_register_and_in_memory() {
    assert_eq!(returned_range(7, 0), None);
    assert_eq!(returned_range(7, 32), Some((7, 32)));
}

#[test]
fn access_lists_by_the_kind_of_call() {
    let mut o = request();
    let deploy = parse_call(&o, CallMethod::CreateAccessList).ok().unwrap();
    assert_eq!(access_list_step(&deploy, false), AccessListStep::Deployment);
    assert_eq!(access_list_step(&deploy, true), AccessListStep::Deployment);
    o.to = address(3);
    let call = parse_call(&o, CallMethod::CreateAccessList).ok().unwrap();
    assert_eq!(access_list_step(&call, false), AccessListStep::Transfer);
    assert_eq!(access_list_step(&call, true), AccessListStep::Simulation);
}

#[test]
fn calls_as_transactions() {
    let chain = ChainHead { head_slot: 10, base_fee: 3, chain_id: 7331, block_gas_limit: 99 };
    let mut o = request();
    o.from = address(1);
    o.value = Some("12".to_string());
    let (tx, ctx) = parse_call_object(&o, &chain).ok().unwrap();
    assert_eq!(tx.from, [1; 32]);
    assert_eq!(tx.value, 12);
    assert_eq!(tx.gas_limit, 1_000_000);
    assert_eq!(tx.chain_id, 7331);
    assert_eq!(tx.tx_type, TransactionType::Standard);
    assert_eq!(ctx.height, 10);
    assert_eq!(ctx.timestamp, 4_000);
    assert_eq!(ctx.base_fee, 3);
    assert_eq!(ctx.block_gas_limit, 99);
    o.from = Some("zz".to_string());
    assert!(parse_call_object(&o, &chain).is_err());
}

#[test]
fn encrypted_requests() {
    let e = parse_encrypted_request(false, &request(), 1).err().unwrap();
    assert_eq!((e.code, e.message.as_str()), (-32000, "threshold encryption not configured"));
    let mut o = request();
    o.chain_id = Some(2);
    let e = parse_encrypted_request(true, &o, 1).err().unwrap();
    assert_eq!(e.code, -32602);
    assert_eq!(e.message, "chainId mismatch: tx claims 2 but node is on 1");
    o.chain_id = None;
    o.from = address(3);
    o.signature = Some("0xabcd".to_string());
    let r = parse_encrypted_request(true, &o, 1).ok().unwrap();
    assert_eq!(r.chain_id, 1);
    assert_eq!(r.gas_limit, 100_000);
    assert_eq!(r.nonce, 0);
    assert_eq!(r.signature, vec![0xab, 0xcd]);
    // Without a recipient the sender is the one whose state is accessed.
    assert_eq!(r.access_list.len(), 1);
    assert_eq!(r.access_list[0].address, [3; 32]);
    o.to = address(4);
    let r = parse_encrypted_request(true, &o, 1).ok().unwrap();
    assert_eq!(r.access_list[0].address, [4; 32]);
    assert_eq!(encryption_failed("no").message, "encryption failed: no");
    assert_eq!(threshold_public_key(Some(vec![1, 2])), Ok("0x0102".to_string()));
    assert!(threshold_public_key(None).is_err());
}

#[test]
fn encrypted_nonces_stay_in_the_window() {
    assert!(check_nonce_window(1_000, None).is_ok());
    assert!(check_nonce_window(5, Some(5)).is_ok());
    assert!(check_nonce_window(20, Some(5)).is_ok());
    let e = check_nonce_window(21, Some(5)).unwrap_err();
    assert_eq!(e.code, -32008);
    assert_eq!(
        e.message,
        "encrypted-tx nonce 21 is past the in-flight window [5, 21); submit when prior nonces commit"
    );
    let e = check_nonce_window(4, Some(5)).unwrap_err();
    assert_eq!(e.message, "encrypted-tx nonce 4 is below the chain's committed nonce 5");
    // At the end of the numbers there is no upper bound.
    assert!(check_nonce_window(u64::MAX, Some(u64::MAX - 3)).is_ok());
}

#[test]
fn encrypted_results() {
    assert_eq!(encrypted_result(RelayVerdict::Taken, &[1; 32]), Ok(key_text(&[1; 32])));
    assert_eq!(encrypted_result(RelayVerdict::NoKey, &[1; 32]).unwrap_err().code, -32001);
    let e = encrypted_result(RelayVerdict::NotTaken, &[1; 32]).unwrap_err();
    assert_eq!(e.code, -32000);
    assert_eq!(
        e.message,
        "tx rejected (duplicate, rate-limited, or signature failed verification)"
    );
}

#[test]
fn account_balances() {
    assert_eq!(read_account_balance(&[1, 2, 3], Some(9)), Some(9));
    assert_eq!(read_account_balance(&77u128.to_le_bytes(), None), Some(77));
    assert_eq!(read_account_balance(&[1, 2, 3], None), None);
}
