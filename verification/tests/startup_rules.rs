use pyde_node::startup::{
    bootstrap_ws_anchor, check_bootstrap_config, check_config_genesis_chain_id_match,
    check_key_generation, committee_keys, encode_raw_keys, find_member, form_committee,
    identity_step, is_validator_role, key_source, key_target, needs_genesis_funding, own_index,
    parse_raw_keys, quic_listen_addr, slot_clock_anchor_ms, tcp_listen_addr, IdentityStep,
    KeySource, RawKeys, TESTNET_CHAIN_ID,
};

#[test]
fn bootstrap_guard_rejects_empty_mainnet() {
    let err = check_bootstrap_config(1, &[]).unwrap_err();
    assert!(
        err.contains("mainnet"),
        "error must name mainnet so the operator knows what tripped, got: {err}"
    );
    assert!(err.contains("bootstrap_peers"));
}

#[test]
fn bootstrap_guard_accepts_mainnet_with_peers() {
    let peers = vec!["/ip4/1.2.3.4/tcp/30303/p2p/12D3KooWfoo".to_string()];
    assert!(check_bootstrap_config(1, &peers).is_ok());
}

#[test]
fn bootstrap_guard_accepts_devnet_with_no_peers() {
    assert!(check_bootstrap_config(31337, &[]).is_ok());
}

#[test]
fn bootstrap_guard_rejects_empty_testnet_and_custom_chains() {
    for chain_id in [2u64, 7, 1_000_000] {
        let err = check_bootstrap_config(chain_id, &[]).unwrap_err();
        assert!(
            err.contains(&format!("chain_id={chain_id}")),
            "error must name the chain_id, got: {err}"
        );
        assert!(
            err.contains("bootstrap_peers"),
            "error must name the missing config, got: {err}"
        );
    }
}

#[test]
fn bootstrap_guard_error_mentions_testnet_bringup_path() {
    let err = check_bootstrap_config(2, &[]).unwrap_err();
    assert!(
        err.contains("testnet bring-up") || err.contains("genesis-node"),
        "error must guide testnet operators to the escape hatch, got: {err}"
    );
}

#[test]
fn bootstrap_guard_labels_canonical_testnet_chain_id() {
    let err = check_bootstrap_config(TESTNET_CHAIN_ID, &[]).unwrap_err();
    assert!(
        err.contains("public testnet"),
        "error must label canonical testnet (7331) as 'public testnet', got: {err}"
    );
    assert!(err.contains("chain_id=7331"));
}

#[test]
fn bootstrap_guard_accepts_any_chain_with_peers() {
    let peers = vec!["/ip4/1.2.3.4/tcp/30303/p2p/12D3KooWfoo".to_string()];
    for chain_id in [1u64, 2, 7, 31337, 1_000_000] {
        assert!(
            check_bootstrap_config(chain_id, &peers).is_ok(),
            "chain_id {chain_id} with peers should pass"
        );
    }
}

#[test]
fn bootstrap_message_is_exact() {
    assert_eq!(
        check_bootstrap_config(1, &[]).unwrap_err(),
        "refusing to start mainnet (chain_id=1) with no bootstrap peers — \
         set network.bootstrap_peers in config.toml before launch. \
         A node with no peers on a public chain produces an isolated \
         fork that cannot sync to the canonical chain. \
         For a fresh testnet bring-up, set bootstrap_peers to your \
         genesis-node multiaddr(s) before starting any peer."
    );
}

#[test]
fn config_genesis_chain_id_match_accepts_equal() {
    for id in [1u64, 7, 7331, 31337, 1_000_000] {
        assert!(
            check_config_genesis_chain_id_match(id, id).is_ok(),
            "matching chain_id {id} must pass"
        );
    }
}

#[test]
fn config_genesis_chain_id_mismatch_rejects() {
    for (config_id, genesis_id) in [
        (1u64, 31337),
        (7331, 31337),
        (7331, 1),
        (31337, 7331),
        (1, 7331),
    ] {
        let err = check_config_genesis_chain_id_match(config_id, genesis_id).unwrap_err();
        assert!(err.contains("audit 343"));
        assert!(err.contains(&format!("config.toml says {}", config_id)));
        assert!(err.contains(&format!("genesis.toml says {}", genesis_id)));
    }
}

#[test]
fn roles_and_listen_addresses() {
    assert!(is_validator_role("validator"));
    assert!(!is_validator_role("full"));
    assert_eq!(tcp_listen_addr(true, 30303), "/ip4/127.0.0.1/tcp/30303");
    assert_eq!(tcp_listen_addr(false, 1), "/ip4/0.0.0.0/tcp/1");
    assert_eq!(quic_listen_addr(true, 1), None);
    assert_eq!(
        quic_listen_addr(false, 65535),
        Some("/ip4/0.0.0.0/udp/65535/quic-v1".to_string())
    );
}

#[test]
fn clock_anchor_prefers_the_head_then_the_genesis() {
    // A stamped head: its timestamp less the slots before it, at any start.
    assert_eq!(slot_clock_anchor_ms(10, Some(9_000), 77, 123_456, 400), 5_000);
    assert_eq!(slot_clock_anchor_ms(10, Some(9_000), 77, 999_999, 400), 5_000);
    // An unstamped head: counted back from now.
    assert_eq!(slot_clock_anchor_ms(10, None, 77, 10_000, 400), 6_000);
    assert_eq!(slot_clock_anchor_ms(10, Some(0), 77, 1_000, 400), 0);
    // A fresh start: the genesis, or zero.
    assert_eq!(slot_clock_anchor_ms(0, None, 77, 10_000, 400), 77);
    assert_eq!(slot_clock_anchor_ms(0, None, 0, 10_000, 400), 0);
    assert_eq!(slot_clock_anchor_ms(u64::MAX, Some(9_000), 77, 10_000, 400), 0);
}

#[test]
fn anchor_from_the_configuration_only_without_a_checkpoint() {
    assert_eq!(bootstrap_ws_anchor(true, Some(5)), None);
    assert_eq!(bootstrap_ws_anchor(false, Some(5)), Some(5));
    assert_eq!(bootstrap_ws_anchor(false, None), None);
}

#[test]
fn genesis_funding_is_given_once() {
    let listed = vec!["aa".to_string(), "bb".to_string()];
    assert!(!needs_genesis_funding(&listed, "bb"));
    assert!(needs_genesis_funding(&listed, "cc"));
    assert!(needs_genesis_funding(&vec![], "cc"));
}

#[test]
fn committee_is_read_from_the_genesis() {
    let listed = vec!["0x0102".to_string(), "0304".to_string(), "0x0304".to_string()];
    let mine = vec![3u8, 4];
    let c = form_committee(&listed, &mine).unwrap();
    assert_eq!(c.keys, vec![vec![1u8, 2], vec![3, 4], vec![3, 4]]);
    // The last entry that is the node's own counts.
    assert_eq!(c.my_index, 2);
    assert_eq!(own_index(&listed, &vec![9u8]), 0);

    let alone = form_committee(&vec![], &mine).unwrap();
    assert_eq!(alone.keys, vec![mine]);
    assert_eq!(alone.my_index, 0);

    let bad = vec!["0x01".to_string(), "xyz!".to_string()];
    assert_eq!(
        form_committee(&bad, &vec![1u8]).err(),
        Some("invalid validator public key in genesis: Invalid character 'x' at position 0".to_string())
    );
    assert_eq!(
        committee_keys(&vec!["abc".to_string()], "invalid validator pk in genesis: ").err(),
        Some("invalid validator pk in genesis: Odd number of digits".to_string())
    );
}

#[test]
fn members_are_counted_from_one() {
    let members = vec![vec![1u8], vec![2], vec![2]];
    assert_eq!(find_member(&members, &vec![2u8]), 2);
    assert_eq!(find_member(&members, &vec![3u8]), 0);
}

#[test]
fn raw_key_files() {
    let keys = RawKeys { public_key: vec![7, 8, 9], secret_key: vec![1, 2] };
    let file = encode_raw_keys(&keys);
    assert_eq!(file, vec![3, 0, 0, 0, 7, 8, 9, 1, 2]);
    let back = parse_raw_keys(&file).unwrap();
    assert_eq!(back.public_key, vec![7, 8, 9]);
    assert_eq!(back.secret_key, vec![1, 2]);
    assert_eq!(
        parse_raw_keys(&[1, 0, 0]).err(),
        Some("validator.key is corrupted (too short)".to_string())
    );
    assert_eq!(
        parse_raw_keys(&[2, 0, 0, 0, 1]).err(),
        Some("validator.key is corrupted (pk truncated)".to_string())
    );
}

#[test]
fn a_missing_key_is_not_replaced_silently() {
    assert!(check_key_generation("/data/validator.key", 31337, None).is_ok());
    assert!(check_key_generation("/data/validator.key", 1, Some("1")).is_ok());
    for setting in [None, Some(""), Some("0")] {
        let err = check_key_generation("/data/validator.key", 7331, setting).unwrap_err();
        assert!(err.starts_with("validator.key missing at /data/validator.key on chain_id=7331 — refusing"));
        assert!(err.contains("PYDE_INIT_VALIDATOR_KEY=1"));
    }
}

#[test]
fn key_files_are_read_and_saved_by_their_kind() {
    assert_eq!(key_source(false, false), Ok(KeySource::Raw));
    assert_eq!(key_source(true, true), Ok(KeySource::Keystore));
    assert_eq!(
        key_source(true, false),
        Err("validator.key is encrypted but PYDE_VALIDATOR_PASSPHRASE is not set".to_string())
    );
    assert_eq!(key_target(Some("secret")), KeySource::Keystore);
    assert_eq!(key_target(Some("")), KeySource::Raw);
    assert_eq!(key_target(None), KeySource::Raw);
}

#[test]
fn identity_steps() {
    let file = [1u8, 0, 0, 0, 5, 6];
    match identity_step(Some(&file[..]), false, None, "p", 1, None) {
        Ok(IdentityStep::Use(k)) => {
            assert_eq!(k.public_key, vec![5]);
            assert_eq!(k.secret_key, vec![6]);
        }
        _ => panic!("a raw file is used"),
    }
    assert!(matches!(
        identity_step(Some(&file[..]), true, Some("pass"), "p", 1, None),
        Ok(IdentityStep::Decrypt)
    ));
    assert!(identity_step(Some(&file[..]), true, None, "p", 1, None).is_err());
    assert!(identity_step(None, false, None, "p", 1, None).is_err());
    assert!(matches!(
        identity_step(None, false, Some("pass"), "p", 1, Some("yes")),
        Ok(IdentityStep::Generate(KeySource::Keystore))
    ));
    assert!(matches!(
        identity_step(None, false, None, "p", 31337, None),
        Ok(IdentityStep::Generate(KeySource::Raw))
    ));
}
