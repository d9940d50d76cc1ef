use block_executor::mempool_config::{
    ChainId, LocalGaps, MempoolConfig, NodeConfig, NodeType, MAX_APPLICATION_MESSAGE_SIZE,
};

#[test]
fn test_optimize_vfn_configs() {
    // Create the default VFN config
    let mut node_config = NodeConfig::get_default_vfn_config();

    // Optimize the config and verify modifications are made
    let modified_config = MempoolConfig::optimize(
        &mut node_config,
        &serde_yaml::from_str("{}").unwrap(), // An empty local config,
        NodeType::ValidatorFullnode,
        ChainId::testnet(),
    )
    .unwrap();
    assert!(modified_config);

    // Verify that all relevant fields are modified
    let mempool_config = &node_config.mempool;
    assert_eq!(
        mempool_config.shared_mempool_max_concurrent_inbound_syncs,
        16
    );
    assert_eq!(mempool_config.max_broadcasts_per_peer, 4);
    assert_eq!(mempool_config.default_failovers, 0);
    assert_eq!(mempool_config.shared_mempool_batch_size, 200);
    assert_eq!(mempool_config.shared_mempool_tick_interval_ms, 10);
}

#[test]
fn test_optimize_validator_config() {
    // Create the default validator config
    let mut node_config = NodeConfig::get_default_validator_config();

    // Optimize the config and verify no modifications are made
    let modified_config = MempoolConfig::optimize(
        &mut node_config,
        &serde_yaml::from_str("{}").unwrap(), // An empty local config,
        NodeType::Validator,
        ChainId::mainnet(),
    )
    .unwrap();
    assert!(!modified_config);

    // Verify that all relevant fields are not modified
    let mempool_config = &node_config.mempool;
    let default_mempool_config = MempoolConfig::default();
    assert_eq!(
        mempool_config.shared_mempool_max_concurrent_inbound_syncs,
        default_mempool_config.shared_mempool_max_concurrent_inbound_syncs
    );
    assert_eq!(
        mempool_config.max_broadcasts_per_peer,
        default_mempool_config.max_broadcasts_per_peer
    );
    assert_eq!(
        mempool_config.default_failovers,
        default_mempool_config.default_failovers
    );
    assert_eq!(
        mempool_config.shared_mempool_batch_size,
        default_mempool_config.shared_mempool_batch_size
    );
    assert_eq!(
        mempool_config.shared_mempool_tick_interval_ms,
        default_mempool_config.shared_mempool_tick_interval_ms
    );
}

#[test]
fn test_optimize_vfn_config_no_overrides() {
    // Create the default validator config
    let mut node_config = NodeConfig::get_default_vfn_config();

    // Create a local config YAML with some local overrides
    let local_config_yaml = serde_yaml::from_str(
        r#"
            mempool:
              shared_mempool_max_concurrent_inbound_syncs: 4
              max_broadcasts_per_peer: 1
            "#,
    )
    .unwrap();

    // Optimize the config and verify modifications are made
    let modified_config = MempoolConfig::optimize(
        &mut node_config,
        &local_config_yaml,
        NodeType::ValidatorFullnode,
        ChainId::mainnet(),
    )
    .unwrap();
    assert!(modified_config);

    // Verify that only the relevant fields are modified
    let mempool_config = &node_config.mempool;
    let default_mempool_config = MempoolConfig::default();
    assert_eq!(
        mempool_config.shared_mempool_max_concurrent_inbound_syncs,
        4
    );
    assert_eq!(mempool_config.max_broadcasts_per_peer, 2);
    assert_ne!(
        mempool_config.default_failovers,
        default_mempool_config.default_failovers
    );
    assert_ne!(
        mempool_config.shared_mempool_tick_interval_ms,
        default_mempool_config.shared_mempool_tick_interval_ms
    );
}

#[test]
fn mempool_defaults() {
    let c = MempoolConfig::default();
    assert_eq!(c.shared_mempool_tick_interval_ms, 50);
    assert_eq!(c.shared_mempool_backoff_interval_ms, 30_000);
    assert_eq!(c.shared_mempool_batch_size, 200);
    assert_eq!(c.shared_mempool_max_batch_bytes, MAX_APPLICATION_MESSAGE_SIZE as u64);
    assert_eq!(c.shared_mempool_ack_timeout_ms, 2_000);
    assert_eq!(c.shared_mempool_max_concurrent_inbound_syncs, 4);
    assert_eq!(c.max_broadcasts_per_peer, 2);
    assert_eq!(c.max_network_channel_size, 1024);
    assert_eq!(c.mempool_snapshot_interval_secs, 180);
    assert_eq!(c.capacity, 2_000_000);
    assert_eq!(c.capacity_bytes, 2 * 1024 * 1024 * 1024);
    assert_eq!(c.capacity_per_user, 100);
    assert_eq!(c.default_failovers, 1);
    assert_eq!(c.shared_mempool_peer_update_interval_ms, 1_000);
    assert_eq!(c.system_transaction_timeout_secs, 600);
    assert_eq!(c.system_transaction_gc_interval_ms, 60_000);
    assert_eq!(c.broadcast_buckets, vec![0, 150, 300, 500, 1000, 3000, 5000, 10000, 100000, 1000000]);
    assert_eq!(c.eager_expire_threshold_ms, Some(10_000));
    assert_eq!(c.eager_expire_time_ms, 3_000);
}

#[test]
fn sanitize_accepts_everything() {
    let mut node_config = NodeConfig::get_default_validator_config();
    node_config.mempool.capacity = 0;
    let before = node_config.clone();
    assert!(MempoolConfig::sanitize(&mut node_config, NodeType::PublicFullnode, ChainId::new(7)).is_ok());
    assert_eq!(node_config, before);
}

#[test]
fn local_gaps_follow_the_file() {
    let doc: serde_yaml::Value = serde_yaml::from_str(
        "mempool:\n  default_failovers: 3\n  shared_mempool_tick_interval_ms: ~\nother: 1\n",
    )
    .unwrap();
    assert_eq!(
        MempoolConfig::local_gaps(&doc),
        LocalGaps {
            max_concurrent_inbound_syncs: true,
            max_broadcasts_per_peer: true,
            default_failovers: false,
            tick_interval_ms: true,
        }
    );
    // A document that is no mapping leaves everything open.
    let doc: serde_yaml::Value = serde_yaml::from_str("[1, 2]").unwrap();
    assert_eq!(
        MempoolConfig::local_gaps(&doc),
        LocalGaps {
            max_concurrent_inbound_syncs: true,
            max_broadcasts_per_peer: true,
            default_failovers: true,
            tick_interval_ms: true,
        }
    );
}

#[test]
fn optimize_with_gaps_only_touches_open_settings() {
    let mut c = MempoolConfig::default();
    let gaps = LocalGaps {
        max_concurrent_inbound_syncs: false,
        max_broadcasts_per_peer: true,
        default_failovers: false,
        tick_interval_ms: false,
    };
    assert!(c.optimize_with_gaps(gaps, NodeType::ValidatorFullnode));
    let mut expected = MempoolConfig::default();
    expected.max_broadcasts_per_peer = 4;
    assert_eq!(c, expected);
    let none = LocalGaps {
        max_concurrent_inbound_syncs: false,
        max_broadcasts_per_peer: false,
        default_failovers: false,
        tick_interval_ms: false,
    };
    assert!(!c.optimize_with_gaps(none, NodeType::ValidatorFullnode));
    let all = LocalGaps {
        max_concurrent_inbound_syncs: true,
        max_broadcasts_per_peer: true,
        default_failovers: true,
        tick_interval_ms: true,
    };
    assert!(!c.optimize_with_gaps(all, NodeType::PublicFullnode));
    assert_eq!(c, expected);
}

#[test]
fn chain_ids() {
    assert!(ChainId::mainnet().is_mainnet());
    assert!(!ChainId::mainnet().is_testnet());
    assert!(ChainId::testnet().is_testnet());
    assert_eq!(ChainId::new(9).id(), 9);
    assert!(NodeType::Validator.is_validator());
    assert!(NodeType::ValidatorFullnode.is_validator_fullnode());
    assert!(!NodeType::PublicFullnode.is_validator_fullnode());
}
