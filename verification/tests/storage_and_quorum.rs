use block_executor::batch_generator::{
    decreased_pull_rate, increased_pull_rate, initial_pull_rate, should_pull,
    since_last_non_empty_pull_ms, BackPressure, BackPressureConfig, BatchGenerator, BatchId,
    QuorumStoreConfig, TransactionSummary,
};
use block_executor::dag_store::{column_families, load_dag_in_mem, DagLoadError, PartialDag, DAG_DB_NAME};
use block_executor::emitter::{
    emit_attempt, emit_transactions, emit_transactions_with_cluster, stats_interval_secs,
    EmitArgs, EmitAttempt, EmitStep,
};
use block_executor::proof_coordinator::{
    BatchInfo, IncrementalProofState, ProofCoordinator, SignedBatchInfo, SignedBatchInfoError,
    Timeouts, ValidatorVerifier,
};
use block_executor::state_store::{
    apply_delta, chunk_bounds, create_buffered_state_from_latest_snapshot,
    get_previous_epoch_ending, last_checkpoint_index, put_stats_and_indices,
    sync_commit_progress, EpochEnding, ReplayError, ReplayPlan, StaleStateValueIndex,
    StateStorageUsage, StateUpdate, SyncPlan, Truncation, UsageDelta, UsageError,
};

#[test]
fn commit_progress_is_synchronised() {
    assert_eq!(sync_commit_progress(None, 5, 9, true), SyncPlan { ledger: None, state_kv: None });
    assert_eq!(sync_commit_progress(Some(5), 5, 5, true), SyncPlan { ledger: None, state_kv: None });
    assert_eq!(
        sync_commit_progress(Some(5), 8, 5, true),
        SyncPlan {
            ledger: Some(Truncation { current_version: 8, target_version: 5, batch_size: 3 }),
            state_kv: None
        }
    );
    assert_eq!(
        sync_commit_progress(Some(0), 100000, 200001, false),
        SyncPlan {
            ledger: Some(Truncation { current_version: 100000, target_version: 0, batch_size: 100000 }),
            state_kv: Some(Truncation {
                current_version: 200001,
                target_version: 0,
                batch_size: 200001
            }),
        }
    );
}

#[test]
fn replay_is_planned_from_the_snapshot() {
    let plan = |latest, snapshot, hack, check, max| {
        create_buffered_state_from_latest_snapshot(latest, snapshot, hack, check, max)
    };
    assert_eq!(plan(None, None, false, true, 10), Ok(ReplayPlan::Nothing));
    assert_eq!(plan(Some(4), Some(4), false, true, 10), Ok(ReplayPlan::Nothing));
    assert_eq!(plan(Some(4), Some(9), false, true, 10), Ok(ReplayPlan::Nothing));
    assert_eq!(
        plan(Some(4), None, false, true, 10),
        Ok(ReplayPlan::Replay { first_version: 0, end_version: 5 })
    );
    assert_eq!(
        plan(Some(14), Some(4), false, true, 10),
        Ok(ReplayPlan::Replay { first_version: 5, end_version: 15 })
    );
    assert_eq!(
        plan(Some(15), Some(4), false, true, 10),
        Err(ReplayError::TooManyVersions { snapshot_next_version: 5, num_transactions: 16 })
    );
    assert_eq!(
        plan(Some(15), Some(4), false, false, 10),
        Ok(ReplayPlan::Replay { first_version: 5, end_version: 16 })
    );
    assert_eq!(plan(Some(15), Some(4), true, true, 10), Ok(ReplayPlan::Nothing));
    assert_eq!(last_checkpoint_index(&vec![]), None);
    assert_eq!(last_checkpoint_index(&vec![false, false]), None);
    assert_eq!(last_checkpoint_index(&vec![true, false, true, false]), Some(2));
    assert_eq!(last_checkpoint_index(&vec![true]), Some(0));
}

#[test]
fn previous_epoch_ending() {
    let endings = vec![
        EpochEnding { version: 10, epoch: 1 },
        EpochEnding { version: 20, epoch: 2 },
        EpochEnding { version: 35, epoch: 3 },
    ];
    assert_eq!(get_previous_epoch_ending(&endings, 0), None);
    assert_eq!(get_previous_epoch_ending(&endings, 10), None);
    assert_eq!(get_previous_epoch_ending(&endings, 11), Some(endings[0]));
    assert_eq!(get_previous_epoch_ending(&endings, 20), Some(endings[0]));
    assert_eq!(get_previous_epoch_ending(&endings, 21), Some(endings[1]));
    assert_eq!(get_previous_epoch_ending(&endings, u64::MAX), Some(endings[2]));
    assert_eq!(get_previous_epoch_ending(&vec![], 5), None);
    assert_eq!(chunk_bounds(4, 0), None);
    assert_eq!(chunk_bounds(4, 1), Some((4, 4)));
    assert_eq!(chunk_bounds(4, 10), Some((4, 13)));
}

fn put(key: u64, key_size: u32, value_size: u32) -> StateUpdate {
    StateUpdate { key, key_size, value_size: Some(value_size) }
}

fn del(key: u64, key_size: u32) -> StateUpdate {
    StateUpdate { key, key_size, value_size: None }
}

#[test]
fn usage_and_stale_indices() {
    let zero = StateStorageUsage { items: 0, bytes: 0 };
    // Version 5 writes two keys, version 6 overwrites one and deletes the
    // other, version 7 deletes a key that is not there.
    let sets = vec![
        vec![put(1, 10, 100), put(2, 20, 200)],
        vec![put(1, 10, 50), del(2, 20)],
        vec![del(3, 30)],
    ];
    let r = put_stats_and_indices(&sets, 5, &vec![], zero, None, false).unwrap();
    assert_eq!(
        r.usages,
        vec![
            StateStorageUsage { items: 2, bytes: 330 },
            StateStorageUsage { items: 1, bytes: 60 },
            StateStorageUsage { items: 1, bytes: 60 },
        ]
    );
    assert_eq!(
        r.stale_indices,
        vec![
            StaleStateValueIndex { stale_since_version: 6, version: 5, key: 1 },
            StaleStateValueIndex { stale_since_version: 6, version: 6, key: 2 },
            StaleStateValueIndex { stale_since_version: 6, version: 5, key: 2 },
            StaleStateValueIndex { stale_since_version: 7, version: 7, key: 3 },
        ]
    );
    let expected = StateStorageUsage { items: 1, bytes: 60 };
    assert!(put_stats_and_indices(&sets, 5, &vec![], zero, Some(expected), false).is_ok());
    let wrong = StateStorageUsage { items: 1, bytes: 61 };
    assert_eq!(
        put_stats_and_indices(&sets, 5, &vec![], zero, Some(wrong), false).unwrap_err(),
        UsageError::Mismatch { expected: wrong, calculated: expected }
    );
    // Skipping usage skips the check too.
    let r = put_stats_and_indices(&sets, 5, &vec![], zero, Some(wrong), true).unwrap();
    assert!(r.usages.is_empty());
    assert_eq!(r.stale_indices.len(), 4);
}

#[test]
fn usage_counts_what_was_known_before() {
    let base = StateStorageUsage { items: 2, bytes: 1000 };
    let known = vec![(1u64, (3u64, Some(90u32))), (2u64, (4u64, None))];
    let sets = vec![vec![put(1, 10, 5), put(2, 20, 5), del(1, 10)]];
    let r = put_stats_and_indices(&sets, 9, &known, base, None, false).unwrap();
    assert_eq!(r.usages, vec![StateStorageUsage { items: 2, bytes: 925 }]);
    assert_eq!(
        r.stale_indices,
        vec![
            StaleStateValueIndex { stale_since_version: 9, version: 3, key: 1 },
            StaleStateValueIndex { stale_since_version: 9, version: 9, key: 1 },
            StaleStateValueIndex { stale_since_version: 9, version: 9, key: 1 },
        ]
    );
    // More goes than there is.
    let small = StateStorageUsage { items: 0, bytes: 0 };
    let sets = vec![vec![del(1, 10)]];
    assert_eq!(
        put_stats_and_indices(&sets, 9, &known, small, None, false).unwrap_err(),
        UsageError::OutOfRange
    );
    assert!(put_stats_and_indices(&vec![], 0, &vec![], small, Some(small), false).unwrap().usages.is_empty());
    assert_eq!(
        apply_delta(base, UsageDelta { items: -2, bytes: 24 }),
        Some(StateStorageUsage { items: 0, bytes: 1024 })
    );
    assert_eq!(apply_delta(base, UsageDelta { items: -3, bytes: 0 }), None);
}

fn id(n: u8) -> [u8; 32] {
    [n; 32]
}

fn batch(n: u64) -> BatchId {
    BatchId { id: n, nonce: 5 }
}

fn info(digest: u8, batch_id: u64) -> BatchInfo {
    BatchInfo {
        author: id(1),
        batch_id: batch(batch_id),
        epoch: 1,
        expiration: 100,
        digest: id(digest),
        num_txns: 3,
        num_bytes: 30,
    }
}

fn signed(digest: u8, signer: u8) -> SignedBatchInfo {
    SignedBatchInfo { info: info(digest, digest as u64), signer: id(signer), signature: vec![signer] }
}

fn four_validators() -> ValidatorVerifier {
    ValidatorVerifier {
        validators: vec![(id(1), 10), (id(2), 10), (id(3), 10), (id(4), 10)],
        quorum_voting_power: 21,
    }
}

#[test]
fn voting_power() {
    let v = four_validators();
    assert_eq!(v.get_voting_power(&id(3)), Some(10));
    assert_eq!(v.get_voting_power(&id(9)), None);
    assert_eq!(v.quorum_voting_power(), 21);
    assert!(!v.check_voting_power(&vec![id(1), id(2)]));
    assert!(v.check_voting_power(&vec![id(1), id(2), id(3)]));
    assert!(!v.check_voting_power(&vec![id(1), id(2), id(9), id(3)]));
    assert!(!v.check_voting_power(&vec![]));
}

#[test]
fn proof_state_gathers_signatures() {
    let v = four_validators();
    let mut state = IncrementalProofState::new(info(7, 7));
    assert_eq!(state.add_signature(signed(8, 1), &v), Err(SignedBatchInfoError::WrongInfo));
    assert_eq!(state.add_signature(signed(7, 1), &v), Ok(()));
    assert_eq!(state.add_signature(signed(7, 1), &v), Err(SignedBatchInfoError::DuplicatedSignature));
    assert_eq!(state.add_signature(signed(7, 9), &v), Err(SignedBatchInfoError::InvalidAuthor));
    assert!(!state.ready(&v));
    assert_eq!(state.add_signature(signed(7, 2), &v), Ok(()));
    assert!(!state.ready(&v));
    assert_eq!(state.add_signature(signed(7, 3), &v), Ok(()));
    assert!(state.ready(&v));
    assert_eq!(state.signature_count(), 3);
    assert_eq!(state.signers(), vec![id(1), id(2), id(3)]);
    // Counted again with other powers, the signers have no quorum.
    let weak = ValidatorVerifier { validators: vec![(id(1), 1), (id(2), 1), (id(3), 1)], quorum_voting_power: 21 };
    assert!(!state.ready(&weak));
    assert!(!state.is_completed());
    let proof = state.take();
    assert!(state.is_completed());
    assert_eq!(proof.info, info(7, 7));
    assert_eq!(proof.signatures, vec![(id(1), vec![1]), (id(2), vec![2]), (id(3), vec![3])]);
}

#[test]
fn timeouts_expire_from_the_front() {
    let mut t = Timeouts::new();
    t.add(info(1, 1), 10, 100);
    t.add(info(2, 2), 5, 100);
    t.add(info(3, 3), 1, 100);
    t.add(info(4, 4), usize::MAX, i64::MAX);
    assert!(t.expire(104).is_empty());
    // The second entry has expired, and waits behind the first.
    assert!(t.expire(109).is_empty());
    assert_eq!(t.expire(110), vec![info(1, 1), info(2, 2), info(3, 3)]);
    assert!(t.expire(i64::MAX - 1).is_empty());
    assert_eq!(t.expire(i64::MAX), vec![info(4, 4)]);
    assert!(t.expire(i64::MAX).is_empty());
}

#[test]
fn coordinator_makes_a_proof_at_quorum() {
    let v = four_validators();
    let mut c = ProofCoordinator::new(50, id(1));
    // A batch of another author, and a batch that the store does not hold.
    let mut foreign = signed(7, 2);
    foreign.info.author = id(2);
    assert_eq!(
        c.add_signature(foreign, &v, Some(id(2)), 0, 0).unwrap_err(),
        SignedBatchInfoError::WrongAuthor
    );
    assert_eq!(
        c.add_signature(signed(7, 2), &v, None, 0, 0).unwrap_err(),
        SignedBatchInfoError::WrongAuthor
    );
    assert_eq!(
        c.add_signature(signed(7, 2), &v, Some(id(3)), 0, 0).unwrap_err(),
        SignedBatchInfoError::WrongAuthor
    );
    assert!(!c.has_proof(&id(7)));
    assert!(c.add_signature(signed(7, 2), &v, Some(id(1)), 1000, 1).unwrap().is_none());
    assert!(c.has_proof(&id(7)));
    // Once the proof is started the store is not asked again.
    assert!(c.add_signature(signed(7, 3), &v, None, 2000, 2).unwrap().is_none());
    assert_eq!(
        c.add_signature(signed(7, 3), &v, None, 2000, 2).unwrap_err(),
        SignedBatchInfoError::DuplicatedSignature
    );
    let done = c.add_signature(signed(7, 4), &v, None, 3000, 3).unwrap().unwrap();
    assert_eq!(done.created_at_micros, Some(1000));
    assert_eq!(done.proof.info, info(7, 7));
    assert_eq!(done.proof.signatures.len(), 3);
    // A completed proof is not taken a second time.
    assert!(c.add_signature(signed(7, 1), &v, None, 4000, 4).unwrap().is_none());
    // It is completed, so its expiry reports nothing.
    assert!(c.expire(51).is_empty());
    assert!(!c.has_proof(&id(7)));
}

#[test]
fn coordinator_reports_expired_batches() {
    let v = four_validators();
    let mut c = ProofCoordinator::new(50, id(1));
    assert!(c.add_signature(signed(7, 2), &v, Some(id(1)), 0, 100).unwrap().is_none());
    assert!(c.add_signature(signed(8, 2), &v, Some(id(1)), 0, 120).unwrap().is_none());
    assert_eq!(c.init_proof(&signed(9, 2), Some(id(1)), 0, 130), Ok(()));
    assert!(c.expire(149).is_empty());
    assert_eq!(c.expire(170), vec![batch(7), batch(8)]);
    assert!(!c.has_proof(&id(7)));
    assert!(c.has_proof(&id(9)));
    assert_eq!(c.expire(180), vec![batch(9)]);
    assert!(c.expire(1000).is_empty());
}

fn qs_config() -> QuorumStoreConfig {
    QuorumStoreConfig {
        back_pressure: BackPressureConfig {
            decrease_duration_ms: 1000,
            increase_duration_ms: 1000,
            dynamic_min_txn_per_s: 160,
            dynamic_max_txn_per_s: 2000,
        },
        batch_generation_min_non_empty_interval_ms: 100,
        batch_generation_max_interval_ms: 250,
        batch_expiry_gap_when_init_usecs: 60_000_000,
        mempool_txn_pull_max_bytes: 4_000_000,
    }
}

#[test]
fn pull_rate_follows_back_pressure() {
    let cfg = qs_config();
    assert_eq!(initial_pull_rate(&cfg.back_pressure), 1080);
    assert_eq!(increased_pull_rate(1080, &cfg.back_pressure), 1240);
    assert_eq!(increased_pull_rate(1840, &cfg.back_pressure), 2000);
    assert_eq!(increased_pull_rate(1900, &cfg.back_pressure), 2000);
    assert_eq!(decreased_pull_rate(540, &cfg.back_pressure), 540);
    assert_eq!(decreased_pull_rate(100, &cfg.back_pressure), 160);
    assert_eq!(since_last_non_empty_pull_ms(0, &cfg), 0);
    assert_eq!(since_last_non_empty_pull_ms(249, &cfg), 249);
    assert_eq!(since_last_non_empty_pull_ms(250, &cfg), 250);
    assert_eq!(since_last_non_empty_pull_ms(u128::MAX, &cfg), 250);
    let free = BackPressure { txn_count: false, proof_count: false };
    let pressed = BackPressure { txn_count: false, proof_count: true };
    assert!(!should_pull(free, 99, &cfg));
    assert!(should_pull(free, 100, &cfg));
    assert!(!should_pull(pressed, 100, &cfg));
    assert!(!should_pull(pressed, 249, &cfg));
    assert!(should_pull(pressed, 250, &cfg));
}

fn summary(n: u8) -> TransactionSummary {
    TransactionSummary { sender: [n; 32], sequence_number: n as u64 }
}

#[test]
fn batches_in_progress() {
    let cfg = qs_config();
    let (mut g, to_save) = BatchGenerator::new(3, Some(BatchId { id: 4, nonce: 77 }));
    assert_eq!(to_save, BatchId { id: 6, nonce: 77 });
    assert!(g.exclude_txns().is_empty());
    assert_eq!(g.handle_scheduled_pull(vec![], 1000, &cfg), None);
    let a = g.handle_scheduled_pull(vec![summary(1), summary(2)], 1000, &cfg).unwrap();
    assert_eq!(a, (BatchId { id: 5, nonce: 77 }, 60_001_000));
    let b = g.handle_scheduled_pull(vec![summary(3)], 2000, &cfg).unwrap();
    assert_eq!(b.0, BatchId { id: 6, nonce: 77 });
    let c = g.handle_scheduled_pull(vec![summary(4)], 3000, &cfg).unwrap();
    assert_eq!(g.exclude_txns(), vec![summary(1), summary(2), summary(3), summary(4)]);
    g.handle_proof_expiration(&vec![b.0, BatchId { id: 99, nonce: 77 }]);
    assert_eq!(g.exclude_txns(), vec![summary(1), summary(2), summary(4)]);
    assert!(g.handle_commit_notification(60_000_999).is_empty());
    // The second batch is out of progress already, and expires all the same.
    assert_eq!(g.handle_commit_notification(60_002_000), vec![a.0, b.0]);
    assert_eq!(g.exclude_txns(), vec![summary(4)]);
    assert_eq!(g.handle_commit_notification(u64::MAX), vec![c.0]);
    assert!(g.exclude_txns().is_empty());
    g.set_back_pressure(BackPressure { txn_count: true, proof_count: false });
}

#[test]
fn batch_ids() {
    assert_eq!(BatchId::new(9), BatchId { id: 0, nonce: 9 });
    let mut b = BatchId::new(9);
    b.increment();
    assert_eq!(b, BatchId { id: 1, nonce: 9 });
    assert_eq!(BatchGenerator::first_batch_id(None, 5), BatchId { id: 0, nonce: 5 });
    assert_eq!(
        BatchGenerator::first_batch_id(Some(BatchId { id: 8, nonce: 1 }), 5),
        BatchId { id: 9, nonce: 1 }
    );
    let (_, to_save) = BatchGenerator::new(1, None);
    assert_eq!(to_save.id, 1);
    let g = BatchGenerator::with_batch_id(1, BatchId::new(2));
    assert!(g.exclude_txns().is_empty());
}

fn emit_args(delay: Option<u64>) -> EmitArgs {
    EmitArgs {
        duration: 45,
        txn_expiration_time_secs: 60,
        coordination_delay_between_instances: delay,
        module_working_set_size: None,
        sender_use_account_pool: None,
        max_transactions_per_account: Some(5),
        gas_price: None,
        max_gas_per_txn: Some(1000),
        init_gas_price_multiplier: None,
        expected_max_txns: None,
        expected_gas_per_txn: Some(7),
    }
}

#[test]
fn emitter_plans() {
    assert_eq!(stats_interval_secs(0), 1);
    assert_eq!(stats_interval_secs(9), 1);
    assert_eq!(stats_interval_secs(10), 1);
    assert_eq!(stats_interval_secs(45), 4);
    assert_eq!(stats_interval_secs(100), 10);
    assert_eq!(stats_interval_secs(109), 10);
    assert_eq!(stats_interval_secs(u64::MAX), 10);
    let plan = emit_transactions_with_cluster(&emit_args(None), true, false);
    assert_eq!(plan.duration_secs, 45);
    assert_eq!(plan.stats_interval_secs, 4);
    assert_eq!(plan.coordination_delay_secs, 0);
    assert_eq!(plan.module_working_set_size, 1);
    assert!(!plan.sender_use_account_pool);
    assert!(plan.reuse_accounts);
    assert!(plan.prompt_before_spending);
    assert_eq!(plan.max_transactions_per_account, Some(5));
    assert_eq!(plan.max_gas_per_txn, Some(1000));
    assert_eq!(plan.expected_gas_per_txn, Some(7));
    let plan = emit_transactions_with_cluster(&emit_args(Some(30)), false, true);
    assert_eq!(plan.coordination_delay_secs, 30);
    assert!(!plan.prompt_before_spending);
}

#[test]
fn emitter_retries_while_the_delay_lasts() {
    assert_eq!(
        emit_attempt(30, 0, 1000),
        EmitAttempt::Run { coordination_delay_between_instances: Some(30) }
    );
    assert_eq!(
        emit_attempt(30, 1, 10),
        EmitAttempt::Run { coordination_delay_between_instances: Some(20) }
    );
    assert_eq!(
        emit_attempt(30, 2, 30),
        EmitAttempt::Run { coordination_delay_between_instances: Some(0) }
    );
    assert_eq!(emit_attempt(30, 3, 31), EmitAttempt::GiveUp { runs: 3 });
    assert_eq!(
        emit_transactions(&emit_args(None), 0, 5),
        EmitStep::Emit { coordination_delay_between_instances: None }
    );
    assert_eq!(emit_transactions(&emit_args(None), 1, 5), EmitStep::Fail);
    assert_eq!(
        emit_transactions(&emit_args(Some(30)), 1, 5),
        EmitStep::Emit { coordination_delay_between_instances: Some(25) }
    );
    assert_eq!(emit_transactions(&emit_args(Some(30)), 4, 31), EmitStep::GiveUp { runs: 4 });
}

#[test]
fn dag_is_loaded_whole_or_not_at_all() {
    assert_eq!(DAG_DB_NAME, "DagDB");
    assert_eq!(
        column_families(),
        vec!["DagInMem", "DagRoundList", "MissingNodeIdToStatusMap", "WeakLinksCreator"]
    );
    let partial = PartialDag {
        my_id: [1; 32],
        epoch: 2,
        current_round: 3,
        front: [4; 16],
        dag: [5; 16],
        missing_nodes: [6; 16],
    };
    let none = load_dag_in_mem::<u8, u16, u32>(None, Some(1), None, None).unwrap();
    assert!(none.is_none());
    let dag = load_dag_in_mem(Some(partial), Some(1u8), Some(2u16), Some(3u32)).unwrap().unwrap();
    assert_eq!(dag.my_id, [1; 32]);
    assert_eq!(dag.epoch, 2);
    assert_eq!(dag.current_round, 3);
    assert_eq!((dag.front, dag.dag, dag.missing_nodes), (1, 2, 3));
    assert_eq!(
        load_dag_in_mem(Some(partial), Some(1u8), None::<u16>, Some(3u32)).unwrap_err(),
        DagLoadError::Inconsistency
    );
    assert_eq!(
        load_dag_in_mem(Some(partial), None::<u8>, Some(2u16), Some(3u32)).unwrap_err(),
        DagLoadError::Inconsistency
    );
    assert_eq!(
        load_dag_in_mem(Some(partial), Some(1u8), Some(2u16), None::<u32>).unwrap_err(),
        DagLoadError::Inconsistency
    );
}
