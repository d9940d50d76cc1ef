use block_executor::aptos_vm::{AptosVM, TimedFeatureOverride};
use block_executor::decoder::{bytes_of_runs, decode_byte_list, network_name, parse_byte, Argument};
use block_executor::mempool_config::ChainId;
use block_executor::output::{ExecutionError, OutputWrite, WriteOp};
use block_executor::pfn_performance::{singleton_groups, PFNPerformance, NUM_PFNS};
use block_executor::randomness::{DKGTranscript, Randomness};
use block_executor::scripted::{Instruction, MemoryState, ScriptedVm, Transaction};
use block_executor::types::{bytes32_eq, Location};
use block_executor::vm::TransactionStatus;
use block_executor::vm_flow::{
    check_transaction_format, contains_key, core_code_address, counter_label, disposition,
    execute_single_transaction, gas_used, max_binary_format_version, new_block_event_key,
    new_epoch_event_key, plan_failure, run_prologue_with_payload, same_key, sender_label,
    should_restart_execution, validate_waypoint_change_set, writeset_senders, Disposition,
    EventKey, FailurePlan, PayloadKind, Prologue, Route, StatusCode, TransactionKind,
};

#[test]
fn randomness_starts_with_one_zero_byte() {
    assert_eq!(Randomness::new().dummy_bytes, vec![0]);
    assert_eq!(Randomness::default(), Randomness::new());
    assert_eq!(DKGTranscript::new().dummy_bytes, vec![0]);
    assert_eq!(DKGTranscript::default(), DKGTranscript::new());
    assert_ne!(Randomness { dummy_bytes: vec![] }, Randomness::new());
}

#[test]
fn argument_defaults() {
    let a = Argument::default();
    assert!(!a.execute);
    assert_eq!(a.concurrency_level, 1);
    assert_eq!(Argument::new(true, 8), Argument { execute: true, concurrency_level: 8 });
}

#[test]
fn parse_byte_reads_decimal() {
    assert_eq!(parse_byte("0"), Some(0));
    assert_eq!(parse_byte("7"), Some(7));
    assert_eq!(parse_byte("255"), Some(255));
    assert_eq!(parse_byte("256"), None);
    assert_eq!(parse_byte("007"), Some(7));
    assert_eq!(parse_byte("0000000000000000000000000000255"), Some(255));
    assert_eq!(parse_byte("99999999999999999999999999999999"), None);
    assert_eq!(parse_byte(""), None);
    assert_eq!(parse_byte("+5"), None);
    assert_eq!(parse_byte("1a"), None);
    assert_eq!(parse_byte("٣"), None);
    assert_eq!(parse_byte("300x"), None);
}

#[test]
fn byte_lists_are_decoded() {
    assert_eq!(decode_byte_list("[1, 22, 255]"), vec![1, 22, 255]);
    assert_eq!(decode_byte_list("0x10 and 256, then 3\n"), vec![0, 10, 3]);
    assert_eq!(decode_byte_list("no digits"), Vec::<u8>::new());
    assert_eq!(decode_byte_list(""), Vec::<u8>::new());
    assert_eq!(decode_byte_list("12٣4"), Vec::<u8>::new());
    assert_eq!(decode_byte_list("1-2"), vec![1, 2]);
    assert_eq!(
        bytes_of_runs(&vec!["1".to_string(), "x".to_string(), "256".to_string(), "09".to_string()]),
        vec![1, 9]
    );
}

#[test]
fn networks_by_chain() {
    assert_eq!(network_name(ChainId::mainnet()), "mainnet");
    assert_eq!(network_name(ChainId::testnet()), "testnet");
    assert_eq!(network_name(ChainId::new(0)), "devnet");
    assert_eq!(network_name(ChainId::new(3)), "devnet");
}

fn peer(n: u8) -> [u8; 32] {
    let mut p = [0u8; 32];
    p[0] = n;
    p
}

#[test]
fn pfn_shuffle_keeps_the_peers() {
    let test = PFNPerformance::with_seed(true, true, [7u8; 32]);
    assert_eq!(test.name(), "PFNPerformance");
    assert_eq!(NUM_PFNS, 7);
    let validators: Vec<[u8; 32]> = (0..40).map(peer).collect();
    let fullnodes: Vec<[u8; 32]> = (40..100).map(peer).collect();
    let shuffled = test.gather_and_shuffle_peer_ids(&validators, &fullnodes);
    let mut all: Vec<[u8; 32]> = validators.iter().chain(fullnodes.iter()).cloned().collect();
    // A shuffle of a hundred peers moves some of them.
    assert_ne!(shuffled, all);
    let mut sorted = shuffled.clone();
    sorted.sort();
    all.sort();
    assert_eq!(sorted, all);
    // The same seed gives the same order within one process.
    assert_eq!(test.gather_and_shuffle_peer_ids(&validators, &fullnodes), shuffled);
    assert!(test.gather_and_shuffle_peer_ids(&vec![], &vec![]).is_empty());
}

#[test]
fn pfn_chaos_plan_follows_the_flags() {
    let validators = vec![peer(1), peer(2)];
    let fullnodes = vec![peer(3)];
    let plan = PFNPerformance::with_seed(false, false, [0u8; 32]).chaos_plan(&validators, &fullnodes);
    assert!(plan.cpu_stress.is_none());
    assert!(plan.network_emulation.is_none());
    let plan = PFNPerformance::with_seed(true, false, [0u8; 32]).chaos_plan(&validators, &fullnodes);
    assert_eq!(plan.cpu_stress.unwrap().len(), 3);
    assert!(plan.network_emulation.is_none());
    let plan = PFNPerformance::with_seed(false, true, [0u8; 32]).chaos_plan(&validators, &fullnodes);
    let groups = plan.network_emulation.unwrap();
    assert_eq!(groups.len(), 3);
    assert!(groups.iter().all(|g| g.len() == 1));
    assert_eq!(singleton_groups(&validators), vec![vec![peer(1)], vec![peer(2)]]);
}

#[test]
fn pfn_new_draws_a_seed() {
    let a = PFNPerformance::new(true, false).expect("the system gives randomness");
    let validators: Vec<[u8; 32]> = (0..50).map(peer).collect();
    assert_eq!(a.gather_and_shuffle_peer_ids(&validators, &vec![]).len(), 50);
    assert!(a.chaos_plan(&validators, &vec![]).cpu_stress.is_some());
}

#[test]
fn settings_are_set_once() {
    let mut vm = AptosVM::new();
    assert_eq!(vm.get_concurrency_level(), 1);
    assert!(vm.get_paranoid_checks());
    assert_eq!(vm.get_num_proof_reading_threads(), 32);
    assert!(!vm.get_processed_transactions_detailed_counters());
    assert_eq!(vm.get_timed_feature_override(), None);

    vm.set_concurrency_level_for(8, 4);
    assert_eq!(vm.get_concurrency_level(), 4);
    vm.set_concurrency_level_for(2, 4);
    assert_eq!(vm.get_concurrency_level(), 4);
    vm.set_concurrency_level_once(1);
    assert_eq!(vm.get_concurrency_level(), 4);

    vm.set_paranoid_type_checks(false);
    vm.set_paranoid_type_checks(true);
    assert!(!vm.get_paranoid_checks());

    vm.set_num_proof_reading_threads_once(1000);
    assert_eq!(vm.get_num_proof_reading_threads(), 256);
    vm.set_num_proof_reading_threads_once(3);
    assert_eq!(vm.get_num_proof_reading_threads(), 256);

    vm.set_processed_transactions_detailed_counters();
    assert!(vm.get_processed_transactions_detailed_counters());

    vm.set_timed_feature_override(TimedFeatureOverride::Testing);
    vm.set_timed_feature_override(TimedFeatureOverride::Replay);
    assert_eq!(vm.get_timed_feature_override(), Some(TimedFeatureOverride::Testing));
    vm.allow_module_bundle_for_test();
    assert_eq!(vm.get_concurrency_level(), 4);
}

#[test]
fn concurrency_level_is_capped_by_the_cores() {
    let mut vm = AptosVM::new();
    vm.set_concurrency_level_once(usize::MAX);
    assert_eq!(vm.get_concurrency_level(), num_cpus::get());
    let mut vm = AptosVM::new();
    vm.set_concurrency_level_once(1);
    assert_eq!(vm.get_concurrency_level(), 1);
    let mut vm = AptosVM::new();
    vm.set_concurrency_level_once(0);
    assert_eq!(vm.get_concurrency_level(), 0);
    let mut vm = AptosVM::new();
    vm.set_concurrency_level_for(3, 3);
    assert_eq!(vm.get_concurrency_level(), 3);
    let mut small = AptosVM::new();
    small.set_num_proof_reading_threads_once(256);
    assert_eq!(small.get_num_proof_reading_threads(), 256);
    let mut smaller = AptosVM::new();
    smaller.set_num_proof_reading_threads_once(255);
    assert_eq!(smaller.get_num_proof_reading_threads(), 255);
}

#[test]
fn adapter_executes_blocks_at_its_level() {
    let mut vm = AptosVM::new();
    vm.set_concurrency_level_for(5, 8);
    let machine = ScriptedVm::new();
    let txns = vec![
        Transaction::Script { steps: vec![Instruction::Write(Location::new(1, false), vec![1])], gas: 2 },
        Transaction::Script { steps: vec![Instruction::Read(Location::new(1, false))], gas: 2 },
    ];
    let out = vm.execute_block(&machine, &txns, &MemoryState::new(), Some(3), 16).unwrap();
    assert_eq!(out.len(), 2);
    assert_eq!(out[0].write_set, vec![OutputWrite { loc: Location::new(1, false), op: WriteOp::Value(vec![1]) }]);
    assert_eq!(out[1].status, TransactionStatus::Success);
    let out = vm.execute_block(&machine, &txns, &MemoryState::new(), Some(1), 16).unwrap();
    assert_eq!(out[1].status, TransactionStatus::Retry);
    let out = vm.execute_block(&machine, &vec![Transaction::Abort], &MemoryState::new(), None, 16);
    assert_eq!(out, Err(ExecutionError::FatalVMError(0)));
}

#[test]
fn prologues_by_payload() {
    assert_eq!(run_prologue_with_payload(PayloadKind::Script, false, true), Ok(Prologue::Script));
    assert_eq!(run_prologue_with_payload(PayloadKind::EntryFunction, true, true), Ok(Prologue::Script));
    assert_eq!(
        run_prologue_with_payload(PayloadKind::Multisig, false, true),
        Ok(Prologue::ScriptThenMultisig)
    );
    assert_eq!(run_prologue_with_payload(PayloadKind::Multisig, true, true), Ok(Prologue::Script));
    assert_eq!(
        run_prologue_with_payload(PayloadKind::ModuleBundle, false, true),
        Err(StatusCode::FeatureUnderGating)
    );
    assert_eq!(run_prologue_with_payload(PayloadKind::ModuleBundle, true, false), Ok(Prologue::Module));
}

#[test]
fn formats_and_dispositions() {
    assert_eq!(check_transaction_format(true), Err(StatusCode::SignersContainDuplicates));
    assert_eq!(check_transaction_format(false), Ok(()));
    assert_eq!(disposition(TransactionStatus::Success), Disposition::Keep);
    assert_eq!(disposition(TransactionStatus::Abort(3)), Disposition::Keep);
    assert_eq!(disposition(TransactionStatus::SkipRest), Disposition::Keep);
    assert_eq!(disposition(TransactionStatus::DeltaApplicationFailure), Disposition::Keep);
    assert_eq!(disposition(TransactionStatus::Discard(1)), Disposition::Discard);
    assert_eq!(disposition(TransactionStatus::Retry), Disposition::Retry);
    assert_eq!(counter_label(TransactionStatus::Success), Some("success"));
    assert_eq!(counter_label(TransactionStatus::Discard(0)), Some("discarded"));
    assert_eq!(counter_label(TransactionStatus::Retry), None);
    assert_eq!(
        plan_failure(Disposition::Keep, true),
        FailurePlan { invalidate_loader_cache: true, discard: false }
    );
    assert_eq!(
        plan_failure(Disposition::Discard, false),
        FailurePlan { invalidate_loader_cache: false, discard: true }
    );
    assert_eq!(gas_used(100, 40), 60);
    assert_eq!(gas_used(7, 7), 0);
    assert_eq!(max_binary_format_version(true), 6);
    assert_eq!(max_binary_format_version(false), 5);
}

#[test]
fn event_keys() {
    let mut one = [0u8; 32];
    one[31] = 1;
    assert_eq!(core_code_address(), one);
    assert_eq!(new_epoch_event_key(), EventKey { creation_number: 2, account_address: one });
    assert_eq!(new_block_event_key(), EventKey { creation_number: 3, account_address: one });
    assert!(same_key(&new_epoch_event_key(), &new_epoch_event_key()));
    assert!(!same_key(&new_epoch_event_key(), &new_block_event_key()));
    let other = EventKey { creation_number: 2, account_address: [0u8; 32] };
    assert!(!same_key(&new_epoch_event_key(), &other));
    assert!(bytes32_eq(&one, &core_code_address()));
    assert!(!bytes32_eq(&one, &[0u8; 32]));
    assert!(contains_key(&vec![other, new_block_event_key()], &new_block_event_key()));
    assert!(!contains_key(&vec![other], &new_block_event_key()));

    assert!(!should_restart_execution(&vec![]));
    assert!(!should_restart_execution(&vec![new_block_event_key(), other]));
    assert!(should_restart_execution(&vec![new_block_event_key(), new_epoch_event_key()]));
    assert_eq!(validate_waypoint_change_set(&vec![]), Err(StatusCode::InvalidWriteSet));
    assert_eq!(
        validate_waypoint_change_set(&vec![new_block_event_key()]),
        Err(StatusCode::InvalidWriteSet)
    );
    assert_eq!(
        validate_waypoint_change_set(&vec![new_epoch_event_key()]),
        Err(StatusCode::InvalidWriteSet)
    );
    assert_eq!(
        validate_waypoint_change_set(&vec![new_epoch_event_key(), other, new_block_event_key()]),
        Ok(())
    );
}

#[test]
fn routes_by_kind() {
    assert_eq!(execute_single_transaction(TransactionKind::BlockMetadata), Route::BlockPrologue);
    assert_eq!(execute_single_transaction(TransactionKind::WaypointWriteSet), Route::WaypointChangeSet);
    assert_eq!(execute_single_transaction(TransactionKind::UserTransaction), Route::UserTransaction);
    assert_eq!(
        execute_single_transaction(TransactionKind::InvalidSignature),
        Route::DiscardWith(StatusCode::InvalidSignature)
    );
    assert_eq!(execute_single_transaction(TransactionKind::StateCheckpoint), Route::EmptySuccess);
    assert_eq!(sender_label(TransactionKind::BlockMetadata), Some("block_prologue"));
    assert_eq!(sender_label(TransactionKind::WaypointWriteSet), Some("waypoint_write_set"));
    assert_eq!(sender_label(TransactionKind::StateCheckpoint), Some("state_checkpoint"));
    assert_eq!(sender_label(TransactionKind::UserTransaction), None);
    assert_eq!(sender_label(TransactionKind::InvalidSignature), None);
    assert_eq!(writeset_senders(None, peer(2)), vec![peer(2)]);
    assert_eq!(writeset_senders(Some(peer(1)), peer(2)), vec![peer(1), peer(2)]);
}

#[test]
fn adapter_methods_follow_the_settings() {
    let mut vm = AptosVM::new_for_validation();
    assert_eq!(vm.get_concurrency_level(), 1);
    assert_eq!(vm.run_prologue(PayloadKind::ModuleBundle), Err(StatusCode::FeatureUnderGating));
    assert_eq!(vm.run_prologue(PayloadKind::Multisig), Ok(Prologue::ScriptThenMultisig));
    assert_eq!(vm.run_prologue_with_payload(PayloadKind::Multisig, true), Ok(Prologue::Script));
    vm.allow_module_bundle_for_test();
    assert_eq!(vm.run_prologue(PayloadKind::ModuleBundle), Ok(Prologue::Module));
    assert_eq!(vm.check_transaction_format(true), Err(StatusCode::SignersContainDuplicates));
    assert_eq!(vm.check_transaction_format(false), Ok(()));
    assert!(AptosVM::should_restart_execution(&vec![new_epoch_event_key()]));
    assert!(!AptosVM::should_restart_execution(&vec![new_block_event_key()]));
    assert_eq!(
        AptosVM::validate_waypoint_change_set(&vec![new_block_event_key(), new_epoch_event_key()]),
        Ok(())
    );
    assert_eq!(
        AptosVM::validate_waypoint_change_set(&vec![new_block_event_key()]),
        Err(StatusCode::InvalidWriteSet)
    );
    assert_eq!(vm.execute_single_transaction(TransactionKind::StateCheckpoint), Route::EmptySuccess);
    assert_eq!(
        vm.validate_simulated_transaction(true, PayloadKind::Script),
        Err(StatusCode::SignersContainDuplicates)
    );
    assert_eq!(
        vm.validate_simulated_transaction(false, PayloadKind::Multisig),
        Ok(Prologue::Script)
    );
}
