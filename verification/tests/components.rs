use block_executor::commit::CommitState;
use block_executor::delta::{decode_counter, encode_counter, DeltaKind, DeltaOp};
use block_executor::delta_layer::{AggregateView, DeltaLayer};
use block_executor::mvds::{MultiVersionStore, ReadResult};
use block_executor::output::{ExecutionError, ExecutorConfig, OutputWrite, WriteOp};
use block_executor::scheduler::{HaltReason, Scheduler, Status, Task};
use block_executor::scripted::{Instruction, MemoryState, ScriptedVm, Transaction};
use block_executor::types::{bytes_eq, clone_bytes, opt_bytes_eq, Location, Version};
use block_executor::view::{
    execute_incarnation, find_own_write, observe, routed_read, validate_read_set, Execution,
    Observation, Routed, VersionedView, WriteEntry,
};
use block_executor::vm::{RunEnd, StateView, TransactionStatus};
use block_executor::worker::{
    apply_delta_set, apply_write_set, end_execution_task, mark_estimates, validation_task,
};

fn loc(k: u64) -> Location {
    Location::new(k, false)
}

fn value(r: ReadResult) -> (Option<Vec<u8>>, Version) {
    match r {
        ReadResult::Value(v, ver) => (v, ver),
        other => panic!("no value: {:?}", other),
    }
}

#[test]
fn location_shards_by_low_bits() {
    assert_eq!(loc(0).shard_id(), 0);
    assert_eq!(loc(15).shard_id(), 15);
    assert_eq!(loc(16).shard_id(), 0);
    assert_eq!(loc(0x1234_5678_9abc_def7).shard_id(), 7);
    assert_eq!(Location::new(u64::MAX, true).shard_id(), 15);
    assert!(Location::new(1, true).is_module());
    assert!(!loc(1).is_module());
    assert_ne!(Location::new(1, true), loc(1));
}

#[test]
fn byte_helpers() {
    assert!(bytes_eq(&vec![1, 2], &vec![1, 2]));
    assert!(!bytes_eq(&vec![1, 2], &vec![1, 3]));
    assert!(!bytes_eq(&vec![1, 2], &vec![1]));
    assert_eq!(clone_bytes(&vec![5, 6, 7]), vec![5, 6, 7]);
    assert!(opt_bytes_eq(&None, &None));
    assert!(!opt_bytes_eq(&None, &Some(vec![])));
    assert!(opt_bytes_eq(&Some(vec![]), &Some(vec![])));
}

#[test]
fn mvds_read_sees_the_nearest_lower_writer() {
    let mut store = MultiVersionStore::new();
    assert!(matches!(store.read(loc(1), 5), ReadResult::Storage));
    store.write(loc(1), 2, 0, Some(vec![2]));
    store.write(loc(1), 7, 3, Some(vec![7]));
    store.write(loc(17), 4, 0, Some(vec![9]));
    assert!(matches!(store.read(loc(1), 0), ReadResult::Storage));
    assert!(matches!(store.read(loc(1), 2), ReadResult::Storage));
    assert_eq!(value(store.read(loc(1), 3)), (Some(vec![2]), Version { txn_idx: 2, incarnation: 0 }));
    assert_eq!(value(store.read(loc(1), 7)), (Some(vec![2]), Version { txn_idx: 2, incarnation: 0 }));
    assert_eq!(value(store.read(loc(1), 8)), (Some(vec![7]), Version { txn_idx: 7, incarnation: 3 }));
    assert_eq!(
        value(store.read(loc(1), usize::MAX)),
        (Some(vec![7]), Version { txn_idx: 7, incarnation: 3 })
    );
    // A location of the same shard is a location of its own.
    assert_eq!(value(store.read(loc(17), 9)), (Some(vec![9]), Version { txn_idx: 4, incarnation: 0 }));
}

#[test]
fn mvds_write_replaces_and_ignores_incarnation_order() {
    let mut store = MultiVersionStore::new();
    store.write(loc(1), 2, 5, Some(vec![1]));
    store.write(loc(1), 2, 1, None);
    assert_eq!(value(store.read(loc(1), 3)), (None, Version { txn_idx: 2, incarnation: 1 }));
}

#[test]
fn mvds_estimates_become_dependencies() {
    let mut store = MultiVersionStore::new();
    store.write(loc(1), 2, 0, Some(vec![1]));
    store.write(loc(1), 4, 0, Some(vec![2]));
    store.mark_estimate(loc(1), 4);
    store.mark_estimate(loc(1), 3);
    store.mark_estimate(loc(2), 4);
    assert!(matches!(store.read(loc(1), 5), ReadResult::Dependency(4)));
    assert_eq!(value(store.read(loc(1), 4)).0, Some(vec![1]));
    assert!(matches!(store.read(loc(2), 5), ReadResult::Storage));
    // A new write resolves the estimate.
    store.write(loc(1), 4, 1, Some(vec![3]));
    assert_eq!(value(store.read(loc(1), 5)), (Some(vec![3]), Version { txn_idx: 4, incarnation: 1 }));
}

#[test]
fn mvds_delete_removes_one_entry() {
    let mut store = MultiVersionStore::new();
    store.write(loc(1), 2, 0, Some(vec![1]));
    store.write(loc(1), 4, 0, Some(vec![2]));
    store.write(loc(1), 6, 0, Some(vec![3]));
    store.delete(loc(1), 4);
    store.delete(loc(1), 5);
    assert_eq!(value(store.read(loc(1), 5)).1.txn_idx, 2);
    assert_eq!(value(store.read(loc(1), 7)).1.txn_idx, 6);
    store.delete(loc(1), 2);
    store.delete(loc(1), 6);
    assert!(matches!(store.read(loc(1), 9), ReadResult::Storage));
}

#[test]
fn delta_apply_checks_bounds() {
    assert_eq!(DeltaOp::plus(1, 0, 100).apply(99), Some(100));
    assert_eq!(DeltaOp::plus(1, 0, 100).apply(100), None);
    assert_eq!(DeltaOp::minus(1, 0, 100).apply(0), None);
    assert_eq!(DeltaOp::minus(1, 0, 100).apply(1), Some(0));
    assert_eq!(DeltaOp::minus(5, -10, 10).apply(-5), Some(-10));
    assert_eq!(DeltaOp::plus(0, 0, 10).apply(11), None);
    assert_eq!(DeltaOp::plus(u64::MAX, i128::MIN, i128::MAX).apply(i128::MAX), None);
    assert_eq!(DeltaOp::minus(u64::MAX, i128::MIN, i128::MAX).apply(i128::MIN), None);
    assert_eq!(
        DeltaOp::plus(u64::MAX, i128::MIN, i128::MAX).apply(0),
        Some(u64::MAX as i128)
    );
    assert_eq!(DeltaOp::plus(3, 0, 9).kind, DeltaKind::Add);
    assert_eq!(DeltaOp::minus(3, 0, 9).kind, DeltaKind::Sub);
}

#[test]
fn counters_round_trip() {
    for v in [0i128, 1, -1, 255, 256, i128::MAX, i128::MIN, 1 << 64] {
        let bytes = encode_counter(v);
        assert_eq!(bytes.len(), 16);
        assert_eq!(decode_counter(&Some(bytes)), Some(v));
    }
    assert_eq!(encode_counter(1)[0], 1);
    assert_eq!(encode_counter(256)[1], 1);
    assert_eq!(encode_counter(-1), vec![255u8; 16]);
    assert_eq!(decode_counter(&None), None);
    assert_eq!(decode_counter(&Some(vec![0; 15])), None);
    assert_eq!(decode_counter(&Some(vec![0; 17])), None);
}

#[test]
fn delta_layer_composes_the_deltas_below() {
    let mut layer = DeltaLayer::new();
    assert_eq!(layer.read_delta(loc(1), 9), AggregateView { added: 0, subtracted: 0, latest: None });
    layer.record_delta(loc(1), 3, 0, DeltaOp::plus(5, 0, 100));
    layer.record_delta(loc(1), 1, 0, DeltaOp::minus(2, 0, 100));
    layer.record_delta(loc(1), 6, 0, DeltaOp::plus(7, 0, 100));
    layer.record_delta(loc(2), 2, 0, DeltaOp::plus(50, 0, 100));
    assert_eq!(layer.read_delta(loc(1), 1), AggregateView { added: 0, subtracted: 0, latest: None });
    assert_eq!(layer.read_delta(loc(1), 2), AggregateView { added: 0, subtracted: 2, latest: Some(1) });
    assert_eq!(layer.read_delta(loc(1), 6), AggregateView { added: 5, subtracted: 2, latest: Some(3) });
    assert_eq!(layer.read_delta(loc(1), 7), AggregateView { added: 12, subtracted: 2, latest: Some(6) });
    // A second delta of one transaction takes the place of the first.
    layer.record_delta(loc(1), 3, 1, DeltaOp::minus(1, 0, 100));
    assert_eq!(layer.read_delta(loc(1), 7), AggregateView { added: 7, subtracted: 3, latest: Some(6) });
    assert_eq!(layer.remove_delta(loc(1), 6), Some(DeltaOp::plus(7, 0, 100)));
    assert_eq!(layer.remove_delta(loc(1), 6), None);
    assert_eq!(layer.read_delta(loc(1), 7), AggregateView { added: 0, subtracted: 3, latest: Some(3) });
}

#[test]
fn delta_layer_materializes_one_delta() {
    let mut layer = DeltaLayer::new();
    layer.record_delta(loc(1), 3, 0, DeltaOp::plus(5, 0, 100));
    assert_eq!(layer.materialize(loc(1), 2, 10), None);
    assert_eq!(layer.materialize(loc(1), 3, 10), Some(Some(15)));
    assert_eq!(layer.materialize(loc(1), 3, 10), None);
    layer.record_delta(loc(1), 3, 0, DeltaOp::plus(5, 0, 100));
    assert_eq!(layer.materialize(loc(1), 3, 96), Some(None));
    assert_eq!(layer.read_delta(loc(1), 9).latest, None);
}

#[test]
fn routing_prefers_the_nearest_writer() {
    let mut store = MultiVersionStore::new();
    let mut layer = DeltaLayer::new();
    let mut base = MemoryState::new();
    base.insert(loc(1), vec![42]);
    match routed_read(&store, &layer, &base, loc(1), 5) {
        Routed::Value(v, obs) => {
            assert_eq!(v, Some(vec![42]));
            assert_eq!(obs, Observation::Storage);
        },
        Routed::Dependency(_) => panic!(),
    }
    assert!(matches!(routed_read(&store, &layer, &base, loc(2), 5), Routed::Value(None, Observation::Storage)));
    store.write(loc(1), 2, 0, Some(vec![1]));
    layer.record_delta(loc(1), 1, 0, DeltaOp::plus(1, 0, 9));
    // The write at 2 is nearer than the delta at 1.
    assert_eq!(
        observe(&store, &layer, loc(1), 5),
        Some(Observation::Versioned(Version { txn_idx: 2, incarnation: 0 }))
    );
    assert_eq!(observe(&store, &layer, loc(1), 2), None);
    layer.record_delta(loc(1), 3, 0, DeltaOp::plus(1, 0, 9));
    assert!(matches!(routed_read(&store, &layer, &base, loc(1), 5), Routed::Dependency(3)));
    // A delta of the writer itself counts as the later of the two.
    layer.record_delta(loc(1), 2, 0, DeltaOp::plus(1, 0, 9));
    assert!(matches!(routed_read(&store, &layer, &base, loc(1), 3), Routed::Dependency(2)));
}

#[test]
fn own_write_lookup_finds_the_last() {
    let writes = vec![
        WriteEntry { loc: loc(1), value: Some(vec![1]) },
        WriteEntry { loc: loc(2), value: None },
        WriteEntry { loc: loc(1), value: Some(vec![3]) },
    ];
    assert_eq!(find_own_write(&writes, loc(1)), Some(2));
    assert_eq!(find_own_write(&writes, loc(2)), Some(1));
    assert_eq!(find_own_write(&writes, loc(3)), None);
    assert_eq!(find_own_write(&vec![], loc(3)), None);
}

fn record_of(e: Execution) -> block_executor::view::TxnRecord {
    match e {
        Execution::Done(rec) => rec,
        Execution::Blocked { .. } => panic!("blocked"),
    }
}

#[test]
fn incarnation_records_reads_writes_and_status() {
    let mut store = MultiVersionStore::new();
    let layer = DeltaLayer::new();
    let mut base = MemoryState::new();
    base.insert(loc(1), encode_counter(10));
    store.write(loc(2), 1, 4, Some(encode_counter(20)));
    let txn = Transaction::Script {
        steps: vec![
            Instruction::Read(loc(1)),
            Instruction::Read(loc(2)),
            Instruction::Bump { loc: loc(3), source: 1, change: 2 },
            Instruction::Read(loc(3)),
            Instruction::Delta(loc(4), DeltaOp::plus(1, 0, 5)),
            Instruction::Emit(vec![8]),
            Instruction::Delete(loc(3)),
        ],
        gas: 9,
    };
    let vm = ScriptedVm::new();
    let rec = record_of(execute_incarnation(&vm, &txn, &store, &layer, &base, 3, 7, 64));
    assert_eq!(rec.incarnation, 7);
    assert_eq!(rec.end, RunEnd::Finished(TransactionStatus::Success, 9));
    assert_eq!(rec.run.reads.len(), 2);
    assert_eq!(rec.run.reads[0].loc, loc(1));
    assert_eq!(rec.run.reads[0].observation, Observation::Storage);
    assert_eq!(rec.run.reads[0].value, Some(encode_counter(10)));
    assert_eq!(
        rec.run.reads[1].observation,
        Observation::Versioned(Version { txn_idx: 1, incarnation: 4 })
    );
    assert_eq!(rec.run.writes.len(), 1);
    assert_eq!(rec.run.writes[0].loc, loc(3));
    assert_eq!(rec.run.writes[0].value, None);
    assert_eq!(rec.run.responses[3], Some(encode_counter(22)));
    assert_eq!(rec.run.deltas, vec![(loc(4), DeltaOp::plus(1, 0, 5))]);
    assert_eq!(rec.run.events, vec![vec![8]]);
    assert!(validate_read_set(&store, &layer, &rec.run.reads, 3));
    // A reader below the writer does not see it.
    let rec = record_of(execute_incarnation(&vm, &txn, &store, &layer, &base, 1, 0, 64));
    assert_eq!(rec.run.reads[1].observation, Observation::Storage);
    assert_eq!(rec.end, RunEnd::Finished(TransactionStatus::Abort(1), 9));
}

#[test]
fn incarnation_blocks_on_estimates_and_hits_the_step_limit() {
    let mut store = MultiVersionStore::new();
    let layer = DeltaLayer::new();
    let base = MemoryState::new();
    store.write(loc(2), 1, 0, Some(vec![1]));
    store.mark_estimate(loc(2), 1);
    let txn = Transaction::Script {
        steps: vec![Instruction::Write(loc(1), vec![1]), Instruction::Read(loc(2))],
        gas: 1,
    };
    let vm = ScriptedVm::new();
    match execute_incarnation(&vm, &txn, &store, &layer, &base, 3, 0, 64) {
        Execution::Blocked { loc: l, on } => {
            assert_eq!(l, loc(2));
            assert_eq!(on, 1);
        },
        Execution::Done(_) => panic!("not blocked"),
    }
    let rec = record_of(execute_incarnation(&vm, &txn, &store, &layer, &base, 1, 0, 64));
    assert_eq!(rec.end, RunEnd::Finished(TransactionStatus::Success, 1));
    let rec = record_of(execute_incarnation(&vm, &txn, &store, &layer, &base, 1, 0, 2));
    assert_eq!(rec.end, RunEnd::Fatal);
    let rec = record_of(execute_incarnation(&vm, &txn, &store, &layer, &base, 1, 0, 3));
    assert_eq!(rec.end, RunEnd::Finished(TransactionStatus::Success, 1));
    let rec = record_of(execute_incarnation(&vm, &Transaction::Abort, &store, &layer, &base, 1, 0, 3));
    assert_eq!(rec.end, RunEnd::Fatal);
}

#[test]
fn validation_compares_observations() {
    let mut store = MultiVersionStore::new();
    let mut layer = DeltaLayer::new();
    let base = MemoryState::new();
    store.write(loc(1), 1, 0, Some(vec![1]));
    let txn = Transaction::Script {
        steps: vec![Instruction::Read(loc(1)), Instruction::Read(loc(2))],
        gas: 1,
    };
    let vm = ScriptedVm::new();
    let rec = record_of(execute_incarnation(&vm, &txn, &store, &layer, &base, 5, 0, 64));
    assert!(validate_read_set(&store, &layer, &rec.run.reads, 5));
    assert!(validate_read_set(&store, &layer, &vec![], 5));
    // The same value at a new incarnation is another version.
    store.write(loc(1), 1, 1, Some(vec![1]));
    assert!(!validate_read_set(&store, &layer, &rec.run.reads, 5));
    store.write(loc(1), 1, 0, Some(vec![9]));
    assert!(validate_read_set(&store, &layer, &rec.run.reads, 5));
    // A writer above the reader does not matter, one below does.
    store.write(loc(2), 5, 0, Some(vec![1]));
    assert!(validate_read_set(&store, &layer, &rec.run.reads, 5));
    store.write(loc(2), 4, 0, Some(vec![1]));
    assert!(!validate_read_set(&store, &layer, &rec.run.reads, 5));
    store.delete(loc(2), 4);
    assert!(validate_read_set(&store, &layer, &rec.run.reads, 5));
    store.mark_estimate(loc(1), 1);
    assert!(!validate_read_set(&store, &layer, &rec.run.reads, 5));
    store.write(loc(1), 1, 0, Some(vec![9]));
    layer.record_delta(loc(2), 3, 0, DeltaOp::plus(1, 0, 9));
    assert!(!validate_read_set(&store, &layer, &rec.run.reads, 5));
}

#[test]
fn scheduler_grants_executions_in_order() {
    let mut s = Scheduler::new(3);
    assert_eq!(s.len(), 3);
    assert_eq!(s.stop_idx(), 3);
    assert_eq!(s.next_task(), Task::Execute(0, 0));
    assert_eq!(s.next_task(), Task::Execute(1, 0));
    assert_eq!(s.status(0), Status::Executing(0));
    assert_eq!(s.in_flight(), 2);
    // Nothing was executed when the second task was granted, so the
    // validation cursor has passed the whole block by now.
    assert_eq!(s.finish_execution(0, 0, true), Task::NoTask);
    assert_eq!(s.status(0), Status::Executed(0));
    // The new write has called the cursor back: validation goes first.
    assert_eq!(s.next_task(), Task::Validate(0, 0));
    assert!(!s.finish_validation(0, 0, true));
    // Transaction 1 is not executed yet: the cursor passes to execution.
    assert_eq!(s.next_task(), Task::Execute(2, 0));
    assert_eq!(s.finish_execution(1, 0, true), Task::NoTask);
    // The cursor is at 1 and has yet to come to transaction 2.
    assert_eq!(s.finish_execution(2, 0, false), Task::NoTask);
    assert_eq!(s.next_task(), Task::Validate(1, 0));
    assert_eq!(s.next_task(), Task::Validate(2, 0));
    assert_eq!(s.next_task(), Task::NoTask);
    assert!(!s.finish_validation(1, 0, true));
    assert!(!s.is_done());
    assert!(!s.finish_validation(2, 0, true));
    assert_eq!(s.next_task(), Task::Done);
    assert!(s.is_done());
    assert_eq!(s.next_task(), Task::Done);
}

#[test]
fn scheduler_hands_back_the_validation_of_a_passed_transaction() {
    let mut s = Scheduler::new(2);
    assert_eq!(s.next_task(), Task::Execute(0, 0));
    assert_eq!(s.next_task(), Task::Execute(1, 0));
    // The validation cursor has passed both. Without a new write it stays,
    // and the worker validates the transaction itself.
    assert_eq!(s.finish_execution(0, 0, false), Task::Validate(0, 0));
    assert_eq!(s.in_flight(), 2);
    assert!(!s.finish_validation(0, 0, true));
    assert_eq!(s.finish_execution(1, 0, false), Task::Validate(1, 0));
    assert_eq!(s.next_task(), Task::NoTask);
    assert!(!s.finish_validation(1, 0, true));
    assert_eq!(s.next_task(), Task::Done);
}

#[test]
fn scheduler_aborts_once_and_lowers_the_cursors() {
    let mut s = Scheduler::new(4);
    for i in 0..4 {
        assert_eq!(s.next_task(), Task::Execute(i, 0));
    }
    for i in 0..4 {
        assert_eq!(s.finish_execution(i, 0, true), Task::NoTask);
    }
    assert_eq!(s.next_task(), Task::Validate(0, 0));
    assert_eq!(s.next_task(), Task::Validate(1, 0));
    assert_eq!(s.next_task(), Task::Validate(2, 0));
    // Two validators of one incarnation: only the first abort succeeds.
    assert!(s.finish_validation(1, 0, false));
    assert_eq!(s.status(1), Status::Aborting(0));
    assert!(!s.try_abort(1, 0));
    s.finish_abort(1, 0);
    assert_eq!(s.status(1), Status::ReadyToExecute(1));
    assert!(!s.finish_validation(2, 0, true));
    assert!(!s.finish_validation(0, 0, true));
    // Both cursors are back at 1: the transaction is executed again.
    assert_eq!(s.next_task(), Task::Execute(1, 1));
    // An abort of the wrong incarnation fails.
    assert!(!s.try_abort(2, 1));
    assert_eq!(s.finish_execution(1, 1, true), Task::NoTask);
    assert_eq!(s.next_task(), Task::Validate(1, 1));
    // The execution cursor passes the executed ones without a task.
    assert_eq!(s.next_task(), Task::NoTask);
    // The transactions above the aborted one are validated again.
    assert_eq!(s.next_task(), Task::Validate(2, 0));
    assert_eq!(s.next_task(), Task::NoTask);
    assert_eq!(s.next_task(), Task::Validate(3, 0));
}

#[test]
fn scheduler_halt_and_suspend() {
    let mut s = Scheduler::new(5);
    assert_eq!(s.next_task(), Task::Execute(0, 0));
    assert_eq!(s.next_task(), Task::Execute(1, 0));
    s.suspend(1, 0, 1);
    assert_eq!(s.status(1), Status::ReadyToExecute(0));
    assert_eq!(s.next_task(), Task::Execute(1, 0));
    assert_eq!(s.halt_reason(), None);
    s.halt(2, HaltReason::GasLimitReached);
    s.halt(4, HaltReason::SkipRest);
    assert_eq!(s.stop_idx(), 2);
    assert_eq!(s.halt_reason(), Some(HaltReason::GasLimitReached));
    assert_eq!(s.next_task(), Task::NoTask);
    assert_eq!(s.finish_execution(0, 0, true), Task::NoTask);
    assert_eq!(s.finish_execution(1, 0, true), Task::NoTask);
    assert_eq!(s.next_task(), Task::Validate(0, 0));
    assert_eq!(s.next_task(), Task::Validate(1, 0));
    assert!(!s.finish_validation(0, 0, true));
    assert!(!s.finish_validation(1, 0, true));
    assert_eq!(s.next_task(), Task::Done);
}

#[test]
fn scheduler_commit_moves_the_cursors() {
    let mut s = Scheduler::new(2);
    assert_eq!(s.commit_idx(), 0);
    s.advance_commit(3);
    assert_eq!(s.commit_idx(), 1);
    assert_eq!(s.status(0), Status::Executed(3));
    // A committed transaction is not aborted.
    assert!(!s.try_abort(0, 3));
    assert_eq!(s.next_task(), Task::Execute(1, 0));
    assert_eq!(Status::Aborting(4).incarnation(), 4);
    let mut empty = Scheduler::new(0);
    assert_eq!(empty.next_task(), Task::Done);
}

#[test]
fn commit_pipeline_commits_in_order() {
    let vm = ScriptedVm::new();
    let mut base = MemoryState::new();
    base.insert(loc(1), encode_counter(5));
    let cfg = ExecutorConfig { gas_limit: Some(7), concurrency: 1, max_steps: 64 };
    let mut commit = CommitState::new();
    assert_eq!(commit.committed_count(), 0);
    assert_eq!(commit.committed_value(&base, loc(1)), Some(encode_counter(5)));
    let txn = Transaction::Script {
        steps: vec![
            Instruction::Read(loc(1)),
            Instruction::Bump { loc: loc(1), source: 0, change: 1 },
            Instruction::Delta(loc(1), DeltaOp::plus(10, 0, 100)),
        ],
        gas: 4,
    };
    let rec = commit.execute_on_committed(&vm, &txn, &base, 0, 64);
    assert!(commit.reads_are_current(&base, &rec.run.reads));
    assert_eq!(commit.resolve(&base, &rec.run), Some(vec![16]));
    commit.commit_record(&base, &cfg, 0, &rec);
    assert_eq!(commit.committed_value(&base, loc(1)), Some(encode_counter(16)));
    assert!(!commit.is_stopped());
    // A record that saw the old value is stale now.
    let stale = {
        let fresh = CommitState::new();
        fresh.execute_on_committed(&vm, &txn, &base, 0, 64)
    };
    assert!(!commit.reads_are_current(&base, &stale.run.reads));
    let rec = commit.execute_on_committed(&vm, &txn, &base, 0, 64);
    commit.commit_record(&base, &cfg, 1, &rec);
    // The total of 8 exceeds the limit of 7.
    assert!(commit.is_stopped());
    commit.skip();
    assert_eq!(commit.error(), None);
    let out = commit.into_outputs();
    assert_eq!(out.len(), 3);
    assert_eq!(
        out[1].write_set,
        vec![
            OutputWrite { loc: loc(1), op: WriteOp::Value(encode_counter(17)) },
            OutputWrite { loc: loc(1), op: WriteOp::MaterializedDelta(27) },
        ]
    );
    assert_eq!(out[2].status, TransactionStatus::Retry);
}

#[test]
fn commit_pipeline_reports_errors() {
    let vm = ScriptedVm::new();
    let base = MemoryState::new();
    let cfg = ExecutorConfig { gas_limit: None, concurrency: 1, max_steps: 64 };
    let mut commit = CommitState::new();
    let rec = commit.execute_on_committed(&vm, &Transaction::Abort, &base, 0, 64);
    commit.commit_record(&base, &cfg, 4, &rec);
    assert_eq!(commit.error(), Some(ExecutionError::FatalVMError(4)));
    assert_eq!(commit.committed_count(), 0);
    let mut commit = CommitState::new();
    let m = Location::new(1, true);
    let write = Transaction::Script { steps: vec![Instruction::Write(m, vec![1])], gas: 1 };
    let read = Transaction::Script { steps: vec![Instruction::Read(m)], gas: 1 };
    let rec = commit.execute_on_committed(&vm, &write, &base, 0, 64);
    commit.commit_record(&base, &cfg, 0, &rec);
    let rec = commit.execute_on_committed(&vm, &write, &base, 0, 64);
    commit.commit_record(&base, &cfg, 1, &rec);
    assert_eq!(commit.error(), None);
    let rec = commit.execute_on_committed(&vm, &read, &base, 0, 64);
    commit.commit_record(&base, &cfg, 2, &rec);
    assert_eq!(commit.error(), Some(ExecutionError::ModulePathReadWrite));
}

#[test]
fn memory_state_first_entry_counts() {
    let mut base = MemoryState::new();
    base.insert(loc(1), vec![1]);
    base.insert(loc(1), vec![2]);
    base.insert(loc(2), vec![]);
    assert_eq!(base.get(&loc(1)), Some(vec![1]));
    assert_eq!(base.get(&loc(2)), Some(vec![]));
    assert_eq!(base.get(&loc(3)), None);
}

fn entry(k: u64, v: u8) -> WriteEntry {
    WriteEntry { loc: loc(k), value: Some(vec![v]) }
}

#[test]
fn write_sets_replace_each_other() {
    let mut store = MultiVersionStore::new();
    store.write(loc(1), 2, 0, Some(vec![9]));
    // The first incarnation of transaction 4 writes 1 and 2.
    assert!(apply_write_set(&mut store, 4, 0, &vec![], &vec![entry(1, 1), entry(2, 2)]));
    assert_eq!(value(store.read(loc(1), 5)), (Some(vec![1]), Version { txn_idx: 4, incarnation: 0 }));
    // The second writes 2 and 3: the entry at 1 goes, the one at 3 is new.
    let prev = vec![entry(1, 1), entry(2, 2)];
    assert!(apply_write_set(&mut store, 4, 1, &prev, &vec![entry(2, 7), entry(3, 8)]));
    assert_eq!(value(store.read(loc(1), 5)).1.txn_idx, 2);
    assert_eq!(value(store.read(loc(2), 5)), (Some(vec![7]), Version { txn_idx: 4, incarnation: 1 }));
    assert_eq!(value(store.read(loc(3), 5)).0, Some(vec![8]));
    // The third writes a part of what the second wrote: nothing is new.
    let prev = vec![entry(2, 7), entry(3, 8)];
    assert!(!apply_write_set(&mut store, 4, 2, &prev, &vec![entry(3, 8)]));
    assert!(matches!(store.read(loc(2), 5), ReadResult::Storage));
    assert!(!apply_write_set(&mut store, 4, 3, &vec![entry(3, 8)], &vec![]));
    assert!(matches!(store.read(loc(3), 5), ReadResult::Storage));

    mark_estimates(&mut store, 2, &vec![entry(1, 0), entry(5, 0)]);
    assert!(matches!(store.read(loc(1), 5), ReadResult::Dependency(2)));

    let mut layer = DeltaLayer::new();
    let d1 = (loc(1), DeltaOp::plus(1, 0, 9));
    let d2 = (loc(2), DeltaOp::plus(2, 0, 9));
    assert!(apply_delta_set(&mut layer, 4, 0, &vec![], &vec![d1, d2]));
    assert!(!apply_delta_set(&mut layer, 4, 1, &vec![d1, d2], &vec![d2]));
    assert_eq!(layer.read_delta(loc(1), 5).latest, None);
    assert_eq!(layer.read_delta(loc(2), 5).added, 2);
}

#[test]
fn worker_tasks_drive_the_scheduler() {
    let vm = ScriptedVm::new();
    let base = MemoryState::new();
    let mut store = MultiVersionStore::new();
    let mut layer = DeltaLayer::new();
    let mut s = Scheduler::new(2);
    let writer = Transaction::Script { steps: vec![Instruction::Write(loc(1), vec![1])], gas: 1 };
    let reader = Transaction::Script { steps: vec![Instruction::Read(loc(1))], gas: 1 };
    assert_eq!(s.next_task(), Task::Execute(0, 0));
    assert_eq!(s.next_task(), Task::Execute(1, 0));
    // Both run on the empty store: the reader sees storage.
    let first = execute_incarnation(&vm, &writer, &store, &layer, &base, 0, 0, 64);
    let second = execute_incarnation(&vm, &reader, &store, &layer, &base, 1, 0, 64);
    assert_eq!(end_execution_task(&mut store, &mut layer, &mut s, 1, 0, &None, &second), Task::Validate(1, 0));
    let second = Some(record_of(second));
    assert!(!validation_task(&mut store, &layer, &mut s, 1, 0, &second));
    assert_eq!(end_execution_task(&mut store, &mut layer, &mut s, 0, 0, &None, &first), Task::NoTask);
    let first = Some(record_of(first));
    assert_eq!(s.next_task(), Task::Validate(0, 0));
    assert!(!validation_task(&mut store, &layer, &mut s, 0, 0, &first));
    // The write of transaction 0 makes the read of transaction 1 stale.
    assert_eq!(s.next_task(), Task::Validate(1, 0));
    assert!(validation_task(&mut store, &layer, &mut s, 1, 0, &second));
    assert_eq!(s.status(1), Status::ReadyToExecute(1));
    // A record of another incarnation is no valid record.
    assert_eq!(s.next_task(), Task::Execute(1, 1));
    let again = execute_incarnation(&vm, &reader, &store, &layer, &base, 1, 1, 64);
    assert_eq!(end_execution_task(&mut store, &mut layer, &mut s, 1, 1, &second, &again), Task::NoTask);
    let again = Some(record_of(again));
    assert_eq!(s.next_task(), Task::Validate(1, 1));
    assert!(!validation_task(&mut store, &layer, &mut s, 1, 1, &again));
    assert_eq!(s.next_task(), Task::Done);
    // A blocked run suspends its transaction.
    let mut s = Scheduler::new(1);
    assert_eq!(s.next_task(), Task::Execute(0, 0));
    let blocked = Execution::Blocked { loc: loc(1), on: 0 };
    assert_eq!(end_execution_task(&mut store, &mut layer, &mut s, 0, 0, &None, &blocked), Task::NoTask);
    assert_eq!(s.status(0), Status::ReadyToExecute(0));
    assert_eq!(s.in_flight(), 0);
}

#[test]
fn versioned_view_buffers_and_records() {
    let mut store = MultiVersionStore::new();
    let layer = DeltaLayer::new();
    let mut base = MemoryState::new();
    base.insert(loc(1), vec![10]);
    store.write(loc(2), 0, 0, Some(vec![20]));
    store.write(loc(3), 1, 0, Some(vec![30]));
    store.mark_estimate(loc(3), 1);
    let mut view = VersionedView::new(&store, &layer, &base, 2);
    assert_eq!(view.read(loc(1)), Ok(()));
    assert_eq!(view.read(loc(2)), Ok(()));
    assert_eq!(view.read(loc(3)), Err(1));
    assert_eq!(view.run.responses, vec![Some(vec![10]), Some(vec![20])]);
    assert_eq!(view.run.reads.len(), 2);
    // The own write answers the next read, and leaves no trace in the read set.
    view.write(loc(3), Some(vec![33]));
    assert_eq!(view.read(loc(3)), Ok(()));
    view.write(loc(3), None);
    assert_eq!(view.read(loc(3)), Ok(()));
    view.delta(loc(4), DeltaOp::minus(1, 0, 5));
    view.emit(vec![7]);
    assert_eq!(
        view.run.responses,
        vec![Some(vec![10]), Some(vec![20]), None, Some(vec![33]), None, None, None, None]
    );
    assert_eq!(view.run.reads.len(), 2);
    assert_eq!(view.run.writes.len(), 1);
    assert_eq!(view.run.writes[0].value, None);
    assert_eq!(view.run.deltas, vec![(loc(4), DeltaOp::minus(1, 0, 5))]);
    assert_eq!(view.run.events, vec![vec![7]]);
}

#[test]
fn scheduler_parks_and_wakes_dependents() {
    let mut s = Scheduler::new(4);
    for i in 0..4 {
        assert_eq!(s.next_task(), Task::Execute(i, 0));
    }
    // Transactions 2 and 3 met the unfinished work of transaction 1.
    s.suspend(3, 0, 1);
    s.suspend(2, 0, 1);
    assert_eq!(s.status(2), Status::ReadyToExecute(0));
    // A parked transaction is granted no execution.
    assert_eq!(s.next_task(), Task::NoTask);
    assert_eq!(s.finish_execution(0, 0, true), Task::NoTask);
    assert_eq!(s.next_task(), Task::Validate(0, 0));
    assert!(!s.finish_validation(0, 0, true));
    assert_eq!(s.next_task(), Task::NoTask);
    // The end of transaction 1 wakes both, the lower one first.
    assert_eq!(s.finish_execution(1, 0, true), Task::NoTask);
    assert_eq!(s.next_task(), Task::Validate(1, 0));
    assert_eq!(s.next_task(), Task::Execute(2, 0));
    assert_eq!(s.next_task(), Task::Execute(3, 0));
    // A dependency on a committed or a higher transaction parks nothing.
    s.suspend(3, 0, 3);
    assert_eq!(s.next_task(), Task::Execute(3, 0));
}

#[test]
fn scheduler_commit_wakes_dependents() {
    let mut s = Scheduler::new(3);
    for i in 0..3 {
        assert_eq!(s.next_task(), Task::Execute(i, 0));
    }
    assert_eq!(s.finish_execution(0, 0, true), Task::NoTask);
    // Transaction 2 waits for the counter that transaction 0 is to resolve.
    s.suspend(2, 0, 0);
    assert_eq!(s.next_task(), Task::Validate(0, 0));
    assert!(!s.finish_validation(0, 0, true));
    assert_eq!(s.next_task(), Task::NoTask);
    assert_eq!(s.next_task(), Task::NoTask);
    s.advance_commit(0);
    assert_eq!(s.next_task(), Task::Execute(2, 0));
    // Once transaction 0 is committed, nothing waits for it.
    s.suspend(2, 0, 0);
    assert_eq!(s.next_task(), Task::Execute(2, 0));
}
