use crate::delta::DeltaOp;
use crate::delta_layer::LayerView;
use crate::mvds::StoreView;
use crate::scheduler::{
    abort_succeeds, spec_finish_abort, spec_finish_execution, spec_finish_validation,
    spec_next_task, spec_suspend, SchedulerView, Status, Task,
};
use crate::sequential::{overlay_source, SerialState};
use crate::types::{Incarnation, Location, TxnIndex};
use crate::view::{
    read_set_valid, reads_view, spec_execute, spec_observation, Execution, ExecutionView,
    Observation, TxnRecord,
};
use crate::vm::{empty_run, source_agrees, RunEnd, RunView, Source, VmAdapter};
use crate::worker::{
    prior_deltas, prior_writes, record_valid, retire, touches_new, with_deltas, with_estimates,
    with_writes,
};
use vstd::prelude::*;

verus! {

/// The record of an incarnation as a mathematical value.
#[verifier::ext_equal]
pub struct RecordView {
    pub incarnation: Incarnation,
    pub end: RunEnd,
    pub run: RunView,
    /// For every entry of the read set, where its value came from.
    pub observations: Seq<Observation>,
}

/// The mathematical value of a record.
pub open spec fn record_view(rec: TxnRecord) -> RecordView {
    RecordView {
        incarnation: rec.incarnation,
        end: rec.end,
        run: rec.run@,
        observations: Seq::new(rec.run.reads@.len(), |k: int| rec.run.reads@[k].observation),
    }
}

/// The mathematical value of a record that may be missing.
pub open spec fn opt_record_view(rec: Option<TxnRecord>) -> Option<RecordView> {
    match rec {
        Some(r) => Some(record_view(r)),
        None => None,
    }
}

/// The mathematical values of the records of a block.
pub open spec fn records_view(records: Seq<Option<TxnRecord>>) -> Seq<Option<RecordView>> {
    Seq::new(records.len(), |i: int| opt_record_view(records[i]))
}

/// The write set of a record; empty where there is none.
pub open spec fn written(rec: Option<RecordView>) -> Seq<(Location, Option<Seq<u8>>)> {
    match rec {
        Some(r) => r.run.writes,
        None => Seq::empty(),
    }
}

/// The delta set of a record; empty where there is none.
pub open spec fn staged(rec: Option<RecordView>) -> Seq<(Location, DeltaOp)> {
    match rec {
        Some(r) => r.run.deltas,
        None => Seq::empty(),
    }
}

/// Whether every read of the record observes now what it observed when the
/// incarnation ran.
pub open spec fn observations_hold(
    store: StoreView,
    layer: LayerView,
    rec: RecordView,
    txi: nat,
) -> bool {
    forall|k: int|
        0 <= k < rec.run.reads.len() ==> spec_observation(
            store,
            layer,
            (#[trigger] rec.run.reads[k]).0,
            txi,
        ) == Some(rec.observations[k])
}

/// Whether a record is that of incarnation `inc` and its reads observe now
/// what they observed then.
pub open spec fn still_valid(
    store: StoreView,
    layer: LayerView,
    rec: Option<RecordView>,
    txi: nat,
    inc: Incarnation,
) -> bool {
    match rec {
        Some(r) => r.incarnation == inc && observations_hold(store, layer, r, txi),
        None => false,
    }
}

/// The validity of a read set is a matter of the record's value alone.
pub proof fn lemma_observations(store: StoreView, layer: LayerView, rec: TxnRecord, txi: nat)
    ensures
        read_set_valid(store, layer, rec.run.reads@, txi) == observations_hold(
            store,
            layer,
            record_view(rec),
            txi,
        ),
{
    let reads = rec.run.reads@;
    let v = record_view(rec);
    assert(v.run.reads.len() == reads.len());
    if read_set_valid(store, layer, reads, txi) {
        assert forall|k: int| 0 <= k < v.run.reads.len() implies spec_observation(
            store,
            layer,
            (#[trigger] v.run.reads[k]).0,
            txi,
        ) == Some(v.observations[k]) by {
            assert(v.run.reads[k].0 == reads[k].loc);
        }
    }
    if observations_hold(store, layer, v, txi) {
        assert forall|k: int| 0 <= k < reads.len() implies spec_observation(
            store,
            layer,
            (#[trigger] reads[k]).loc,
            txi,
        ) == Some(reads[k].observation) by {
            assert(v.run.reads[k].0 == reads[k].loc);
            assert(v.observations[k] == reads[k].observation);
        }
    }
}

/// The validity of a record is a matter of its value alone.
pub proof fn lemma_record_valid(
    store: StoreView,
    layer: LayerView,
    rec: Option<TxnRecord>,
    txi: nat,
    inc: Incarnation,
)
    ensures
        record_valid(store, layer, rec, txi, inc) == still_valid(
            store,
            layer,
            opt_record_view(rec),
            txi,
            inc,
        ),
        prior_writes(rec) == written(opt_record_view(rec)),
        prior_deltas(rec) == staged(opt_record_view(rec)),
{
    match rec {
        Some(r) => {
            lemma_observations(store, layer, r, txi);
        },
        None => {},
    }
}

/// How an attempt to execute an incarnation ended, with the record that a
/// completed run leaves.
pub enum AttemptView {
    Done(RecordView),
    Blocked { on: TxnIndex },
}

/// The mathematical value of an attempt.
pub open spec fn attempt_view(result: Execution) -> AttemptView {
    match result {
        Execution::Done(rec) => AttemptView::Done(record_view(rec)),
        Execution::Blocked { loc, on } => AttemptView::Blocked { on },
    }
}

/// The mathematical value of an attempt that may not have been made.
pub open spec fn opt_attempt_view(result: Option<Execution>) -> Option<AttemptView> {
    match result {
        Some(r) => Some(attempt_view(r)),
        None => None,
    }
}

/// The mathematical values of the attempts of a round.
pub open spec fn attempts_view(results: Seq<Option<Execution>>) -> Seq<Option<AttemptView>> {
    Seq::new(results.len(), |j: int| opt_attempt_view(results[j]))
}

/// The attempt to execute incarnation `inc` of the transaction at `txi` on
/// the store and the layer as they stand: the record of the run, every read
/// with the observation it makes there, or the dependency that the run met.
pub open spec fn spec_attempt<V: VmAdapter>(
    vm: &V,
    txn: &V::Txn,
    store: StoreView,
    layer: LayerView,
    base: Source,
    txi: nat,
    inc: Incarnation,
    fuel: nat,
) -> AttemptView {
    match spec_execute(vm, txn, store, layer, base, txi, empty_run(), fuel) {
        ExecutionView::Done(outcome) => AttemptView::Done(
            RecordView {
                incarnation: inc,
                end: outcome.end,
                run: outcome.run,
                observations: Seq::new(
                    outcome.run.reads.len(),
                    |k: int| spec_observation(store, layer, outcome.run.reads[k].0, txi).unwrap(),
                ),
            },
        ),
        ExecutionView::Blocked { loc, on } => AttemptView::Blocked { on },
    }
}

/// An execution whose record is of incarnation `inc` and has a read set
/// that is valid on the store it ran on, is the attempt on that store.
pub proof fn lemma_attempt<V: VmAdapter>(
    vm: &V,
    txn: &V::Txn,
    store: StoreView,
    layer: LayerView,
    base: Source,
    txi: nat,
    inc: Incarnation,
    fuel: nat,
    result: Execution,
)
    requires
        result@ == spec_execute(vm, txn, store, layer, base, txi, empty_run(), fuel),
        match result {
            Execution::Done(rec) => rec.incarnation == inc && read_set_valid(
                store,
                layer,
                rec.run.reads@,
                txi,
            ),
            Execution::Blocked { .. } => true,
        },
    ensures
        attempt_view(result) == spec_attempt(vm, txn, store, layer, base, txi, inc, fuel),
{
    match result {
        Execution::Done(rec) => {
            let v = record_view(rec);
            let reads = rec.run.reads@;
            let expected = Seq::new(
                v.run.reads.len(),
                |k: int| spec_observation(store, layer, v.run.reads[k].0, txi).unwrap(),
            );
            assert(v.run.reads == reads_view(reads));
            assert(v.observations =~= expected) by {
                assert forall|k: int| 0 <= k < reads.len() implies v.observations[k]
                    == expected[k] by {
                    assert(v.run.reads[k].0 == reads[k].loc);
                    assert(spec_observation(store, layer, reads[k].loc, txi) == Some(
                        reads[k].observation,
                    ));
                }
            }
        },
        Execution::Blocked { .. } => {},
    }
}

/// The state of one block execution as a mathematical value.
#[verifier::ext_equal]
pub struct EngineView {
    pub store: StoreView,
    pub layer: LayerView,
    pub scheduler: SchedulerView,
    /// For every transaction the record of its latest completed incarnation.
    pub records: Seq<Option<RecordView>>,
    pub commit: SerialState,
}

/// The engine after a validation task of incarnation `inc` of `txi`. A
/// task for a transaction outside the block, or while no task is in flight,
/// changes nothing. Otherwise the scheduler learns whether the record is
/// still valid; where it is not and the abort succeeds, the write set of the
/// record is flagged as estimates and the transaction is made ready for its
/// next incarnation.
pub open spec fn spec_validate(e: EngineView, txi: nat, inc: Incarnation) -> EngineView {
    if txi >= e.scheduler.statuses.len() || e.scheduler.in_flight == 0 {
        e
    } else {
        let record = e.records[txi as int];
        let valid = still_valid(e.store, e.layer, record, txi, inc);
        if !valid && abort_succeeds(e.scheduler, txi, inc) {
            EngineView {
                store: with_estimates(e.store, txi, written(record)),
                scheduler: spec_finish_abort(
                    spec_finish_validation(e.scheduler, txi, inc, valid),
                    txi,
                    inc,
                ),
                ..e
            }
        } else {
            EngineView { scheduler: spec_finish_validation(e.scheduler, txi, inc, valid), ..e }
        }
    }
}

/// The engine after the record `rec` of incarnation `inc` of `txi` is
/// published, with the task that the scheduler hands back: the record takes
/// the place of the record before it, in the records as in the store and the
/// layer, and the scheduler learns whether it wrote anything new.
pub open spec fn spec_publish(
    e: EngineView,
    txi: nat,
    inc: Incarnation,
    rec: RecordView,
) -> (EngineView, Task) {
    let prev = e.records[txi as int];
    let wrote_new = touches_new(written(prev), rec.run.writes) || touches_new(
        staged(prev),
        rec.run.deltas,
    );
    let next = spec_finish_execution(e.scheduler, txi, inc, wrote_new);
    (
        EngineView {
            store: with_writes(
                retire(e.store, txi, written(prev), rec.run.writes),
                txi,
                rec.incarnation,
                rec.run.writes,
            ),
            layer: with_deltas(
                retire(e.layer, txi, staged(prev), rec.run.deltas),
                txi,
                rec.incarnation,
                rec.run.deltas,
            ),
            scheduler: next.0,
            records: e.records.update(txi as int, Some(rec)),
            commit: e.commit,
        },
        next.1,
    )
}

/// The engine after the execution task of incarnation `inc` of `txi` ended
/// with `result`. A task that the scheduler does not hold as executing changes
/// nothing. The record of a completed run is published, and where the
/// scheduler hands the validation of the incarnation back, that validation
/// follows at once. A run that met a dependency suspends the transaction on
/// it, and an attempt that was not made suspends the transaction on itself,
/// which makes it ready again.
pub open spec fn spec_end_execution(
    e: EngineView,
    txi: nat,
    inc: Incarnation,
    result: Option<AttemptView>,
) -> EngineView {
    if txi >= e.scheduler.statuses.len() || e.scheduler.in_flight == 0
        || e.scheduler.statuses[txi as int] != Status::Executing(inc) {
        e
    } else {
        match result {
            Some(AttemptView::Done(rec)) => {
                let published = spec_publish(e, txi, inc, rec);
                match published.1 {
                    Task::Validate(i, v) => spec_validate(published.0, i as nat, v),
                    _ => published.0,
                }
            },
            Some(AttemptView::Blocked { on }) => EngineView {
                scheduler: spec_suspend(e.scheduler, txi, inc, on as nat),
                ..e
            },
            None => EngineView { scheduler: spec_suspend(e.scheduler, txi, inc, txi), ..e },
        }
    }
}

/// The tasks that `workers` workers are granted, one each and one after the
/// other, with the scheduler after the last grant. The granting ends with the
/// first worker that gets no task.
pub open spec fn grant(s: SchedulerView, workers: nat) -> (SchedulerView, Seq<Task>)
    decreases workers,
{
    if workers == 0 {
        (s, Seq::empty())
    } else {
        let next = spec_next_task(s);
        match next.1 {
            Task::Execute(_, _) | Task::Validate(_, _) => {
                let rest = grant(next.0, (workers - 1) as nat);
                (rest.0, seq![next.1] + rest.1)
            },
            _ => (next.0, Seq::empty()),
        }
    }
}

/// What a worker gets from its task before it ends it: from an execution
/// task the attempt on the store and the layer as they stand, and nothing from
/// any other task.
pub open spec fn spec_result<V: VmAdapter>(
    vm: &V,
    txns: Seq<V::Txn>,
    store: StoreView,
    layer: LayerView,
    base: Source,
    fuel: nat,
    task: Task,
) -> Option<AttemptView> {
    match task {
        Task::Execute(i, inc) => if i < txns.len() {
            Some(spec_attempt(vm, &txns[i as int], store, layer, base, i as nat, inc, fuel))
        } else {
            None
        },
        _ => None,
    }
}

/// The engine after the workers have ended their tasks, the last worker
/// first: an execution task ends with its result, a validation task is
/// performed.
pub open spec fn end_tasks(
    e: EngineView,
    tasks: Seq<Task>,
    results: Seq<Option<AttemptView>>,
) -> EngineView
    decreases results.len(),
{
    if results.len() == 0 {
        e
    } else {
        let k = results.len() - 1;
        let ended = match tasks[k] {
            Task::Execute(i, inc) => spec_end_execution(e, i as nat, inc, results[k]),
            Task::Validate(i, inc) => spec_validate(e, i as nat, inc),
            _ => e,
        };
        end_tasks(ended, tasks, results.drop_last())
    }
}

/// The engine after one round of speculation with `workers` workers: the
/// tasks are granted, every granted execution runs on the store and the layer
/// as the round found them, and then the tasks are ended.
pub open spec fn spec_speculate<V: VmAdapter>(
    vm: &V,
    txns: Seq<V::Txn>,
    base: Source,
    fuel: nat,
    workers: nat,
    e: EngineView,
) -> EngineView {
    let granted = grant(e.scheduler, workers);
    let tasks = granted.1;
    let results = Seq::new(
        tasks.len(),
        |j: int| spec_result(vm, txns, e.store, e.layer, base, fuel, tasks[j]),
    );
    end_tasks(EngineView { scheduler: granted.0, ..e }, tasks, results)
}

/// Whether the transaction at the commit index can be committed without
/// being executed first: the rest of the block is skipped, or the transaction
/// is executed, its record is that of the executed incarnation, every read of
/// the record observes what it observed then, and every value read is the
/// committed value of its location.
pub open spec fn spec_front_is_ready(e: EngineView, base: Source) -> bool {
    let i = e.scheduler.commit_idx as int;
    i < e.records.len() && (e.commit.stopped || match e.records[i] {
        Some(rec) => e.scheduler.statuses[i] == Status::Executed(rec.incarnation)
            && observations_hold(e.store, e.layer, rec, i as nat) && source_agrees(
            overlay_source(e.commit.overlay, base),
            rec.run.reads,
            0,
        ),
        None => false,
    })
}

} // verus!
