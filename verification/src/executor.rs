use crate::commit::CommitState;
use crate::delta::DeltaOp;
use crate::delta_layer::{DeltaLayer, LayerView};
use crate::frames::{
    lemma_apply_writes, lemma_pending, lemma_retire, lemma_route_depends_on_lower,
    lemma_route_lands, lemma_route_passes, lemma_with_counters, lemma_with_deltas,
    lemma_with_estimates, lemma_with_writes, lemma_without_deltas, same_below,
};
use crate::mvds::{EntryView, MultiVersionStore, StoreView};
use crate::output::{outputs_view, ExecutionError, ExecutorConfig, TransactionOutput};
use crate::round::{
    attempts_view, end_tasks, grant, lemma_attempt, lemma_observations, lemma_record_valid,
    opt_attempt_view, record_view, records_view, spec_end_execution, spec_front_is_ready,
    spec_publish, spec_result, spec_speculate, spec_validate, EngineView,
};
use crate::scheduler::{spec_next_task, HaltReason, Scheduler, Status, Task};
use crate::sequential::{
    apply_writes, lemma_resolve_len, overlay_source, pending_after, resolve_deltas,
    serial_prefix, serial_step, spec_execute_block, Overlay,
};
use crate::types::{Incarnation, Location, TxnIndex};
use crate::view::{
    base_source, execute_incarnation, lemma_execute_is_run, route, view_source, writes_view,
    Execution, Run, TxnRecord, WriteEntry,
};
use crate::vm::{
    empty_run, find_write, lemma_run_agreement, run, RunEnd, Source, StateView, VmAdapter,
};
use crate::worker::{
    apply_delta_set, apply_write_set, end_execution_task, final_validation, prior_deltas,
    prior_writes, retire, settle_counters, touches, validation_task, with_counters, with_deltas,
    with_writes, without_deltas,
};
use vstd::prelude::*;

verus! {

/// Whether a record is the run of the machine on `txn` over some source.
pub open spec fn certified<V: VmAdapter>(vm: &V, txn: &V::Txn, rec: TxnRecord, fuel: nat) -> bool {
    exists|src: Source| rec.outcome() == #[trigger] run(vm, txn, src, fuel)
}

/// Whether the store and the delta layer are frozen below `k`: the
/// transaction at `k` meets no dependency, and reads at every location the
/// committed value.
pub open spec fn frozen(
    store: StoreView,
    layer: LayerView,
    overlay: Overlay,
    base: Source,
    k: nat,
) -> bool {
    forall|loc: Location|
        {
            &&& !(#[trigger] route(store, layer, loc, k) is Dependency)
            &&& view_source(store, layer, base, k)(loc) == overlay_source(overlay, base)(loc)
        }
}

/// Whether every entry of a transaction at or above `k` belongs to the
/// record of that transaction: an entry of the store to its write set, and an
/// entry of the delta layer to its delta set.
pub open spec fn owned(
    store: StoreView,
    layer: LayerView,
    records: Seq<Option<TxnRecord>>,
    k: nat,
) -> bool {
    &&& forall|key: (Location, nat)|
        #[trigger] store.contains_key(key) && key.1 >= k ==> key.1 < records.len() && touches(
            prior_writes(records[key.1 as int]),
            key.0,
        )
    &&& forall|key: (Location, nat)|
        #[trigger] layer.contains_key(key) && key.1 >= k ==> key.1 < records.len() && touches(
            prior_deltas(records[key.1 as int]),
            key.0,
        )
}

/// Once serial execution has met an error, it stays where it is.
pub proof fn lemma_error_is_final<V: VmAdapter>(
    vm: &V,
    txns: Seq<V::Txn>,
    base: Source,
    cfg: ExecutorConfig,
    n: nat,
    m: nat,
)
    requires
        n <= m <= txns.len(),
        serial_prefix(vm, txns, base, cfg, n).error.is_some(),
    ensures
        serial_prefix(vm, txns, base, cfg, m) == serial_prefix(vm, txns, base, cfg, n),
    decreases m - n,
{
    if n < m {
        lemma_error_is_final(vm, txns, base, cfg, n, (m - 1) as nat);
    }
}

/// A transaction that leaves nothing behind passes the frozen state on.
proof fn lemma_frozen_passes(
    store0: StoreView,
    layer0: LayerView,
    store2: StoreView,
    layer2: LayerView,
    overlay: Overlay,
    base: Source,
    k: nat,
)
    requires
        frozen(store0, layer0, overlay, base, k),
        same_below(store2, store0, k),
        same_below(layer2, layer0, k),
        forall|loc: Location| !(#[trigger] store2.contains_key((loc, k))),
        forall|loc: Location| !(#[trigger] layer2.contains_key((loc, k))),
    ensures
        frozen(store2, layer2, overlay, base, k + 1),
{
    assert forall|loc: Location|
        {
            &&& !(#[trigger] route(store2, layer2, loc, k + 1) is Dependency)
            &&& view_source(store2, layer2, base, k + 1)(loc) == overlay_source(overlay, base)(loc)
        } by {
        assert(!store2.contains_key((loc, k)));
        assert(!layer2.contains_key((loc, k)));
        lemma_route_passes(store2, layer2, loc, k);
        lemma_route_depends_on_lower(store2, layer2, store0, layer0, loc, k);
        assert(!(route(store0, layer0, loc, k) is Dependency));
    }
}

/// Whether `store1` is `store0` with the write set `w` of incarnation `inc`
/// published at `k`, where `store0` held at `k` nothing but an older write set
/// of the transaction.
spec fn published_writes(
    store0: StoreView,
    store1: StoreView,
    k: nat,
    inc: Incarnation,
    w: Seq<(Location, Option<Seq<u8>>)>,
) -> bool {
    forall|key: (Location, nat)|
        {
            &&& #[trigger] store1.contains_key(key) == (store0.contains_key(key) && key.1 != k || (
            key.1 == k && touches(w, key.0)))
            &&& key.1 != k && store0.contains_key(key) ==> store1[key] == store0[key]
            &&& key.1 == k && touches(w, key.0) ==> find_write(w, key.0).is_some() && store1[key]
                == (EntryView {
                value: w[find_write(w, key.0).unwrap()].1,
                incarnation: inc,
                estimate: false,
            })
        }
}

/// Whether `layer1` is `layer0` with the delta set `d` published at `k`.
spec fn published_deltas(
    layer0: LayerView,
    layer1: LayerView,
    k: nat,
    d: Seq<(Location, DeltaOp)>,
) -> bool {
    forall|key: (Location, nat)|
        {
            &&& #[trigger] layer1.contains_key(key) == (layer0.contains_key(key) && key.1 != k || (
            key.1 == k && touches(d, key.0)))
            &&& key.1 != k && layer0.contains_key(key) ==> layer1[key] == layer0[key]
        }
}

/// The commit of a record that was published at `k` and whose counters are
/// settled leaves the store and the layer frozen below `k + 1`.
proof fn lemma_settled(
    store0: StoreView,
    layer0: LayerView,
    store1: StoreView,
    layer1: LayerView,
    overlay0: Overlay,
    base: Source,
    k: nat,
    inc: Incarnation,
    w: Seq<(Location, Option<Seq<u8>>)>,
    d: Seq<(Location, DeltaOp)>,
    vals: Seq<i128>,
    counters: Seq<Location>,
    src1: Source,
)
    requires
        k < usize::MAX,
        vals.len() == d.len(),
        frozen(store0, layer0, overlay0, base, k),
        published_writes(store0, store1, k, inc, w),
        published_deltas(layer0, layer1, k, d),
        forall|loc: Location| counters.contains(loc) == touches(d, loc),
        src1 == overlay_source(apply_writes(overlay0, pending_after(w, d, vals)), base),
    ensures
        frozen(
            with_counters(store1, k, inc, counters, src1),
            without_deltas(layer1, k, counters),
            apply_writes(overlay0, pending_after(w, d, vals)),
            base,
            k + 1,
        ),
{
    let store2 = with_counters(store1, k, inc, counters, src1);
    let layer2 = without_deltas(layer1, k, counters);
    assert forall|key: (Location, nat)|
        {
            &&& #[trigger] store2.contains_key(key) == (store1.contains_key(key) || (key.1 == k
                && touches(d, key.0)))
            &&& key.1 == k && touches(d, key.0) ==> store2[key] == (EntryView {
                value: src1(key.0),
                incarnation: inc,
                estimate: false,
            })
            &&& !(key.1 == k && touches(d, key.0)) && store1.contains_key(key) ==> store2[key]
                == store1[key]
        } by {
        lemma_with_counters(store1, k, inc, counters, src1, key);
    }
    assert forall|key: (Location, nat)|
        {
            &&& #[trigger] layer2.contains_key(key) == (layer1.contains_key(key) && !(key.1 == k
                && touches(d, key.0)))
            &&& layer2.contains_key(key) ==> layer2[key] == layer1[key]
        } by {
        lemma_without_deltas(layer1, k, counters, key);
    }
    assert(same_below(store2, store0, k)) by {
        assert forall|key: (Location, nat)| key.1 < k implies (#[trigger] store2.contains_key(key)
            == store0.contains_key(key) && (store2.contains_key(key) ==> store2[key]
            == store0[key])) by {
            assert(store1.contains_key(key) == store0.contains_key(key));
        }
    }
    assert(same_below(layer2, layer0, k)) by {
        assert forall|key: (Location, nat)| key.1 < k implies (#[trigger] layer2.contains_key(key)
            == layer0.contains_key(key) && (layer2.contains_key(key) ==> layer2[key]
            == layer0[key])) by {
            assert(layer1.contains_key(key) == layer0.contains_key(key));
        }
    }
    let pending = pending_after(w, d, vals);
    let overlay1 = apply_writes(overlay0, pending);
    assert forall|loc: Location|
        {
            &&& !(#[trigger] route(store2, layer2, loc, k + 1) is Dependency)
            &&& view_source(store2, layer2, base, k + 1)(loc) == overlay_source(overlay1, base)(
                loc,
            )
        } by {
        assert(layer1.contains_key((loc, k)) == touches(d, loc));
        assert(!layer2.contains_key((loc, k)));
        lemma_pending(w, d, vals, loc);
        lemma_apply_writes(overlay0, pending, loc);
        if touches(d, loc) {
            assert(store2.contains_key((loc, k)));
            assert(store2[(loc, k)].value == src1(loc));
            lemma_route_lands(store2, layer2, loc, k);
        } else if touches(w, loc) {
            assert(store1.contains_key((loc, k)));
            assert(store2.contains_key((loc, k)));
            assert(store2[(loc, k)] == store1[(loc, k)]);
            assert(store1[(loc, k)].value == w[find_write(w, loc).unwrap()].1);
            lemma_route_lands(store2, layer2, loc, k);
        } else {
            assert(!store1.contains_key((loc, k)));
            assert(!store2.contains_key((loc, k)));
            lemma_route_passes(store2, layer2, loc, k);
            lemma_route_depends_on_lower(store2, layer2, store0, layer0, loc, k);
            assert(!(route(store0, layer0, loc, k) is Dependency));
        }
    }
}

/// The locations of a delta set.
fn delta_locations(deltas: &Vec<(Location, DeltaOp)>) -> (locs: Vec<Location>)
    ensures
        locs@.len() == deltas@.len(),
        forall|k: int| 0 <= k < locs@.len() ==> locs@[k] == (#[trigger] deltas@[k]).0,
        forall|loc: Location| locs@.contains(loc) == touches(deltas@, loc),
{
    let mut locs: Vec<Location> = Vec::new();
    let mut k: usize = 0;
    while k < deltas.len()
        invariant
            0 <= k <= deltas.len(),
            locs@.len() == k,
            forall|j: int| 0 <= j < k ==> locs@[j] == (#[trigger] deltas@[j]).0,
        decreases deltas.len() - k,
    {
        locs.push(deltas[k].0);
        k += 1;
    }
    assert forall|loc: Location| locs@.contains(loc) == touches(deltas@, loc) by {
        if locs@.contains(loc) {
            let j = choose|j: int| 0 <= j < locs@.len() && locs@[j] == loc;
            assert(deltas@[j].0 == loc);
        }
        if touches(deltas@, loc) {
            let j = choose|j: int| 0 <= j < deltas@.len() && (#[trigger] deltas@[j]).0 == loc;
            assert(locs@[j] == loc);
        }
    }
    locs
}

/// Publishes the write set and the delta set of `rec` at `txi`, in place of
/// those of the record before it.
fn publish(
    store: &mut MultiVersionStore,
    layer: &mut DeltaLayer,
    txi: TxnIndex,
    prev: &Option<TxnRecord>,
    rec: &TxnRecord,
)
    requires
        old(store).wf(),
        old(layer).wf(),
    ensures
        final(store).wf(),
        final(layer).wf(),
        final(store)@ == with_writes(
            retire(old(store)@, txi as nat, prior_writes(*prev), writes_view(rec.run.writes@)),
            txi as nat,
            rec.incarnation,
            writes_view(rec.run.writes@),
        ),
        final(layer)@ == with_deltas(
            retire(old(layer)@, txi as nat, prior_deltas(*prev), rec.run.deltas@),
            txi as nat,
            rec.incarnation,
            rec.run.deltas@,
        ),
{
    match prev {
        Some(p) => {
            let _ = apply_write_set(store, txi, rec.incarnation, &p.run.writes, &rec.run.writes);
            let _ = apply_delta_set(layer, txi, rec.incarnation, &p.run.deltas, &rec.run.deltas);
        },
        None => {
            let none: Vec<WriteEntry> = Vec::new();
            let no_deltas: Vec<(Location, DeltaOp)> = Vec::new();
            assert(writes_view(none@) =~= prior_writes(*prev));
            assert(no_deltas@ =~= prior_deltas(*prev));
            let _ = apply_write_set(store, txi, rec.incarnation, &none, &rec.run.writes);
            let _ = apply_delta_set(layer, txi, rec.incarnation, &no_deltas, &rec.run.deltas);
        },
    }
}

/// Takes the write set and the delta set of a record of `txi` out of the
/// store and the delta layer.
fn retire_record(
    store: &mut MultiVersionStore,
    layer: &mut DeltaLayer,
    txi: TxnIndex,
    rec: &Option<TxnRecord>,
)
    requires
        old(store).wf(),
        old(layer).wf(),
    ensures
        final(store).wf(),
        final(layer).wf(),
        final(store)@ == retire(
            old(store)@,
            txi as nat,
            prior_writes(*rec),
            Seq::<(Location, Option<Seq<u8>>)>::empty(),
        ),
        final(layer)@ == retire(
            old(layer)@,
            txi as nat,
            prior_deltas(*rec),
            Seq::<(Location, DeltaOp)>::empty(),
        ),
{
    match rec {
        Some(r) => {
            let none: Vec<WriteEntry> = Vec::new();
            let no_deltas: Vec<(Location, DeltaOp)> = Vec::new();
            assert(writes_view(none@) =~= Seq::<(Location, Option<Seq<u8>>)>::empty());
            assert(no_deltas@ =~= Seq::<(Location, DeltaOp)>::empty());
            let _ = apply_write_set(store, txi, r.incarnation, &r.run.writes, &none);
            let _ = apply_delta_set(layer, txi, r.incarnation, &r.run.deltas, &no_deltas);
        },
        None => {},
    }
}

/// The state of one block execution: the multi-version store, the delta
/// layer, the scheduler, the records of the latest incarnations, and the
/// commit pipeline.
struct Engine {
    store: MultiVersionStore,
    layer: DeltaLayer,
    scheduler: Scheduler,
    records: Vec<Option<TxnRecord>>,
    commit: CommitState,
}

impl Engine {
    /// The engine as a mathematical value.
    spec fn view(&self) -> EngineView {
        EngineView {
            store: self.store@,
            layer: self.layer@,
            scheduler: self.scheduler@,
            records: records_view(self.records@),
            commit: self.commit@,
        }
    }

    /// What holds of the engine whatever its records are: the parts are
    /// valid, the commit pipeline stands where serial execution of the
    /// committed prefix stands, and the store and the delta layer are frozen
    /// below the commit index.
    spec fn steady<V: VmAdapter, S: StateView>(
        &self,
        vm: &V,
        txns: Seq<V::Txn>,
        base: &S,
        cfg: ExecutorConfig,
    ) -> bool {
        &&& self.store.wf()
        &&& self.layer.wf()
        &&& self.scheduler@.wf()
        &&& self.commit.wf()
        &&& self.records@.len() == txns.len()
        &&& self.scheduler@.statuses.len() == txns.len()
        &&& self.commit@ == serial_prefix(
            vm,
            txns,
            base_source(base),
            cfg,
            self.scheduler@.commit_idx,
        )
        &&& frozen(
            self.store@,
            self.layer@,
            self.commit@.overlay,
            base_source(base),
            self.scheduler@.commit_idx,
        )
    }

    /// Whether every record is the run of the machine on its transaction
    /// over some source.
    spec fn all_certified<V: VmAdapter>(&self, vm: &V, txns: Seq<V::Txn>, fuel: nat) -> bool {
        forall|i: int|
            0 <= i < txns.len() && (#[trigger] self.records@[i]).is_some() ==> certified(
                vm,
                &txns[i],
                self.records@[i].unwrap(),
                fuel,
            )
    }

    /// The engine's invariant.
    spec fn inv<V: VmAdapter, S: StateView>(
        &self,
        vm: &V,
        txns: Seq<V::Txn>,
        base: &S,
        cfg: ExecutorConfig,
    ) -> bool {
        &&& self.steady(vm, txns, base, cfg)
        &&& self.all_certified(vm, txns, cfg.max_steps as nat)
        &&& owned(self.store@, self.layer@, self.records@, self.scheduler@.commit_idx)
    }

    /// The engine of a block before its first round.
    fn new<V: VmAdapter, S: StateView>(
        vm: &V,
        txns: &Vec<V::Txn>,
        base: &S,
        cfg: &ExecutorConfig,
    ) -> (e: Self)
        ensures
            e.inv(vm, txns@, base, *cfg),
            e.scheduler@.commit_idx == 0,
    {
        let n = txns.len();
        let mut records: Vec<Option<TxnRecord>> = Vec::new();
        let mut i: usize = 0;
        while i < n
            invariant
                i <= n,
                records@.len() == i,
                forall|k: int| 0 <= k < i ==> (#[trigger] records@[k]).is_none(),
            decreases n - i,
        {
            records.push(None);
            i += 1;
        }
        let e = Engine {
            store: MultiVersionStore::new(),
            layer: DeltaLayer::new(),
            scheduler: Scheduler::new(n),
            records,
            commit: CommitState::new(),
        };
        assert(e.scheduler@.wf());
        e
    }

    /// Ends an execution task: publishes the record of a completed run and
    /// tells the scheduler, or suspends the transaction where the run met a
    /// dependency. A task that the scheduler no longer knows is dropped.
    fn end_execution<V: VmAdapter, S: StateView>(
        &mut self,
        vm: &V,
        txns: &Vec<V::Txn>,
        base: &S,
        cfg: &ExecutorConfig,
        txi: TxnIndex,
        inc: Incarnation,
        result: Option<Execution>,
    )
        requires
            old(self).inv(vm, txns@, base, *cfg),
            match result {
                Some(Execution::Done(rec)) => txi < txns@.len() && certified(
                    vm,
                    &txns@[txi as int],
                    rec,
                    cfg.max_steps as nat,
                ),
                _ => true,
            },
        ensures
            final(self).inv(vm, txns@, base, *cfg),
            final(self).scheduler@.commit_idx == old(self).scheduler@.commit_idx,
            final(self)@ == spec_end_execution(
                old(self)@,
                txi as nat,
                inc,
                opt_attempt_view(result),
            ),
    {
        if txi >= self.scheduler.len() || self.scheduler.in_flight() == 0 {
            return ;
        }
        if self.scheduler.status(txi) != Status::Executing(inc) {
            return ;
        }
        let ghost k = self.scheduler@.commit_idx;
        let ghost store0 = self.store@;
        let ghost layer0 = self.layer@;
        let ghost records0 = self.records@;
        let ghost attempt = opt_attempt_view(result);
        let ghost goal = spec_end_execution(old(self)@, txi as nat, inc, attempt);
        proof {
            lemma_record_valid(store0, layer0, records0[txi as int], txi as nat, inc);
        }
        assert(txi >= k) by {
            if txi < k {
                assert(self.scheduler@.statuses[txi as int] is Executed);
            }
        }
        match result {
            Some(execution) => {
                let previous = self.records[txi].take();
                let task = end_execution_task(
                    &mut self.store,
                    &mut self.layer,
                    &mut self.scheduler,
                    txi,
                    inc,
                    &previous,
                    &execution,
                );
                match execution {
                    Execution::Done(rec) => {
                        proof {
                            let w = writes_view(rec.run.writes@);
                            let d = rec.run.deltas@;
                            let pw = prior_writes(previous);
                            let pd = prior_deltas(previous);
                            let retired = retire(store0, txi as nat, pw, w);
                            let retired_layer = retire(layer0, txi as nat, pd, d);
                            assert forall|key: (Location, nat)|
                                {
                                    &&& #[trigger] self.store@.contains_key(key) == (
                                    store0.contains_key(key) && !(key.1 == txi && touches(
                                        pw,
                                        key.0,
                                    ) && !touches(w, key.0)) || (key.1 == txi && touches(
                                        w,
                                        key.0,
                                    )))
                                    &&& key.1 != txi && store0.contains_key(key)
                                        ==> self.store@[key] == store0[key]
                                } by {
                                lemma_retire(store0, txi as nat, pw, w, key);
                                lemma_with_writes(retired, txi as nat, rec.incarnation, w, key);
                            }
                            assert forall|key: (Location, nat)|
                                {
                                    &&& #[trigger] self.layer@.contains_key(key) == (
                                    layer0.contains_key(key) && !(key.1 == txi && touches(
                                        pd,
                                        key.0,
                                    ) && !touches(d, key.0)) || (key.1 == txi && touches(
                                        d,
                                        key.0,
                                    )))
                                    &&& key.1 != txi && layer0.contains_key(key)
                                        ==> self.layer@[key] == layer0[key]
                                } by {
                                lemma_retire(layer0, txi as nat, pd, d, key);
                                lemma_with_deltas(
                                    retired_layer,
                                    txi as nat,
                                    rec.incarnation,
                                    d,
                                    key,
                                );
                            }
                        }
                        let ghost rv = record_view(rec);
                        self.records[txi] = Some(rec);
                        proof {
                            assert(records_view(self.records@) =~= records_view(records0).update(
                                txi as int,
                                Some(rv),
                            ));
                            assert(self@ =~~= spec_publish(old(self)@, txi as nat, inc, rv).0);
                            assert(task == spec_publish(old(self)@, txi as nat, inc, rv).1);
                            assert(same_below(self.store@, store0, k));
                            assert(same_below(self.layer@, layer0, k));
                            assert forall|loc: Location|
                                {
                                    &&& !(#[trigger] route(self.store@, self.layer@, loc, k)
                                        is Dependency)
                                    &&& view_source(
                                        self.store@,
                                        self.layer@,
                                        base_source(base),
                                        k,
                                    )(loc) == overlay_source(
                                        self.commit@.overlay,
                                        base_source(base),
                                    )(loc)
                                } by {
                                lemma_route_depends_on_lower(
                                    self.store@,
                                    self.layer@,
                                    store0,
                                    layer0,
                                    loc,
                                    k,
                                );
                                assert(!(route(store0, layer0, loc, k) is Dependency));
                            }
                            assert forall|key: (Location, nat)|
                                #[trigger] self.store@.contains_key(key) && key.1
                                    >= k implies key.1 < self.records@.len() && touches(
                                prior_writes(self.records@[key.1 as int]),
                                key.0,
                            ) by {
                                if key.1 != txi {
                                    assert(store0.contains_key(key));
                                    assert(self.records@[key.1 as int] == records0[key.1 as int]);
                                } else if !touches(writes_view(rec.run.writes@), key.0) {
                                    assert(store0.contains_key(key));
                                    assert(touches(prior_writes(records0[txi as int]), key.0));
                                }
                            }
                            assert forall|key: (Location, nat)|
                                #[trigger] self.layer@.contains_key(key) && key.1
                                    >= k implies key.1 < self.records@.len() && touches(
                                prior_deltas(self.records@[key.1 as int]),
                                key.0,
                            ) by {
                                if key.1 != txi {
                                    assert(layer0.contains_key(key));
                                    assert(self.records@[key.1 as int] == records0[key.1 as int]);
                                } else if !touches(rec.run.deltas@, key.0) {
                                    assert(layer0.contains_key(key));
                                    assert(touches(prior_deltas(records0[txi as int]), key.0));
                                }
                            }
                            assert forall|i: int|
                                0 <= i < txns@.len() && (
                                #[trigger] self.records@[i]).is_some() implies certified(
                                vm,
                                &txns@[i],
                                self.records@[i].unwrap(),
                                cfg.max_steps as nat,
                            ) by {
                                if i != txi {
                                    assert(self.records@[i] == records0[i]);
                                }
                            }
                        }
                    },
                    Execution::Blocked { .. } => {
                        self.records[txi] = previous;
                        assert(self.records@ =~= records0);
                        assert(self@ =~~= goal);
                    },
                }
                match task {
                    Task::Validate(i, v) => {
                        self.validate(vm, txns, base, cfg, i, v);
                    },
                    _ => {},
                }
                assert(self@ == goal);
            },
            None => {
                self.scheduler.suspend(txi, inc, txi);
                assert(self@ =~~= goal);
            },
        }
    }

    /// Performs a validation task: validates the read set of the incarnation
    /// and, where it is invalid and the abort succeeds, flags the write set
    /// as estimates and makes the transaction ready again.
    fn validate<V: VmAdapter, S: StateView>(
        &mut self,
        vm: &V,
        txns: &Vec<V::Txn>,
        base: &S,
        cfg: &ExecutorConfig,
        txi: TxnIndex,
        inc: Incarnation,
    )
        requires
            old(self).inv(vm, txns@, base, *cfg),
        ensures
            final(self).inv(vm, txns@, base, *cfg),
            final(self).scheduler@.commit_idx == old(self).scheduler@.commit_idx,
            final(self)@ == spec_validate(old(self)@, txi as nat, inc),
    {
        if txi >= self.scheduler.len() || self.scheduler.in_flight() == 0 {
            return ;
        }
        let ghost k = self.scheduler@.commit_idx;
        let ghost store0 = self.store@;
        proof {
            lemma_record_valid(store0, self.layer@, self.records@[txi as int], txi as nat, inc);
        }
        let aborted = validation_task(
            &mut self.store,
            &self.layer,
            &mut self.scheduler,
            txi,
            inc,
            &self.records[txi],
        );
        proof {
            if aborted {
                let w = prior_writes(self.records@[txi as int]);
                assert(txi >= k);
                assert forall|key: (Location, nat)|
                    {
                        &&& #[trigger] self.store@.contains_key(key) == store0.contains_key(key)
                        &&& key.1 != txi && store0.contains_key(key) ==> self.store@[key]
                            == store0[key]
                    } by {
                    lemma_with_estimates(store0, txi as nat, w, key);
                }
                assert(same_below(self.store@, store0, k));
                assert(same_below(self.layer@, self.layer@, k));
                assert forall|loc: Location|
                    {
                        &&& !(#[trigger] route(self.store@, self.layer@, loc, k) is Dependency)
                        &&& view_source(self.store@, self.layer@, base_source(base), k)(loc)
                            == overlay_source(self.commit@.overlay, base_source(base))(loc)
                    } by {
                    lemma_route_depends_on_lower(
                        self.store@,
                        self.layer@,
                        store0,
                        self.layer@,
                        loc,
                        k,
                    );
                    assert(!(route(store0, self.layer@, loc, k) is Dependency));
                }
                assert forall|key: (Location, nat)|
                    #[trigger] self.store@.contains_key(key) && key.1 >= k implies key.1
                        < self.records@.len() && touches(
                    prior_writes(self.records@[key.1 as int]),
                    key.0,
                ) by {
                    assert(store0.contains_key(key));
                }
            }
            assert(self@ =~~= spec_validate(old(self)@, txi as nat, inc));
        }
    }

    /// One round of speculation: up to `concurrency` tasks are granted, the
    /// granted executions all run on the store as it stands, and then every
    /// task is ended.
    fn speculate<V: VmAdapter, S: StateView>(
        &mut self,
        vm: &V,
        txns: &Vec<V::Txn>,
        base: &S,
        cfg: &ExecutorConfig,
    )
        requires
            old(self).inv(vm, txns@, base, *cfg),
        ensures
            final(self).inv(vm, txns@, base, *cfg),
            final(self).scheduler@.commit_idx == old(self).scheduler@.commit_idx,
            final(self)@ == spec_speculate(
                vm,
                txns@,
                base_source(base),
                cfg.max_steps as nat,
                cfg.concurrency as nat,
                old(self)@,
            ),
    {
        let ghost fuel = cfg.max_steps as nat;
        let ghost bsrc = base_source(base);
        let ghost granted = grant(old(self).scheduler@, cfg.concurrency as nat);
        let ghost goal = spec_speculate(vm, txns@, bsrc, fuel, cfg.concurrency as nat, old(self)@);
        let mut tasks: Vec<Task> = Vec::new();
        let mut more = true;
        let mut w: usize = 0;
        assert(tasks@ + granted.1 =~= granted.1);
        while w < cfg.concurrency && more
            invariant
                self.inv(vm, txns@, base, *cfg),
                self.scheduler@.commit_idx == old(self).scheduler@.commit_idx,
                self.store@ == old(self).store@,
                self.layer@ == old(self).layer@,
                self.records@ == old(self).records@,
                self.commit@ == old(self).commit@,
                w <= cfg.concurrency,
                granted == grant(old(self).scheduler@, cfg.concurrency as nat),
                more ==> grant(self.scheduler@, (cfg.concurrency - w) as nat).0 == granted.0,
                more ==> tasks@ + grant(self.scheduler@, (cfg.concurrency - w) as nat).1
                    == granted.1,
                !more ==> self.scheduler@ == granted.0 && tasks@ == granted.1,
            decreases cfg.concurrency - w,
        {
            let ghost before = tasks@;
            let ghost rest = grant(
                spec_next_task(self.scheduler@).0,
                (cfg.concurrency - w - 1) as nat,
            );
            let task = self.scheduler.next_task();
            match task {
                Task::Execute(_, _) => {
                    tasks.push(task);
                    assert(tasks@ + rest.1 =~= before + (seq![task] + rest.1));
                },
                Task::Validate(_, _) => {
                    tasks.push(task);
                    assert(tasks@ + rest.1 =~= before + (seq![task] + rest.1));
                },
                _ => {
                    more = false;
                    assert(tasks@ =~= before + Seq::<Task>::empty());
                },
            }
            w += 1;
        }
        assert(tasks@ =~= granted.1);
        let ghost start = self@;
        let mut results: Vec<Option<Execution>> = Vec::new();
        let mut k: usize = 0;
        while k < tasks.len()
            invariant
                0 <= k <= tasks.len(),
                results@.len() == k,
                self.inv(vm, txns@, base, *cfg),
                self.scheduler@.commit_idx == old(self).scheduler@.commit_idx,
                self@ == start,
                fuel == cfg.max_steps as nat,
                bsrc == base_source(base),
                forall|j: int|
                    0 <= j < k ==> match #[trigger] results@[j] {
                        Some(Execution::Done(rec)) => match tasks@[j] {
                            Task::Execute(i, _) => i < txns@.len() && certified(
                                vm,
                                &txns@[i as int],
                                rec,
                                cfg.max_steps as nat,
                            ),
                            _ => false,
                        },
                        _ => true,
                    },
                forall|j: int|
                    0 <= j < k ==> opt_attempt_view(#[trigger] results@[j]) == spec_result(
                        vm,
                        txns@,
                        start.store,
                        start.layer,
                        bsrc,
                        fuel,
                        tasks@[j],
                    ),
            decreases tasks.len() - k,
        {
            let result = match tasks[k] {
                Task::Execute(i, inc) => {
                    if i < txns.len() {
                        let r = execute_incarnation(
                            vm,
                            &txns[i],
                            &self.store,
                            &self.layer,
                            base,
                            i,
                            inc,
                            cfg.max_steps,
                        );
                        proof {
                            lemma_attempt(
                                vm,
                                &txns@[i as int],
                                self.store@,
                                self.layer@,
                                bsrc,
                                i as nat,
                                inc,
                                fuel,
                                r,
                            );
                            if r is Done {
                                lemma_execute_is_run(
                                    vm,
                                    &txns@[i as int],
                                    self.store@,
                                    self.layer@,
                                    base_source(base),
                                    i as nat,
                                    empty_run(),
                                    cfg.max_steps as nat,
                                );
                                let src = view_source(
                                    self.store@,
                                    self.layer@,
                                    base_source(base),
                                    i as nat,
                                );
                                assert(r->Done_0.outcome() == run(
                                    vm,
                                    &txns@[i as int],
                                    src,
                                    cfg.max_steps as nat,
                                ));
                            }
                        }
                        Some(r)
                    } else {
                        None
                    }
                },
                _ => None,
            };
            results.push(result);
            k += 1;
        }
        proof {
            let expected = Seq::new(
                tasks@.len(),
                |j: int| spec_result(vm, txns@, start.store, start.layer, bsrc, fuel, tasks@[j]),
            );
            assert(attempts_view(results@) =~= expected);
            assert(start == (EngineView { scheduler: granted.0, ..old(self)@ }));
            assert(end_tasks(start, tasks@, attempts_view(results@)) == goal);
        }
        while results.len() > 0
            invariant
                results@.len() <= tasks@.len(),
                self.inv(vm, txns@, base, *cfg),
                self.scheduler@.commit_idx == old(self).scheduler@.commit_idx,
                end_tasks(self@, tasks@, attempts_view(results@)) == goal,
                forall|j: int|
                    0 <= j < results@.len() ==> match #[trigger] results@[j] {
                        Some(Execution::Done(rec)) => match tasks@[j] {
                            Task::Execute(i, _) => i < txns@.len() && certified(
                                vm,
                                &txns@[i as int],
                                rec,
                                cfg.max_steps as nat,
                            ),
                            _ => false,
                        },
                        _ => true,
                    },
            decreases results@.len(),
        {
            let ghost before = results@;
            let result = results.pop().unwrap();
            let k = results.len();
            assert(before[k as int] == result);
            assert forall|j: int| 0 <= j < results@.len() implies results@[j] == before[j] by {}
            assert(attempts_view(before).drop_last() =~= attempts_view(results@));
            assert(attempts_view(before)[k as int] == opt_attempt_view(result));
            match tasks[k] {
                Task::Execute(i, inc) => {
                    self.end_execution(vm, txns, base, cfg, i, inc, result);
                },
                Task::Validate(i, inc) => {
                    self.validate(vm, txns, base, cfg, i, inc);
                },
                _ => {},
            }
        }
    }

    /// Whether the transaction at the commit index can be committed without
    /// being executed first: it is skipped, or it is executed, its record is
    /// that of the executed incarnation, and the record passes the final
    /// validation.
    fn front_is_ready<V: VmAdapter, S: StateView>(
        &self,
        vm: &V,
        txns: &Vec<V::Txn>,
        base: &S,
        cfg: &ExecutorConfig,
    ) -> (ready: bool)
        requires
            self.inv(vm, txns@, base, *cfg),
        ensures
            ready == spec_front_is_ready(self@, base_source(base)),
    {
        let i = self.scheduler.commit_idx();
        if i >= self.records.len() {
            false
        } else if self.commit.is_stopped() {
            true
        } else {
            let status = self.scheduler.status(i);
            proof {
                if self.records@[i as int] is Some {
                    lemma_observations(
                        self.store@,
                        self.layer@,
                        self.records@[i as int].unwrap(),
                        i as nat,
                    );
                }
            }
            match &self.records[i] {
                Some(rec) => status == Status::Executed(rec.incarnation) && final_validation(
                    &self.store,
                    &self.layer,
                    &self.commit,
                    base,
                    i,
                    rec,
                ),
                None => false,
            }
        }
    }

    /// Commits the record `rec` as the transaction at the commit index:
    /// publishes it in place of `prev`, commits it, and leaves in the store
    /// what the commit has applied. `prev` is the record that the store holds
    /// for the transaction, and `rec` its run on the committed values.
    fn settle<V: VmAdapter, S: StateView>(
        &mut self,
        vm: &V,
        txns: &Vec<V::Txn>,
        base: &S,
        cfg: &ExecutorConfig,
        prev: &Option<TxnRecord>,
        rec: &TxnRecord,
    ) -> (err: Option<ExecutionError>)
        requires
            old(self).steady(vm, txns@, base, *cfg),
            old(self).all_certified(vm, txns@, cfg.max_steps as nat),
            old(self).scheduler@.commit_idx < txns@.len(),
            old(self).commit@.error.is_none(),
            !old(self).commit@.stopped,
            old(self).records@[old(self).scheduler@.commit_idx as int].is_none(),
            owned(
                old(self).store@,
                old(self).layer@,
                old(self).records@.update(old(self).scheduler@.commit_idx as int, *prev),
                old(self).scheduler@.commit_idx,
            ),
            rec.outcome() == run(
                vm,
                &txns@[old(self).scheduler@.commit_idx as int],
                old(self).commit.source(base),
                cfg.max_steps as nat,
            ),
        ensures
            final(self).commit@ == serial_prefix(
                vm,
                txns@,
                base_source(base),
                *cfg,
                old(self).scheduler@.commit_idx + 1,
            ),
            err == final(self).commit@.error,
            err.is_none() ==> final(self).inv(vm, txns@, base, *cfg),
            err.is_none() ==> final(self).scheduler@.commit_idx == old(self).scheduler@.commit_idx
                + 1,
    {
        let i = self.scheduler.commit_idx();
        let inc = rec.incarnation;
        let ghost k = i as nat;
        let ghost bsrc = base_source(base);
        let ghost s0 = self.commit@;
        let ghost src = self.commit.source(base);
        let ghost store0 = self.store@;
        let ghost layer0 = self.layer@;
        let ghost records0 = self.records@;
        let ghost w = writes_view(rec.run.writes@);
        let ghost d = rec.run.deltas@;
        let ghost pw = prior_writes(*prev);
        let ghost pd = prior_deltas(*prev);
        publish(&mut self.store, &mut self.layer, i, prev, rec);
        let ghost store1 = self.store@;
        let ghost layer1 = self.layer@;
        proof {
            assert(records0.update(k as int, *prev)[k as int] == *prev);
            assert forall|key: (Location, nat)|
                {
                    &&& #[trigger] store1.contains_key(key) == (store0.contains_key(key) && key.1
                        != k || (key.1 == k && touches(w, key.0)))
                    &&& key.1 != k && store0.contains_key(key) ==> store1[key] == store0[key]
                    &&& key.1 == k && touches(w, key.0) ==> find_write(w, key.0).is_some()
                        && store1[key] == (EntryView {
                        value: w[find_write(w, key.0).unwrap()].1,
                        incarnation: inc,
                        estimate: false,
                    })
                } by {
                lemma_retire(store0, k, pw, w, key);
                lemma_with_writes(retire(store0, k, pw, w), k, inc, w, key);
                if store0.contains_key(key) && key.1 == k {
                    assert(touches(pw, key.0));
                }
            }
            assert forall|key: (Location, nat)|
                {
                    &&& #[trigger] layer1.contains_key(key) == (layer0.contains_key(key) && key.1
                        != k || (key.1 == k && touches(d, key.0)))
                    &&& key.1 != k && layer0.contains_key(key) ==> layer1[key] == layer0[key]
                } by {
                lemma_retire(layer0, k, pd, d, key);
                lemma_with_deltas(retire(layer0, k, pd, d), k, inc, d, key);
                if layer0.contains_key(key) && key.1 == k {
                    assert(touches(pd, key.0));
                }
            }
        }
        assert(published_writes(store0, store1, k, inc, w));
        assert(published_deltas(layer0, layer1, k, d));
        let counters = delta_locations(&rec.run.deltas);
        let applied = self.commit.commit_record(base, cfg, i, rec);
        assert(self.commit@ == serial_step(vm, &txns@[i as int], bsrc, *cfg, s0, k));
        match self.commit.error() {
            Some(e) => {
                return Some(e);
            },
            None => {},
        }
        if applied {
            settle_counters(&mut self.store, &mut self.layer, &self.commit, base, i, inc, &counters);
        } else {
            retire_record_of(&mut self.store, &mut self.layer, i, rec);
        }
        if self.commit.is_stopped() {
            let reason = if self.commit.last_asked_to_skip() {
                HaltReason::SkipRest
            } else {
                HaltReason::GasLimitReached
            };
            self.scheduler.halt(i + 1, reason);
        }
        self.scheduler.advance_commit(inc);
        proof {
            let store2 = self.store@;
            let layer2 = self.layer@;
            if applied {
                let vals = resolve_deltas(src, w, d).unwrap();
                lemma_resolve_len(src, w, d);
                let overlay1 = apply_writes(s0.overlay, pending_after(w, d, vals));
                assert(self.commit@.overlay == overlay1);
                let src1 = self.commit.source(base);
                lemma_settled(
                    store0,
                    layer0,
                    store1,
                    layer1,
                    s0.overlay,
                    bsrc,
                    k,
                    inc,
                    w,
                    d,
                    vals,
                    counters@,
                    src1,
                );
                assert forall|key: (Location, nat)|
                    {
                        &&& #[trigger] store2.contains_key(key) == (store1.contains_key(key) || (
                        key.1 == k && touches(d, key.0)))
                    } by {
                    lemma_with_counters(store1, k, inc, counters@, src1, key);
                }
                assert forall|key: (Location, nat)|
                    {
                        &&& #[trigger] layer2.contains_key(key) == (layer1.contains_key(key) && !(
                        key.1 == k && touches(d, key.0)))
                    } by {
                    lemma_without_deltas(layer1, k, counters@, key);
                }
                assert forall|key: (Location, nat)|
                    #[trigger] store2.contains_key(key) && key.1 >= k + 1 implies key.1
                        < self.records@.len() && touches(
                    prior_writes(self.records@[key.1 as int]),
                    key.0,
                ) by {
                    assert(store1.contains_key(key));
                    assert(store0.contains_key(key));
                    assert(records0.update(k as int, *prev)[key.1 as int] == records0[key.1 as int]);
                }
                assert forall|key: (Location, nat)|
                    #[trigger] layer2.contains_key(key) && key.1 >= k + 1 implies key.1
                        < self.records@.len() && touches(
                    prior_deltas(self.records@[key.1 as int]),
                    key.0,
                ) by {
                    assert(layer1.contains_key(key));
                    assert(layer0.contains_key(key));
                    assert(records0.update(k as int, *prev)[key.1 as int] == records0[key.1 as int]);
                }
            } else {
                assert(self.commit@.overlay == s0.overlay);
                let none_w = Seq::<(Location, Option<Seq<u8>>)>::empty();
                let none_d = Seq::<(Location, DeltaOp)>::empty();
                assert forall|key: (Location, nat)|
                    {
                        &&& #[trigger] store2.contains_key(key) == (store1.contains_key(key) && !(
                        key.1 == k && touches(w, key.0)))
                        &&& store2.contains_key(key) ==> store2[key] == store1[key]
                    } by {
                    lemma_retire(store1, k, w, none_w, key);
                }
                assert forall|key: (Location, nat)|
                    {
                        &&& #[trigger] layer2.contains_key(key) == (layer1.contains_key(key) && !(
                        key.1 == k && touches(d, key.0)))
                        &&& layer2.contains_key(key) ==> layer2[key] == layer1[key]
                    } by {
                    lemma_retire(layer1, k, d, none_d, key);
                }
                assert(same_below(store2, store0, k)) by {
                    assert forall|key: (Location, nat)| key.1 < k implies (
                    #[trigger] store2.contains_key(key) == store0.contains_key(key) && (
                    store2.contains_key(key) ==> store2[key] == store0[key])) by {
                        assert(store1.contains_key(key) == store0.contains_key(key));
                    }
                }
                assert(same_below(layer2, layer0, k)) by {
                    assert forall|key: (Location, nat)| key.1 < k implies (
                    #[trigger] layer2.contains_key(key) == layer0.contains_key(key) && (
                    layer2.contains_key(key) ==> layer2[key] == layer0[key])) by {
                        assert(layer1.contains_key(key) == layer0.contains_key(key));
                    }
                }
                assert forall|loc: Location| !(#[trigger] store2.contains_key((loc, k))) by {
                    assert(store1.contains_key((loc, k)) == touches(w, loc));
                }
                assert forall|loc: Location| !(#[trigger] layer2.contains_key((loc, k))) by {
                    assert(layer1.contains_key((loc, k)) == touches(d, loc));
                }
                lemma_frozen_passes(store0, layer0, store2, layer2, s0.overlay, bsrc, k);
                assert forall|key: (Location, nat)|
                    #[trigger] store2.contains_key(key) && key.1 >= k + 1 implies key.1
                        < self.records@.len() && touches(
                    prior_writes(self.records@[key.1 as int]),
                    key.0,
                ) by {
                    assert(store1.contains_key(key));
                    assert(store0.contains_key(key));
                    assert(records0.update(k as int, *prev)[key.1 as int] == records0[key.1 as int]);
                }
                assert forall|key: (Location, nat)|
                    #[trigger] layer2.contains_key(key) && key.1 >= k + 1 implies key.1
                        < self.records@.len() && touches(
                    prior_deltas(self.records@[key.1 as int]),
                    key.0,
                ) by {
                    assert(layer1.contains_key(key));
                    assert(layer0.contains_key(key));
                    assert(records0.update(k as int, *prev)[key.1 as int] == records0[key.1 as int]);
                }
            }
        }
        None
    }

    /// Commits the transaction at the commit index. A skipped transaction
    /// gets the skipped output. Otherwise the record of the executed
    /// incarnation is committed where it passes the final validation; the
    /// record of an aborted incarnation is never committed. Where there is no
    /// record to commit, the pipeline does not wait for the workers: it
    /// executes the transaction through the versioned view itself, which reads
    /// the committed values because every transaction below is committed, and
    /// commits that. Returns the error that ends the block, if the commit met
    /// one.
    fn commit_next<V: VmAdapter, S: StateView>(
        &mut self,
        vm: &V,
        txns: &Vec<V::Txn>,
        base: &S,
        cfg: &ExecutorConfig,
    ) -> (err: Option<ExecutionError>)
        requires
            old(self).inv(vm, txns@, base, *cfg),
            old(self).scheduler@.commit_idx < txns@.len(),
            old(self).commit@.error.is_none(),
        ensures
            final(self).commit@ == serial_prefix(
                vm,
                txns@,
                base_source(base),
                *cfg,
                old(self).scheduler@.commit_idx + 1,
            ),
            err == final(self).commit@.error,
            err.is_none() ==> final(self).inv(vm, txns@, base, *cfg),
            err.is_none() ==> final(self).scheduler@.commit_idx == old(self).scheduler@.commit_idx
                + 1,
    {
        let i = self.scheduler.commit_idx();
        let status = self.scheduler.status(i);
        let ghost k = i as nat;
        let ghost bsrc = base_source(base);
        let ghost fuel = cfg.max_steps as nat;
        let ghost src = self.commit.source(base);
        let ghost store0 = self.store@;
        let ghost layer0 = self.layer@;
        let ghost records0 = self.records@;
        let speculative = self.records[i].take();
        proof {
            assert(self.records@.update(k as int, speculative) =~= records0);
            assert forall|j: int|
                0 <= j < txns@.len() && (#[trigger] self.records@[j]).is_some() implies certified(
                vm,
                &txns@[j],
                self.records@[j].unwrap(),
                fuel,
            ) by {
                assert(self.records@[j] == records0[j]);
            }
            assert(speculative.is_some() ==> certified(
                vm,
                &txns@[i as int],
                speculative.unwrap(),
                fuel,
            )) by {
                assert(records0[i as int] == speculative);
            }
        }
        if self.commit.is_stopped() {
            retire_record(&mut self.store, &mut self.layer, i, &speculative);
            self.commit.skip();
            self.scheduler.advance_commit(status.incarnation());
            proof {
                let store2 = self.store@;
                let layer2 = self.layer@;
                let pw = prior_writes(speculative);
                let pd = prior_deltas(speculative);
                let none_w = Seq::<(Location, Option<Seq<u8>>)>::empty();
                let none_d = Seq::<(Location, DeltaOp)>::empty();
                assert forall|key: (Location, nat)|
                    {
                        &&& #[trigger] store2.contains_key(key) == (store0.contains_key(key) && !(
                        key.1 == k && touches(pw, key.0)))
                        &&& store2.contains_key(key) ==> store2[key] == store0[key]
                    } by {
                    lemma_retire(store0, k, pw, none_w, key);
                }
                assert forall|key: (Location, nat)|
                    {
                        &&& #[trigger] layer2.contains_key(key) == (layer0.contains_key(key) && !(
                        key.1 == k && touches(pd, key.0)))
                        &&& layer2.contains_key(key) ==> layer2[key] == layer0[key]
                    } by {
                    lemma_retire(layer0, k, pd, none_d, key);
                }
                assert(same_below(store2, store0, k));
                assert(same_below(layer2, layer0, k));
                assert forall|loc: Location| !(#[trigger] store2.contains_key((loc, k))) by {
                    if store0.contains_key((loc, k)) {
                        assert(touches(prior_writes(records0[k as int]), loc));
                    }
                }
                assert forall|loc: Location| !(#[trigger] layer2.contains_key((loc, k))) by {
                    if layer0.contains_key((loc, k)) {
                        assert(touches(prior_deltas(records0[k as int]), loc));
                    }
                }
                lemma_frozen_passes(
                    store0,
                    layer0,
                    store2,
                    layer2,
                    self.commit@.overlay,
                    bsrc,
                    k,
                );
                assert forall|key: (Location, nat)|
                    #[trigger] store2.contains_key(key) && key.1 >= k + 1 implies key.1
                        < self.records@.len() && touches(
                    prior_writes(self.records@[key.1 as int]),
                    key.0,
                ) by {
                    assert(store0.contains_key(key));
                    assert(self.records@[key.1 as int] == records0[key.1 as int]);
                }
                assert forall|key: (Location, nat)|
                    #[trigger] layer2.contains_key(key) && key.1 >= k + 1 implies key.1
                        < self.records@.len() && touches(
                    prior_deltas(self.records@[key.1 as int]),
                    key.0,
                ) by {
                    assert(layer0.contains_key(key));
                    assert(self.records@[key.1 as int] == records0[key.1 as int]);
                }
            }
            return None;
        }
        let usable = match &speculative {
            Some(rec) => status == Status::Executed(rec.incarnation) && final_validation(
                &self.store,
                &self.layer,
                &self.commit,
                base,
                i,
                rec,
            ),
            None => false,
        };
        match &speculative {
            Some(rec) => {
                if usable {
                    proof {
                        let src1 = choose|src1: Source|
                            rec.outcome() == #[trigger] run(vm, &txns@[i as int], src1, fuel);
                        lemma_run_agreement(vm, &txns@[i as int], src1, src, empty_run(), fuel);
                    }
                    return self.settle(vm, txns, base, cfg, &speculative, rec);
                }
            },
            None => {},
        }
        let inc = match status {
            Status::ReadyToExecute(x) => x,
            Status::Executing(x) => x,
            Status::Executed(x) => if x < Incarnation::MAX {
                x + 1
            } else {
                x
            },
            Status::Aborting(x) => if x < Incarnation::MAX {
                x + 1
            } else {
                x
            },
        };
        proof {
            let vsrc = view_source(store0, layer0, bsrc, k);
            assert(vsrc =~= src) by {
                assert forall|loc: Location| #[trigger] vsrc(loc) == src(loc) by {
                    assert(!(route(store0, layer0, loc, k) is Dependency));
                }
            }
            assert forall|loc: Location| !(#[trigger] route(store0, layer0, loc, k)
                is Dependency) by {}
            crate::commit::lemma_never_blocked(
                vm,
                &txns@[i as int],
                store0,
                layer0,
                bsrc,
                k,
                empty_run(),
                fuel,
            );
            lemma_execute_is_run(vm, &txns@[i as int], store0, layer0, bsrc, k, empty_run(), fuel);
        }
        let execution = execute_incarnation(
            vm,
            &txns[i],
            &self.store,
            &self.layer,
            base,
            i,
            inc,
            cfg.max_steps,
        );
        match execution {
            Execution::Done(rec) => self.settle(vm, txns, base, cfg, &speculative, &rec),
            Execution::Blocked { .. } => {
                // Below the commit index nothing is left to depend on.
                proof {
                    assert(false);
                }
                let rec = TxnRecord {
                    incarnation: inc,
                    end: RunEnd::Fatal,
                    run: Run {
                        responses: Vec::new(),
                        reads: Vec::new(),
                        writes: Vec::new(),
                        deltas: Vec::new(),
                        events: Vec::new(),
                    },
                };
                self.settle(vm, txns, base, cfg, &speculative, &rec)
            },
        }
    }
}

/// Takes the write set and the delta set of `rec` at `txi` out of the store
/// and the delta layer.
fn retire_record_of(
    store: &mut MultiVersionStore,
    layer: &mut DeltaLayer,
    txi: TxnIndex,
    rec: &TxnRecord,
)
    requires
        old(store).wf(),
        old(layer).wf(),
    ensures
        final(store).wf(),
        final(layer).wf(),
        final(store)@ == retire(
            old(store)@,
            txi as nat,
            writes_view(rec.run.writes@),
            Seq::<(Location, Option<Seq<u8>>)>::empty(),
        ),
        final(layer)@ == retire(
            old(layer)@,
            txi as nat,
            rec.run.deltas@,
            Seq::<(Location, DeltaOp)>::empty(),
        ),
{
    let none: Vec<WriteEntry> = Vec::new();
    let no_deltas: Vec<(Location, DeltaOp)> = Vec::new();
    assert(writes_view(none@) =~= Seq::<(Location, Option<Seq<u8>>)>::empty());
    assert(no_deltas@ =~= Seq::<(Location, DeltaOp)>::empty());
    let _ = apply_write_set(store, txi, rec.incarnation, &rec.run.writes, &none);
    let _ = apply_delta_set(layer, txi, rec.incarnation, &rec.run.deltas, &no_deltas);
}

/// Executes a block: the transactions of `txns` in their order on `base`,
/// with `cfg.concurrency` workers speculating ahead of the commit. In every
/// round each worker takes one task, the granted executions run side by side
/// on the store as it stands, and the commit follows as far as valid records
/// reach, and by one transaction at least. The result is that of serial
/// execution, whatever the number of workers: one output per transaction, or
/// the error that ends the block.
pub fn execute_block<V: VmAdapter, S: StateView>(
    vm: &V,
    txns: &Vec<V::Txn>,
    base: &S,
    cfg: &ExecutorConfig,
) -> (result: Result<Vec<TransactionOutput>, ExecutionError>)
    ensures
        match result {
            Ok(outputs) => spec_execute_block(vm, txns@, base_source(base), *cfg) == Ok::<
                Seq<crate::output::OutputView>,
                ExecutionError,
            >(outputs_view(outputs@)) && outputs@.len() == txns@.len(),
            Err(e) => spec_execute_block(vm, txns@, base_source(base), *cfg) == Err::<
                Seq<crate::output::OutputView>,
                ExecutionError,
            >(e),
        },
{
    let n = txns.len();
    let mut engine = Engine::new(vm, txns, base, cfg);
    while engine.scheduler.commit_idx() < n
        invariant
            n == txns@.len(),
            engine.inv(vm, txns@, base, *cfg),
            engine.scheduler@.commit_idx <= n,
            engine.commit@.error.is_none(),
        decreases n - engine.scheduler@.commit_idx,
    {
        engine.speculate(vm, txns, base, cfg);
        let ghost start = engine.scheduler@.commit_idx;
        let mut go_on = true;
        while go_on && engine.scheduler.commit_idx() < n
            invariant
                n == txns@.len(),
                start < n,
                engine.inv(vm, txns@, base, *cfg),
                engine.scheduler@.commit_idx <= n,
                engine.commit@.error.is_none(),
                engine.scheduler@.commit_idx >= start,
                !go_on ==> engine.scheduler@.commit_idx > start,
            decreases n - engine.scheduler@.commit_idx,
        {
            let ghost at = engine.scheduler@.commit_idx;
            match engine.commit_next(vm, txns, base, cfg) {
                Some(e) => {
                    proof {
                        lemma_error_is_final(
                            vm,
                            txns@,
                            base_source(base),
                            *cfg,
                            at + 1,
                            n as nat,
                        );
                    }
                    return Err(e);
                },
                None => {},
            }
            go_on = engine.front_is_ready(vm, txns, base, cfg);
        }
    }
    proof {
        crate::sequential::lemma_serial_length(vm, txns@, base_source(base), *cfg, n as nat);
    }
    let Engine { store: _, layer: _, scheduler: _, records: _, commit } = engine;
    let outputs = commit.into_outputs();
    assert(outputs@.len() == outputs_view(outputs@).len());
    Ok(outputs)
}

} // verus!
