use crate::commit::CommitState;
use crate::delta::DeltaOp;
use crate::delta_layer::{DeltaEntry, DeltaLayer, LayerView};
use crate::mvds::{spec_mark_estimate, EntryView, MultiVersionStore, StoreView};
use crate::scheduler::{
    abort_succeeds, spec_finish_abort, spec_finish_execution, spec_finish_validation,
    spec_suspend, Scheduler, Status, Task,
};
use crate::types::{clone_opt_bytes, Incarnation, Location, TxnIndex};
use crate::view::{
    find_own_write, read_set_valid, validate_read_set, writes_view, Execution, TxnRecord,
    WriteEntry,
};
use crate::view::reads_view;
use crate::vm::{find_write, source_agrees, Source, StateView};
use vstd::prelude::*;

verus! {

/// Whether a set of writes or deltas has an entry for `loc`.
pub open spec fn touches<T>(entries: Seq<(Location, T)>, loc: Location) -> bool {
    exists|k: int| 0 <= k < entries.len() && (#[trigger] entries[k]).0 == loc
}

/// Whether `next` has an entry for a location for which `prev` has none.
pub open spec fn touches_new<A, B>(prev: Seq<(Location, A)>, next: Seq<(Location, B)>) -> bool {
    exists|k: int| 0 <= k < next.len() && !touches(prev, (#[trigger] next[k]).0)
}

/// The store without the entries of `txi` at the locations that `prev` names
/// and `next` does not.
pub open spec fn retire<T, A, B>(
    m: Map<(Location, nat), T>,
    txi: nat,
    prev: Seq<(Location, A)>,
    next: Seq<(Location, B)>,
) -> Map<(Location, nat), T>
    decreases prev.len(),
{
    if prev.len() == 0 {
        m
    } else {
        let rest = retire(m, txi, prev.drop_last(), next);
        if touches(next, prev.last().0) {
            rest
        } else {
            rest.remove((prev.last().0, txi))
        }
    }
}

/// The store with the writes of incarnation `inc` of `txi`, each a resolved
/// entry.
pub open spec fn with_writes(
    m: StoreView,
    txi: nat,
    inc: Incarnation,
    writes: Seq<(Location, Option<Seq<u8>>)>,
) -> StoreView
    decreases writes.len(),
{
    if writes.len() == 0 {
        m
    } else {
        with_writes(m, txi, inc, writes.drop_last()).insert(
            (writes.last().0, txi),
            EntryView { value: writes.last().1, incarnation: inc, estimate: false },
        )
    }
}

/// The layer with the deltas of incarnation `inc` of `txi`.
pub open spec fn with_deltas(
    m: LayerView,
    txi: nat,
    inc: Incarnation,
    deltas: Seq<(Location, DeltaOp)>,
) -> LayerView
    decreases deltas.len(),
{
    if deltas.len() == 0 {
        m
    } else {
        with_deltas(m, txi, inc, deltas.drop_last()).insert(
            (deltas.last().0, txi),
            DeltaEntry { incarnation: inc, op: deltas.last().1 },
        )
    }
}

/// The store with the entries of `txi` at the locations of `writes` flagged
/// as estimates.
pub open spec fn with_estimates(
    m: StoreView,
    txi: nat,
    writes: Seq<(Location, Option<Seq<u8>>)>,
) -> StoreView
    decreases writes.len(),
{
    if writes.len() == 0 {
        m
    } else {
        spec_mark_estimate(with_estimates(m, txi, writes.drop_last()), writes.last().0, txi)
    }
}

/// `find_write` finds nothing exactly where no entry names the location.
pub proof fn lemma_find_write_touches(writes: Seq<(Location, Option<Seq<u8>>)>, loc: Location)
    ensures
        find_write(writes, loc).is_some() == touches(writes, loc),
    decreases writes.len(),
{
    if writes.len() > 0 {
        lemma_find_write_touches(writes.drop_last(), loc);
        if writes.last().0 == loc {
            assert(writes[writes.len() - 1].0 == loc);
        } else if touches(writes, loc) {
            let k = choose|k: int| 0 <= k < writes.len() && (#[trigger] writes[k]).0 == loc;
            assert(writes.drop_last()[k].0 == loc);
        } else if touches(writes.drop_last(), loc) {
            let k = choose|k: int|
                0 <= k < writes.drop_last().len() && (#[trigger] writes.drop_last()[k]).0 == loc;
            assert(writes[k].0 == loc);
        }
    }
}

fn has_delta(deltas: &Vec<(Location, DeltaOp)>, loc: Location) -> (found: bool)
    ensures
        found == touches(deltas@, loc),
{
    let mut k: usize = 0;
    while k < deltas.len()
        invariant
            0 <= k <= deltas.len(),
            forall|j: int| 0 <= j < k ==> (#[trigger] deltas@[j]).0 != loc,
        decreases deltas.len() - k,
    {
        if deltas[k].0 == loc {
            return true;
        }
        k += 1;
    }
    false
}

/// Publishes the write set of a new incarnation of `txi` in place of the
/// write set of the incarnation before it: an entry at a location that was
/// written before and is not written now is deleted, and every location that is
/// written now is written. Returns whether the new incarnation wrote a
/// location that the old one had not written.
pub fn apply_write_set(
    store: &mut MultiVersionStore,
    txi: TxnIndex,
    inc: Incarnation,
    prev: &Vec<WriteEntry>,
    next: &Vec<WriteEntry>,
) -> (wrote_new: bool)
    requires
        old(store).wf(),
    ensures
        final(store).wf(),
        final(store)@ == with_writes(
            retire(old(store)@, txi as nat, writes_view(prev@), writes_view(next@)),
            txi as nat,
            inc,
            writes_view(next@),
        ),
        wrote_new == touches_new(writes_view(prev@), writes_view(next@)),
{
    let ghost pv = writes_view(prev@);
    let ghost nv = writes_view(next@);
    let mut k: usize = 0;
    assert(pv.subrange(0, 0) =~= Seq::empty());
    while k < prev.len()
        invariant
            0 <= k <= prev.len(),
            pv == writes_view(prev@),
            nv == writes_view(next@),
            store.wf(),
            store@ == retire(old(store)@, txi as nat, pv.subrange(0, k as int), nv),
        decreases prev.len() - k,
    {
        let loc = prev[k].loc;
        proof {
            let upto = pv.subrange(0, k as int + 1);
            assert(upto.drop_last() =~= pv.subrange(0, k as int));
            assert(upto.last().0 == loc);
            lemma_find_write_touches(nv, loc);
        }
        if find_own_write(next, loc).is_none() {
            store.delete(loc, txi);
        }
        k += 1;
    }
    assert(pv.subrange(0, pv.len() as int) =~= pv);
    let ghost retired = store@;
    let mut wrote_new = false;
    let mut k: usize = 0;
    assert(nv.subrange(0, 0) =~= Seq::empty());
    while k < next.len()
        invariant
            0 <= k <= next.len(),
            pv == writes_view(prev@),
            nv == writes_view(next@),
            store.wf(),
            store@ == with_writes(retired, txi as nat, inc, nv.subrange(0, k as int)),
            wrote_new == (exists|j: int| 0 <= j < k && !touches(pv, (#[trigger] nv[j]).0)),
        decreases next.len() - k,
    {
        let loc = next[k].loc;
        proof {
            let upto = nv.subrange(0, k as int + 1);
            assert(upto.drop_last() =~= nv.subrange(0, k as int));
            assert(upto.last() == nv[k as int]);
            lemma_find_write_touches(pv, loc);
        }
        if find_own_write(prev, loc).is_none() {
            assert(!touches(pv, nv[k as int].0));
            wrote_new = true;
        }
        store.write(loc, txi, inc, clone_opt_bytes(&next[k].value));
        k += 1;
    }
    assert(nv.subrange(0, nv.len() as int) =~= nv);
    wrote_new
}

/// Publishes the delta set of a new incarnation of `txi` in place of the
/// delta set of the incarnation before it, in the way of `apply_write_set`.
pub fn apply_delta_set(
    layer: &mut DeltaLayer,
    txi: TxnIndex,
    inc: Incarnation,
    prev: &Vec<(Location, DeltaOp)>,
    next: &Vec<(Location, DeltaOp)>,
) -> (staged_new: bool)
    requires
        old(layer).wf(),
    ensures
        final(layer).wf(),
        final(layer)@ == with_deltas(
            retire(old(layer)@, txi as nat, prev@, next@),
            txi as nat,
            inc,
            next@,
        ),
        staged_new == touches_new(prev@, next@),
{
    let mut k: usize = 0;
    assert(prev@.subrange(0, 0) =~= Seq::empty());
    while k < prev.len()
        invariant
            0 <= k <= prev.len(),
            layer.wf(),
            layer@ == retire(old(layer)@, txi as nat, prev@.subrange(0, k as int), next@),
        decreases prev.len() - k,
    {
        let loc = prev[k].0;
        proof {
            let upto = prev@.subrange(0, k as int + 1);
            assert(upto.drop_last() =~= prev@.subrange(0, k as int));
            assert(upto.last().0 == loc);
        }
        if !has_delta(next, loc) {
            let _ = layer.remove_delta(loc, txi);
        }
        k += 1;
    }
    assert(prev@.subrange(0, prev@.len() as int) =~= prev@);
    let ghost retired = layer@;
    let mut staged_new = false;
    let mut k: usize = 0;
    assert(next@.subrange(0, 0) =~= Seq::empty());
    while k < next.len()
        invariant
            0 <= k <= next.len(),
            layer.wf(),
            layer@ == with_deltas(retired, txi as nat, inc, next@.subrange(0, k as int)),
            staged_new == (exists|j: int| 0 <= j < k && !touches(prev@, (#[trigger] next@[j]).0)),
        decreases next.len() - k,
    {
        let (loc, op) = next[k];
        proof {
            let upto = next@.subrange(0, k as int + 1);
            assert(upto.drop_last() =~= next@.subrange(0, k as int));
            assert(upto.last() == next@[k as int]);
        }
        if !has_delta(prev, loc) {
            assert(!touches(prev@, next@[k as int].0));
            staged_new = true;
        }
        layer.record_delta(loc, txi, inc, op);
        k += 1;
    }
    assert(next@.subrange(0, next@.len() as int) =~= next@);
    staged_new
}

/// Flags the entries that an aborted incarnation of `txi` wrote as
/// estimates; their values and incarnations stay.
pub fn mark_estimates(store: &mut MultiVersionStore, txi: TxnIndex, writes: &Vec<WriteEntry>)
    requires
        old(store).wf(),
    ensures
        final(store).wf(),
        final(store)@ == with_estimates(old(store)@, txi as nat, writes_view(writes@)),
{
    let ghost wv = writes_view(writes@);
    let mut k: usize = 0;
    assert(wv.subrange(0, 0) =~= Seq::empty());
    while k < writes.len()
        invariant
            0 <= k <= writes.len(),
            wv == writes_view(writes@),
            store.wf(),
            store@ == with_estimates(old(store)@, txi as nat, wv.subrange(0, k as int)),
        decreases writes.len() - k,
    {
        proof {
            let upto = wv.subrange(0, k as int + 1);
            assert(upto.drop_last() =~= wv.subrange(0, k as int));
            assert(upto.last().0 == writes@[k as int].loc);
        }
        store.mark_estimate(writes[k].loc, txi);
        k += 1;
    }
    assert(wv.subrange(0, wv.len() as int) =~= wv);
}

/// The write set of the record before a new incarnation; empty where there
/// is none.
pub open spec fn prior_writes(prev: Option<TxnRecord>) -> Seq<(Location, Option<Seq<u8>>)> {
    match prev {
        Some(rec) => writes_view(rec.run.writes@),
        None => Seq::empty(),
    }
}

/// The delta set of the record before a new incarnation; empty where there
/// is none.
pub open spec fn prior_deltas(prev: Option<TxnRecord>) -> Seq<(Location, DeltaOp)> {
    match prev {
        Some(rec) => rec.run.deltas@,
        None => Seq::empty(),
    }
}

/// Whether a record is that of incarnation `inc` and its read set is valid
/// now.
pub open spec fn record_valid(
    store: StoreView,
    layer: LayerView,
    record: Option<TxnRecord>,
    txi: nat,
    inc: Incarnation,
) -> bool {
    match record {
        Some(rec) => rec.incarnation == inc && read_set_valid(store, layer, rec.run.reads@, txi),
        None => false,
    }
}

/// Ends an execution task of a worker. The record of a completed run is
/// published: its write set and its delta set take the place of those of the
/// incarnation before, and the scheduler learns whether anything new was
/// written. A run that met a dependency leaves nothing, and its transaction is
/// suspended on the transaction it depends on. Returns the task that the
/// worker goes on with.
pub fn end_execution_task(
    store: &mut MultiVersionStore,
    layer: &mut DeltaLayer,
    scheduler: &mut Scheduler,
    txi: TxnIndex,
    inc: Incarnation,
    prev: &Option<TxnRecord>,
    result: &Execution,
) -> (task: Task)
    requires
        old(store).wf(),
        old(layer).wf(),
        old(scheduler)@.wf(),
        txi < old(scheduler)@.statuses.len(),
        old(scheduler)@.statuses[txi as int] == Status::Executing(inc),
        old(scheduler)@.in_flight > 0,
    ensures
        final(store).wf(),
        final(layer).wf(),
        final(scheduler)@.wf(),
        final(scheduler)@.commit_idx == old(scheduler)@.commit_idx,
        final(scheduler)@.statuses.len() == old(scheduler)@.statuses.len(),
        match *result {
            Execution::Done(rec) => {
                let writes = writes_view(rec.run.writes@);
                let wrote_new = touches_new(prior_writes(*prev), writes) || touches_new(
                    prior_deltas(*prev),
                    rec.run.deltas@,
                );
                &&& final(store)@ == with_writes(
                    retire(old(store)@, txi as nat, prior_writes(*prev), writes),
                    txi as nat,
                    rec.incarnation,
                    writes,
                )
                &&& final(layer)@ == with_deltas(
                    retire(old(layer)@, txi as nat, prior_deltas(*prev), rec.run.deltas@),
                    txi as nat,
                    rec.incarnation,
                    rec.run.deltas@,
                )
                &&& (final(scheduler)@, task) == spec_finish_execution(
                    old(scheduler)@,
                    txi as nat,
                    inc,
                    wrote_new,
                )
            },
            Execution::Blocked { .. } => {
                &&& final(store)@ == old(store)@
                &&& final(layer)@ == old(layer)@
                &&& final(scheduler)@ == spec_suspend(
                    old(scheduler)@,
                    txi as nat,
                    inc,
                    result->on as nat,
                )
                &&& task == Task::NoTask
            },
        },
{
    match result {
        Execution::Done(rec) => {
            let wrote_new = match prev {
                Some(p) => {
                    let w = apply_write_set(store, txi, rec.incarnation, &p.run.writes, &rec.run.writes);
                    let d = apply_delta_set(layer, txi, rec.incarnation, &p.run.deltas, &rec.run.deltas);
                    w || d
                },
                None => {
                    let none: Vec<WriteEntry> = Vec::new();
                    let no_deltas: Vec<(Location, DeltaOp)> = Vec::new();
                    assert(writes_view(none@) =~= prior_writes(*prev));
                    assert(no_deltas@ =~= prior_deltas(*prev));
                    let w = apply_write_set(store, txi, rec.incarnation, &none, &rec.run.writes);
                    let d = apply_delta_set(layer, txi, rec.incarnation, &no_deltas, &rec.run.deltas);
                    w || d
                },
            };
            scheduler.finish_execution(txi, inc, wrote_new)
        },
        Execution::Blocked { loc: _, on } => {
            scheduler.suspend(txi, inc, *on);
            Task::NoTask
        },
    }
}

/// Performs a validation task of a worker: validates the read set of the
/// record, tells the scheduler, and where the incarnation is invalid and the
/// abort succeeds, flags its write set as estimates and makes the transaction
/// ready for its next incarnation. A record of another incarnation is invalid.
/// Returns whether the incarnation was aborted.
pub fn validation_task(
    store: &mut MultiVersionStore,
    layer: &DeltaLayer,
    scheduler: &mut Scheduler,
    txi: TxnIndex,
    inc: Incarnation,
    record: &Option<TxnRecord>,
) -> (aborted: bool)
    requires
        old(store).wf(),
        layer.wf(),
        old(scheduler)@.wf(),
        txi < old(scheduler)@.statuses.len(),
        old(scheduler)@.in_flight > 0,
    ensures
        final(store).wf(),
        final(scheduler)@.wf(),
        ({
            let valid = record_valid(old(store)@, layer@, *record, txi as nat, inc);
            &&& aborted == (!valid && abort_succeeds(old(scheduler)@, txi as nat, inc))
            &&& final(scheduler)@ == if aborted {
                spec_finish_abort(
                    spec_finish_validation(old(scheduler)@, txi as nat, inc, valid),
                    txi as nat,
                    inc,
                )
            } else {
                spec_finish_validation(old(scheduler)@, txi as nat, inc, valid)
            }
            &&& final(store)@ == if aborted {
                with_estimates(old(store)@, txi as nat, prior_writes(*record))
            } else {
                old(store)@
            }
        }),
{
    let valid = match record {
        Some(rec) => rec.incarnation == inc && validate_read_set(store, layer, &rec.run.reads, txi),
        None => false,
    };
    let aborted = scheduler.finish_validation(txi, inc, valid);
    if aborted {
        match record {
            Some(rec) => {
                mark_estimates(store, txi, &rec.run.writes);
            },
            None => {},
        }
        scheduler.finish_abort(txi, inc);
    }
    aborted
}

/// The final validation of a record, made when the transaction is next to be
/// committed and every transaction below it is committed: the read set is
/// valid against the store, that is every read observes now what it observed
/// then, and every value that was read is the committed value of its location.
pub fn final_validation<S: StateView>(
    store: &MultiVersionStore,
    layer: &DeltaLayer,
    commit: &CommitState,
    base: &S,
    txi: TxnIndex,
    record: &TxnRecord,
) -> (valid: bool)
    requires
        store.wf(),
        layer.wf(),
        commit.wf(),
    ensures
        valid == (read_set_valid(store@, layer@, record.run.reads@, txi as nat) && source_agrees(
            commit.source(base),
            reads_view(record.run.reads@),
            0,
        )),
{
    validate_read_set(store, layer, &record.run.reads, txi) && commit.reads_are_current(
        base,
        &record.run.reads,
    )
}

/// The store with the entries of `txi` at the counters of `locs` set to the
/// values that `src` holds for them, each a resolved entry.
pub open spec fn with_counters(
    m: StoreView,
    txi: nat,
    inc: Incarnation,
    locs: Seq<Location>,
    src: Source,
) -> StoreView
    decreases locs.len(),
{
    if locs.len() == 0 {
        m
    } else {
        with_counters(m, txi, inc, locs.drop_last(), src).insert(
            (locs.last(), txi),
            EntryView { value: src(locs.last()), incarnation: inc, estimate: false },
        )
    }
}

/// The layer without the deltas of `txi` at the counters of `locs`.
pub open spec fn without_deltas(m: LayerView, txi: nat, locs: Seq<Location>) -> LayerView
    decreases locs.len(),
{
    if locs.len() == 0 {
        m
    } else {
        without_deltas(m, txi, locs.drop_last()).remove((locs.last(), txi))
    }
}

/// After the commit of `txi`: takes its deltas out of the delta layer and
/// writes the committed values of their counters to the store, where the
/// transactions above read them.
pub fn settle_counters<S: StateView>(
    store: &mut MultiVersionStore,
    layer: &mut DeltaLayer,
    commit: &CommitState,
    base: &S,
    txi: TxnIndex,
    inc: Incarnation,
    counters: &Vec<Location>,
)
    requires
        old(store).wf(),
        old(layer).wf(),
        commit.wf(),
    ensures
        final(store).wf(),
        final(layer).wf(),
        final(store)@ == with_counters(old(store)@, txi as nat, inc, counters@, commit.source(base)),
        final(layer)@ == without_deltas(old(layer)@, txi as nat, counters@),
{
    let mut k: usize = 0;
    assert(counters@.subrange(0, 0) =~= Seq::<Location>::empty());
    while k < counters.len()
        invariant
            0 <= k <= counters.len(),
            store.wf(),
            layer.wf(),
            commit.wf(),
            store@ == with_counters(
                old(store)@,
                txi as nat,
                inc,
                counters@.subrange(0, k as int),
                commit.source(base),
            ),
            layer@ == without_deltas(old(layer)@, txi as nat, counters@.subrange(0, k as int)),
        decreases counters.len() - k,
    {
        let loc = counters[k];
        proof {
            let upto = counters@.subrange(0, k as int + 1);
            assert(upto.drop_last() =~= counters@.subrange(0, k as int));
            assert(upto.last() == loc);
        }
        let _ = layer.remove_delta(loc, txi);
        let v = commit.committed_value(base, loc);
        store.write(loc, txi, inc, v);
        k += 1;
    }
    assert(counters@.subrange(0, counters@.len() as int) =~= counters@);
}

} // verus!
