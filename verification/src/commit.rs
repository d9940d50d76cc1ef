use crate::delta::{decode_counter, encode_counter, DeltaOp};
use crate::delta_layer::{DeltaEntry, DeltaLayer, LayerView};
use crate::mvds::{predecessor, MultiVersionStore, ReadResult, StoreView};
use crate::output::{
    output_writes_view, outputs_view, ExecutionError, ExecutorConfig, OutputWrite,
    TransactionOutput, WriteOp,
};
use crate::sequential::{
    applies, apply_writes, commit_run, delta_outputs, initial_state, module_conflict,
    module_locations, overlay_source, pending_after, pending_value, plain_outputs,
    resolve_deltas, Overlay, SerialState,
};
use crate::types::{clone_bytes, clone_opt_bytes, opt_bytes_eq, opt_view, Incarnation, Location};
use crate::view::{
    base_source, execute_incarnation, find_own_write, lemma_execute_is_run, reads_view, route,
    spec_execute, view_source, writes_view, Execution, ReadEntry, Run, TxnRecord, WriteEntry,
};
use crate::vm::{
    empty_run, run, source_agrees, step, ActionView, RunEnd, RunView, Source, StateView,
    TransactionStatus, VmAdapter,
};
use vstd::prelude::*;

verus! {

/// Whether a store holds exactly the committed values of an overlay: one
/// resolved entry per written location, all at index zero.
pub open spec fn models(store: StoreView, overlay: Overlay) -> bool {
    &&& forall|k: (Location, nat)| #[trigger] store.contains_key(k) ==> k.1 == 0
    &&& forall|loc: Location|
        #![trigger store.contains_key((loc, 0nat))]
        #![trigger overlay.contains_key(loc)]
        store.contains_key((loc, 0nat)) == overlay.contains_key(loc) && (overlay.contains_key(loc)
            ==> store[(loc, 0nat)].value == overlay[loc] && !store[(loc, 0nat)].estimate)
}

/// A read of the committed values is a read of the overlay, and never meets
/// a dependency.
pub proof fn lemma_committed_source(store: StoreView, overlay: Overlay, base: Source, loc: Location)
    requires
        models(store, overlay),
    ensures
        !(route(store, Map::<(Location, nat), DeltaEntry>::empty(), loc, 1) is Dependency),
        view_source(store, Map::<(Location, nat), DeltaEntry>::empty(), base, 1)(loc)
            == overlay_source(overlay, base)(loc),
{
    let empty = Map::<(Location, nat), DeltaEntry>::empty();
    assert(!empty.contains_key((loc, 0nat)));
    assert(predecessor(empty, loc, 0) == None::<nat>);
    assert(predecessor(empty, loc, 1) == None::<nat>);
    assert(predecessor(store, loc, 0) == None::<nat>);
    assert(store.contains_key((loc, 0nat)) == overlay.contains_key(loc));
    if store.contains_key((loc, 0nat)) {
        assert(predecessor(store, loc, 1) == Some(0nat));
    } else {
        assert(predecessor(store, loc, 1) == None::<nat>);
    }
}

/// An execution whose reads never meet a dependency runs to its end.
pub proof fn lemma_never_blocked<V: VmAdapter>(
    vm: &V,
    txn: &V::Txn,
    store: StoreView,
    layer: LayerView,
    base: Source,
    txi: nat,
    st: RunView,
    fuel: nat,
)
    requires
        forall|loc: Location| !(#[trigger] route(store, layer, loc, txi) is Dependency),
    ensures
        spec_execute(vm, txn, store, layer, base, txi, st, fuel) is Done,
    decreases fuel,
{
    if fuel > 0 {
        let src = view_source(store, layer, base, txi);
        let a = vm.spec_next(txn, st.responses);
        match a {
            ActionView::Finish(_, _) => {},
            ActionView::Fatal => {},
            ActionView::Read(loc) => {
                assert(!(route(store, layer, loc, txi) is Dependency));
                lemma_never_blocked(vm, txn, store, layer, base, txi, step(a, st, src), (fuel - 1) as nat);
            },
            _ => {
                lemma_never_blocked(vm, txn, store, layer, base, txi, step(a, st, src), (fuel - 1) as nat);
            },
        }
    }
}

/// The locations of a list as a set.
pub open spec fn location_set(locs: Seq<Location>) -> Set<Location> {
    Set::new(|loc: Location| locs.contains(loc))
}

proof fn lemma_location_set_push(locs: Seq<Location>, loc: Location)
    ensures
        location_set(locs.push(loc)) =~= location_set(locs).insert(loc),
{
    assert forall|l: Location| location_set(locs.push(loc)).contains(l) <==> location_set(
        locs,
    ).insert(loc).contains(l) by {
        if locs.push(loc).contains(l) {
            let i = choose|i: int| 0 <= i < locs.push(loc).len() && locs.push(loc)[i] == l;
            if i < locs.len() {
                assert(locs[i] == l);
            }
        }
        if locs.contains(l) {
            let i = choose|i: int| 0 <= i < locs.len() && locs[i] == l;
            assert(locs.push(loc)[i] == l);
        }
        if l == loc {
            assert(locs.push(loc)[locs.len() as int] == l);
        }
    }
}

/// The code locations of the first `n` entries, by those of the first
/// `n - 1`.
proof fn lemma_module_locations_grow(entries: Seq<(Location, Option<Seq<u8>>)>, n: int)
    requires
        0 <= n <= entries.len(),
    ensures
        n == 0 ==> module_locations(entries.subrange(0, n)) =~= Set::<Location>::empty(),
        n > 0 ==> module_locations(entries.subrange(0, n)) =~= if entries[n - 1].0.module {
            module_locations(entries.subrange(0, n - 1)).insert(entries[n - 1].0)
        } else {
            module_locations(entries.subrange(0, n - 1))
        },
{
    if n > 0 {
        let small = entries.subrange(0, n - 1);
        let big = entries.subrange(0, n);
        let last = entries[n - 1].0;
        assert forall|l: Location| module_locations(big).contains(l) <==> (module_locations(
            small,
        ).contains(l) || (last.module && l == last)) by {
            if module_locations(big).contains(l) {
                let k = choose|k: int| 0 <= k < big.len() && (#[trigger] big[k]).0 == l;
                if k < n - 1 {
                    assert(small[k].0 == l);
                }
            }
            if module_locations(small).contains(l) {
                let k = choose|k: int| 0 <= k < small.len() && (#[trigger] small[k]).0 == l;
                assert(big[k].0 == l);
            }
            if last.module && l == last {
                assert(big[n - 1].0 == l);
            }
        }
    }
}

proof fn lemma_writes_view_push(s: Seq<WriteEntry>, e: WriteEntry)
    ensures
        writes_view(s.push(e)) =~= writes_view(s).push((e.loc, opt_view(e.value))),
{
}

proof fn lemma_output_writes_push(s: Seq<OutputWrite>, e: OutputWrite)
    ensures
        output_writes_view(s.push(e)) =~= output_writes_view(s).push((e.loc, e.op@)),
{
}

fn contains_location(locs: &Vec<Location>, loc: Location) -> (found: bool)
    ensures
        found == locs@.contains(loc),
{
    let mut i: usize = 0;
    while i < locs.len()
        invariant
            0 <= i <= locs.len(),
            forall|j: int| 0 <= j < i ==> locs@[j] != loc,
        decreases locs.len() - i,
    {
        if locs[i] == loc {
            return true;
        }
        i += 1;
    }
    false
}

/// The commit pipeline: the committed values, the running gas total, the
/// code locations touched so far, and the outputs emitted so far. It commits
/// transactions strictly in the order of their indices.
pub struct CommitState {
    committed: MultiVersionStore,
    gas: u64,
    stopped: bool,
    module_reads: Vec<Location>,
    module_writes: Vec<Location>,
    outputs: Vec<TransactionOutput>,
    error: Option<ExecutionError>,
    overlay: Ghost<Overlay>,
}

impl View for CommitState {
    type V = SerialState;

    closed spec fn view(&self) -> SerialState {
        SerialState {
            overlay: self.overlay@,
            gas: self.gas,
            stopped: self.stopped,
            module_reads: location_set(self.module_reads@),
            module_writes: location_set(self.module_writes@),
            outputs: outputs_view(self.outputs@),
            error: self.error,
        }
    }
}

impl CommitState {
    /// The pipeline's invariant: the store of committed values holds the
    /// overlay.
    pub closed spec fn wf(&self) -> bool {
        &&& self.committed.wf()
        &&& models(self.committed@, self.overlay@)
    }

    /// The source that the next transaction reads in serial execution.
    pub open spec fn source<S: StateView>(&self, base: &S) -> Source {
        overlay_source(self@.overlay, base_source(base))
    }

    /// The pipeline before the first commit.
    pub fn new() -> (c: Self)
        ensures
            c.wf(),
            c@ == initial_state(),
    {
        let c = CommitState {
            committed: MultiVersionStore::new(),
            gas: 0,
            stopped: false,
            module_reads: Vec::new(),
            module_writes: Vec::new(),
            outputs: Vec::new(),
            error: None,
            overlay: Ghost(Map::empty()),
        };
        assert(c@.module_reads =~= Set::<Location>::empty());
        assert(c@.module_writes =~= Set::<Location>::empty());
        assert(c@.outputs =~= Seq::<crate::output::OutputView>::empty());
        c
    }

    /// Whether the rest of the block is skipped.
    pub fn is_stopped(&self) -> (b: bool)
        ensures
            b == self@.stopped,
    {
        self.stopped
    }

    /// Whether the output emitted last has the status
    /// `DeltaApplicationFailure`.
    pub fn last_failed_on_delta(&self) -> (b: bool)
        ensures
            b == (self@.outputs.len() > 0 && self@.outputs.last().status
                == TransactionStatus::DeltaApplicationFailure),
    {
        let n = self.outputs.len();
        if n == 0 {
            false
        } else {
            assert(self@.outputs.last() == self.outputs@[n - 1]@);
            match self.outputs[n - 1].status {
                TransactionStatus::DeltaApplicationFailure => true,
                _ => false,
            }
        }
    }

    /// Whether the output emitted last has the status `SkipRest`.
    pub fn last_asked_to_skip(&self) -> (b: bool)
        ensures
            b == (self@.outputs.len() > 0 && self@.outputs.last().status == TransactionStatus::SkipRest),
    {
        let n = self.outputs.len();
        if n == 0 {
            false
        } else {
            assert(self@.outputs.last() == self.outputs@[n - 1]@);
            match self.outputs[n - 1].status {
                TransactionStatus::SkipRest => true,
                _ => false,
            }
        }
    }

    /// The error that ended the block's execution, if any.
    pub fn error(&self) -> (e: Option<ExecutionError>)
        ensures
            e == self@.error,
    {
        self.error
    }

    /// The number of outputs emitted so far.
    pub fn committed_count(&self) -> (n: usize)
        ensures
            n == self@.outputs.len(),
    {
        self.outputs.len()
    }

    /// Hands out the outputs.
    pub fn into_outputs(self) -> (out: Vec<TransactionOutput>)
        ensures
            outputs_view(out@) == self@.outputs,
    {
        self.outputs
    }

    /// The committed value of `loc`: what the last committed writer left
    /// there, or what the base state holds.
    pub fn committed_value<S: StateView>(&self, base: &S, loc: Location) -> (v: Option<Vec<u8>>)
        requires
            self.wf(),
        ensures
            opt_view(v) == self.source(base)(loc),
    {
        proof {
            lemma_committed_source(self.committed@, self.overlay@, base_source(base), loc);
            assert(predecessor(self.committed@, loc, 0) == None::<nat>);
        }
        match self.committed.read(loc, 1) {
            ReadResult::Value(v, _) => v,
            ReadResult::Dependency(_) => None,
            ReadResult::Storage => base.get(&loc),
        }
    }

    /// The final validation of a read set: whether every value that the
    /// incarnation saw is the committed value of its location now.
    pub fn reads_are_current<S: StateView>(&self, base: &S, reads: &Vec<ReadEntry>) -> (ok: bool)
        requires
            self.wf(),
        ensures
            ok == source_agrees(self.source(base), reads_view(reads@), 0),
    {
        let ghost src = self.source(base);
        let ghost rv = reads_view(reads@);
        let mut k: usize = 0;
        while k < reads.len()
            invariant
                self.wf(),
                0 <= k <= reads.len(),
                src == self.source(base),
                rv == reads_view(reads@),
                forall|j: int| 0 <= j < k ==> src((#[trigger] rv[j]).0) == rv[j].1,
            decreases reads.len() - k,
        {
            let now = self.committed_value(base, reads[k].loc);
            if !opt_bytes_eq(&now, &reads[k].value) {
                assert(src(rv[k as int].0) != rv[k as int].1);
                return false;
            }
            k += 1;
        }
        true
    }

    /// Executes a transaction on the committed values alone.
    pub fn execute_on_committed<V: VmAdapter, S: StateView>(
        &self,
        vm: &V,
        txn: &V::Txn,
        base: &S,
        inc: Incarnation,
        max_steps: usize,
    ) -> (rec: TxnRecord)
        requires
            self.wf(),
        ensures
            rec.outcome() == run(vm, txn, self.source(base), max_steps as nat),
            rec.incarnation == inc,
    {
        let layer = DeltaLayer::new();
        let ghost src = view_source(self.committed@, layer@, base_source(base), 1);
        proof {
            assert forall|loc: Location| !(#[trigger] route(self.committed@, layer@, loc, 1)
                is Dependency) by {
                lemma_committed_source(self.committed@, self.overlay@, base_source(base), loc);
            }
            assert(src =~= self.source(base)) by {
                assert forall|loc: Location| #[trigger] src(loc) == self.source(base)(loc) by {
                    lemma_committed_source(self.committed@, self.overlay@, base_source(base), loc);
                }
            }
            lemma_never_blocked(
                vm,
                txn,
                self.committed@,
                layer@,
                base_source(base),
                1,
                empty_run(),
                max_steps as nat,
            );
            lemma_execute_is_run(
                vm,
                txn,
                self.committed@,
                layer@,
                base_source(base),
                1,
                empty_run(),
                max_steps as nat,
            );
        }
        match execute_incarnation(vm, txn, &self.committed, &layer, base, 1, inc, max_steps) {
            Execution::Done(rec) => rec,
            Execution::Blocked { .. } => {
                proof {
                    assert(false);
                }
                TxnRecord {
                    incarnation: inc,
                    end: RunEnd::Fatal,
                    run: Run {
                        responses: Vec::new(),
                        reads: Vec::new(),
                        writes: Vec::new(),
                        deltas: Vec::new(),
                        events: Vec::new(),
                    },
                }
            },
        }
    }

    /// Emits the output of a transaction that is skipped.
    pub fn skip(&mut self)
        requires
            old(self).wf(),
        ensures
            final(self).wf(),
            final(self)@ == (SerialState {
                outputs: old(self)@.outputs.push(crate::output::skipped_output()),
                ..old(self)@
            }),
    {
        self.outputs.push(
            TransactionOutput {
                write_set: Vec::new(),
                events: Vec::new(),
                gas_used: 0,
                status: TransactionStatus::Retry,
            },
        );
        assert(self@.outputs =~= old(self)@.outputs.push(crate::output::skipped_output())) by {
            assert(self.outputs@.last()@ =~= crate::output::skipped_output());
        }
    }

    fn guard_trips(&self, run: &Run) -> (conflict: bool)
        ensures
            conflict == module_conflict(self@, run@),
    {
        let ghost rv = reads_view(run.reads@);
        let ghost wv = writes_view(run.writes@);
        let mut k: usize = 0;
        while k < run.reads.len()
            invariant
                0 <= k <= run.reads.len(),
                rv == reads_view(run.reads@),
                forall|j: int|
                    0 <= j < k ==> !((#[trigger] rv[j]).0.module && self.module_writes@.contains(
                        rv[j].0,
                    )),
            decreases run.reads.len() - k,
        {
            let loc = run.reads[k].loc;
            if loc.is_module() && contains_location(&self.module_writes, loc) {
                assert(rv[k as int].0 == loc);
                assert(module_locations(rv).contains(loc) && self@.module_writes.contains(loc));
                return true;
            }
            k += 1;
        }
        assert(module_locations(rv).disjoint(self@.module_writes)) by {
            assert forall|loc: Location|
                module_locations(rv).contains(loc) implies !self@.module_writes.contains(loc) by {
                let j = choose|j: int| 0 <= j < rv.len() && (#[trigger] rv[j]).0 == loc;
                assert(rv[j].0 == loc);
            }
        }
        let mut k: usize = 0;
        while k < run.writes.len()
            invariant
                0 <= k <= run.writes.len(),
                wv == writes_view(run.writes@),
                forall|j: int|
                    0 <= j < k ==> !((#[trigger] wv[j]).0.module && self.module_reads@.contains(
                        wv[j].0,
                    )),
            decreases run.writes.len() - k,
        {
            let loc = run.writes[k].loc;
            if loc.is_module() && contains_location(&self.module_reads, loc) {
                assert(wv[k as int].0 == loc);
                assert(module_locations(wv).contains(loc) && self@.module_reads.contains(loc));
                return true;
            }
            k += 1;
        }
        assert(module_locations(wv).disjoint(self@.module_reads)) by {
            assert forall|loc: Location|
                module_locations(wv).contains(loc) implies !self@.module_reads.contains(loc) by {
                let j = choose|j: int| 0 <= j < wv.len() && (#[trigger] wv[j]).0 == loc;
                assert(wv[j].0 == loc);
            }
        }
        false
    }

    fn note_modules(&mut self, run: &Run)
        requires
            old(self).wf(),
        ensures
            final(self).wf(),
            final(self)@ == (SerialState {
                module_reads: old(self)@.module_reads.union(
                    module_locations(reads_view(run.reads@)),
                ),
                module_writes: old(self)@.module_writes.union(
                    module_locations(writes_view(run.writes@)),
                ),
                ..old(self)@
            }),
    {
        let ghost rv = reads_view(run.reads@);
        let ghost wv = writes_view(run.writes@);
        let mut k: usize = 0;
        proof {
            lemma_module_locations_grow(rv, 0);
        }
        while k < run.reads.len()
            invariant
                0 <= k <= run.reads.len(),
                rv == reads_view(run.reads@),
                self.wf(),
                self.committed == old(self).committed,
                self.overlay == old(self).overlay,
                self.gas == old(self).gas,
                self.stopped == old(self).stopped,
                self.outputs == old(self).outputs,
                self.error == old(self).error,
                self.module_writes == old(self).module_writes,
                location_set(self.module_reads@) == old(self)@.module_reads.union(
                    module_locations(rv.subrange(0, k as int)),
                ),
            decreases run.reads.len() - k,
        {
            let loc = run.reads[k].loc;
            proof {
                lemma_module_locations_grow(rv, k as int + 1);
                lemma_location_set_push(self.module_reads@, loc);
                assert(rv[k as int].0 == loc);
            }
            if loc.is_module() {
                self.module_reads.push(loc);
            }
            k += 1;
            assert(location_set(self.module_reads@) =~= old(self)@.module_reads.union(
                module_locations(rv.subrange(0, k as int)),
            ));
        }
        assert(rv.subrange(0, rv.len() as int) =~= rv);
        let mut k: usize = 0;
        proof {
            lemma_module_locations_grow(wv, 0);
        }
        while k < run.writes.len()
            invariant
                0 <= k <= run.writes.len(),
                wv == writes_view(run.writes@),
                self.wf(),
                self.committed == old(self).committed,
                self.overlay == old(self).overlay,
                self.gas == old(self).gas,
                self.stopped == old(self).stopped,
                self.outputs == old(self).outputs,
                self.error == old(self).error,
                location_set(self.module_reads@) == old(self)@.module_reads.union(
                    module_locations(rv),
                ),
                location_set(self.module_writes@) == old(self)@.module_writes.union(
                    module_locations(wv.subrange(0, k as int)),
                ),
            decreases run.writes.len() - k,
        {
            let loc = run.writes[k].loc;
            proof {
                lemma_module_locations_grow(wv, k as int + 1);
                lemma_location_set_push(self.module_writes@, loc);
                assert(wv[k as int].0 == loc);
            }
            if loc.is_module() {
                self.module_writes.push(loc);
            }
            k += 1;
            assert(location_set(self.module_writes@) =~= old(self)@.module_writes.union(
                module_locations(wv.subrange(0, k as int)),
            ));
        }
        assert(wv.subrange(0, wv.len() as int) =~= wv);
    }

    /// Resolves the deltas of a run against the committed values and the
    /// run's own writes, without changing anything.
    pub fn resolve<S: StateView>(&self, base: &S, run: &Run) -> (r: Option<Vec<i128>>)
        requires
            self.wf(),
        ensures
            match r {
                Some(vals) => resolve_deltas(self.source(base), run@.writes, run@.deltas) == Some(
                    vals@,
                ) && vals@.len() == run.deltas@.len(),
                None => resolve_deltas(self.source(base), run@.writes, run@.deltas).is_none(),
            },
    {
        let ghost src = self.source(base);
        let ghost wv = run@.writes;
        let ghost dv = run@.deltas;
        let mut pending: Vec<WriteEntry> = Vec::new();
        let mut j: usize = 0;
        while j < run.writes.len()
            invariant
                0 <= j <= run.writes.len(),
                wv == writes_view(run.writes@),
                writes_view(pending@) == wv.subrange(0, j as int),
            decreases run.writes.len() - j,
        {
            let entry = WriteEntry {
                loc: run.writes[j].loc,
                value: clone_opt_bytes(&run.writes[j].value),
            };
            proof {
                lemma_writes_view_push(pending@, entry);
                assert(wv[j as int] == (entry.loc, opt_view(entry.value)));
            }
            pending.push(entry);
            j += 1;
            assert(writes_view(pending@) =~= wv.subrange(0, j as int));
        }
        assert(wv.subrange(0, wv.len() as int) =~= wv);
        let mut vals: Vec<i128> = Vec::new();
        let mut k: usize = 0;
        assert(dv.subrange(0, 0) =~= Seq::<(Location, DeltaOp)>::empty());
        assert(writes_view(pending@) =~= pending_after(wv, dv.subrange(0, 0), vals@));
        while k < run.deltas.len()
            invariant
                self.wf(),
                0 <= k <= run.deltas.len(),
                src == self.source(base),
                wv == run@.writes,
                dv == run@.deltas,
                vals@.len() == k,
                resolve_deltas(src, wv, dv.subrange(0, k as int)) == Some(vals@),
                writes_view(pending@) == pending_after(wv, dv.subrange(0, k as int), vals@),
            decreases run.deltas.len() - k,
        {
            let (loc, op) = run.deltas[k];
            let ghost prefix = dv.subrange(0, k as int);
            let ghost next = dv.subrange(0, k as int + 1);
            proof {
                assert(next.drop_last() =~= prefix);
                assert(next.last() == dv[k as int]);
            }
            let stored = match find_own_write(&pending, loc) {
                Some(i) => clone_opt_bytes(&pending[i].value),
                None => self.committed_value(base, loc),
            };
            assert(opt_view(stored) == pending_value(writes_view(pending@), loc, src));
            let current = match decode_counter(&stored) {
                Some(c) => c,
                None => {
                    proof {
                        lemma_resolve_fails(src, wv, dv, k as int + 1);
                    }
                    return None;
                },
            };
            let v = match op.apply(current) {
                Some(v) => v,
                None => {
                    proof {
                        lemma_resolve_fails(src, wv, dv, k as int + 1);
                    }
                    return None;
                },
            };
            let entry = WriteEntry { loc, value: Some(encode_counter(v)) };
            proof {
                lemma_writes_view_push(pending@, entry);
            }
            vals.push(v);
            pending.push(entry);
            k += 1;
            assert(writes_view(pending@) =~= pending_after(wv, next, vals@));
        }
        assert(dv.subrange(0, dv.len() as int) =~= dv);
        Some(vals)
    }

    /// Applies the writes of a committed run: its plain writes, then the
    /// counters that its deltas resolved to.
    fn apply_committed(
        &mut self,
        writes: &Vec<WriteEntry>,
        deltas: &Vec<(Location, DeltaOp)>,
        vals: &Vec<i128>,
    )
        requires
            old(self).wf(),
            vals@.len() == deltas@.len(),
        ensures
            final(self).wf(),
            final(self)@ == (SerialState {
                overlay: apply_writes(
                    old(self)@.overlay,
                    pending_after(writes_view(writes@), deltas@, vals@),
                ),
                ..old(self)@
            }),
    {
        let ghost wv = writes_view(writes@);
        let ghost all = pending_after(wv, deltas@, vals@);
        let mut j: usize = 0;
        assert(all.subrange(0, 0) =~= Seq::<(Location, Option<Seq<u8>>)>::empty());
        while j < writes.len()
            invariant
                0 <= j <= writes.len(),
                wv == writes_view(writes@),
                all == pending_after(wv, deltas@, vals@),
                self.wf(),
                self.gas == old(self).gas,
                self.stopped == old(self).stopped,
                self.outputs == old(self).outputs,
                self.error == old(self).error,
                self.module_reads == old(self).module_reads,
                self.module_writes == old(self).module_writes,
                self.overlay@ == apply_writes(old(self).overlay@, all.subrange(0, j as int)),
            decreases writes.len() - j,
        {
            let loc = writes[j].loc;
            let value = clone_opt_bytes(&writes[j].value);
            proof {
                let next = all.subrange(0, j as int + 1);
                assert(next.drop_last() =~= all.subrange(0, j as int));
                assert(next.last() == (loc, opt_view(value)));
            }
            self.put(loc, value);
            j += 1;
        }
        let mut k: usize = 0;
        while k < deltas.len()
            invariant
                0 <= k <= deltas.len(),
                vals@.len() == deltas@.len(),
                wv == writes_view(writes@),
                all == pending_after(wv, deltas@, vals@),
                self.wf(),
                self.gas == old(self).gas,
                self.stopped == old(self).stopped,
                self.outputs == old(self).outputs,
                self.error == old(self).error,
                self.module_reads == old(self).module_reads,
                self.module_writes == old(self).module_writes,
                self.overlay@ == apply_writes(
                    old(self).overlay@,
                    all.subrange(0, wv.len() + k as int),
                ),
            decreases deltas.len() - k,
        {
            let loc = deltas[k].0;
            let value = Some(encode_counter(vals[k]));
            proof {
                let next = all.subrange(0, wv.len() + k as int + 1);
                assert(next.drop_last() =~= all.subrange(0, wv.len() + k as int));
                assert(next.last() == (loc, opt_view(value)));
            }
            self.put(loc, value);
            k += 1;
        }
        assert(all.subrange(0, all.len() as int) =~= all);
    }

    fn put(&mut self, loc: Location, value: Option<Vec<u8>>)
        requires
            old(self).wf(),
        ensures
            final(self).wf(),
            final(self).overlay@ == old(self).overlay@.insert(loc, opt_view(value)),
            final(self).gas == old(self).gas,
            final(self).stopped == old(self).stopped,
            final(self).outputs == old(self).outputs,
            final(self).error == old(self).error,
            final(self).module_reads == old(self).module_reads,
            final(self).module_writes == old(self).module_writes,
    {
        let ghost v = opt_view(value);
        self.committed.write(loc, 0, 0, value);
        self.overlay = Ghost(self.overlay@.insert(loc, v));
    }

    /// Commits a run as the next transaction of the block: checks the
    /// module-access guard, resolves the deltas, applies the writes, adds the
    /// gas to the running total and stops the block where the total exceeds
    /// the limit or the transaction asks to skip the rest, and emits the
    /// output.
    pub fn commit_record<S: StateView>(
        &mut self,
        base: &S,
        cfg: &ExecutorConfig,
        idx: usize,
        rec: &TxnRecord,
    ) -> (applied: bool)
        requires
            old(self).wf(),
            old(self)@.error.is_none(),
        ensures
            final(self).wf(),
            final(self)@ == commit_run(
                old(self)@,
                old(self).source(base),
                *cfg,
                idx as nat,
                rec.outcome(),
            ),
            applied == applies(old(self)@, old(self).source(base), rec.outcome()),
    {
        let ghost s0 = self@;
        let ghost src = self.source(base);
        let ghost o = rec.outcome();
        let (status, gas) = match rec.end {
            RunEnd::Fatal => {
                self.error = Some(ExecutionError::FatalVMError(idx));
                return false;
            },
            RunEnd::Finished(status, gas) => (status, gas),
        };
        if self.guard_trips(&rec.run) {
            self.error = Some(ExecutionError::ModulePathReadWrite);
            return false;
        }
        let resolved = self.resolve(base, &rec.run);
        self.note_modules(&rec.run);
        let total = self.gas.saturating_add(gas);
        let over = match cfg.gas_limit {
            Some(limit) => total > limit,
            None => false,
        };
        self.gas = total;
        match resolved {
            None => {
                self.stopped = over;
                self.outputs.push(
                    TransactionOutput {
                        write_set: Vec::new(),
                        events: Vec::new(),
                        gas_used: gas,
                        status: TransactionStatus::DeltaApplicationFailure,
                    },
                );
                assert(self@.outputs =~= commit_run(s0, src, *cfg, idx as nat, o).outputs) by {
                    assert(self.outputs@.last()@ =~= commit_run(
                        s0,
                        src,
                        *cfg,
                        idx as nat,
                        o,
                    ).outputs.last());
                }
                false
            },
            Some(vals) => {
                self.apply_committed(&rec.run.writes, &rec.run.deltas, &vals);
                self.stopped = over || status == TransactionStatus::SkipRest;
                let out = build_output(&rec.run, &vals, gas, status);
                self.outputs.push(out);
                assert(self@.outputs =~= commit_run(s0, src, *cfg, idx as nat, o).outputs);
                true
            },
        }
    }
}

/// A prefix of the deltas that cannot be resolved makes the whole list fail.
proof fn lemma_resolve_fails(
    src: Source,
    writes: Seq<(Location, Option<Seq<u8>>)>,
    deltas: Seq<(Location, DeltaOp)>,
    n: int,
)
    requires
        0 <= n <= deltas.len(),
        resolve_deltas(src, writes, deltas.subrange(0, n)).is_none(),
    ensures
        resolve_deltas(src, writes, deltas).is_none(),
    decreases deltas.len() - n,
{
    if n < deltas.len() {
        assert(deltas.subrange(0, n + 1).drop_last() =~= deltas.subrange(0, n));
        lemma_resolve_fails(src, writes, deltas, n + 1);
    } else {
        assert(deltas.subrange(0, n) =~= deltas);
    }
}

/// Copies a list of events.
pub fn clone_events(events: &Vec<Vec<u8>>) -> (copy: Vec<Vec<u8>>)
    ensures
        crate::view::events_view(copy@) == crate::view::events_view(events@),
{
    let mut copy: Vec<Vec<u8>> = Vec::new();
    let mut i: usize = 0;
    while i < events.len()
        invariant
            0 <= i <= events.len(),
            copy@.len() == i,
            forall|j: int| 0 <= j < i ==> (#[trigger] copy@[j])@ == events@[j]@,
        decreases events.len() - i,
    {
        copy.push(clone_bytes(&events[i]));
        i += 1;
    }
    assert(crate::view::events_view(copy@) =~= crate::view::events_view(events@));
    copy
}

/// Builds the output of a committed run from its write set, the counters its
/// deltas resolved to, its events, its gas and its status.
pub fn build_output(run: &Run, vals: &Vec<i128>, gas: u64, status: TransactionStatus) -> (out:
    TransactionOutput)
    requires
        vals@.len() == run.deltas@.len(),
    ensures
        out@ == (crate::output::OutputView {
            write_set: plain_outputs(run@.writes) + delta_outputs(run@.deltas, vals@),
            events: run@.events,
            gas_used: gas,
            status,
        }),
{
    let writes = &run.writes;
    let deltas = &run.deltas;
    let events = clone_events(&run.events);
    let ghost wv = writes_view(writes@);
    let mut write_set: Vec<OutputWrite> = Vec::new();
    let mut j: usize = 0;
    while j < writes.len()
        invariant
            0 <= j <= writes.len(),
            wv == writes_view(writes@),
            output_writes_view(write_set@) == plain_outputs(wv).subrange(0, j as int),
        decreases writes.len() - j,
    {
        let op = match &writes[j].value {
            Some(b) => WriteOp::Value(clone_bytes(b)),
            None => WriteOp::Delete,
        };
        let entry = OutputWrite { loc: writes[j].loc, op };
        proof {
            lemma_output_writes_push(write_set@, entry);
            assert(plain_outputs(wv)[j as int] == (entry.loc, entry.op@));
        }
        write_set.push(entry);
        j += 1;
        assert(output_writes_view(write_set@) =~= plain_outputs(wv).subrange(0, j as int));
    }
    assert(plain_outputs(wv).subrange(0, wv.len() as int) =~= plain_outputs(wv));
    let mut k: usize = 0;
    while k < deltas.len()
        invariant
            0 <= k <= deltas.len(),
            vals@.len() == deltas@.len(),
            output_writes_view(write_set@) == plain_outputs(wv) + delta_outputs(
                deltas@,
                vals@,
            ).subrange(0, k as int),
        decreases deltas.len() - k,
    {
        let entry = OutputWrite { loc: deltas[k].0, op: WriteOp::MaterializedDelta(vals[k]) };
        proof {
            lemma_output_writes_push(write_set@, entry);
        }
        write_set.push(entry);
        k += 1;
        assert(output_writes_view(write_set@) =~= plain_outputs(wv) + delta_outputs(
            deltas@,
            vals@,
        ).subrange(0, k as int));
    }
    assert(delta_outputs(deltas@, vals@).subrange(0, vals@.len() as int) =~= delta_outputs(
        deltas@,
        vals@,
    ));
    TransactionOutput { write_set, events, gas_used: gas, status }
}

} // verus!
