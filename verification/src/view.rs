use crate::delta::DeltaOp;
use crate::delta_layer::{DeltaLayer, LayerView};
use crate::mvds::{predecessor, spec_read, MultiVersionStore, ReadResult, ReadResultView, StoreView};
use crate::types::{clone_opt_bytes, opt_view, Incarnation, Location, TxnIndex, Version};
use crate::vm::{
    empty_run, find_write, put_write, responses_view, run_from, step, Action, ActionView,
    OutcomeView, RunEnd, RunView, Source, StateView, VmAdapter,
};
use vstd::prelude::*;

verus! {

/// Where a read found its value.
#[derive(Clone, Copy, Debug, PartialEq, Eq, Structural)]
pub enum Observation {
    /// No transaction below the reader had written: the base state answered.
    Storage,
    /// The write of this version answered.
    Versioned(Version),
}

/// One entry of a read set: the location, where the value came from, and the
/// value itself.
#[derive(Debug)]
pub struct ReadEntry {
    pub loc: Location,
    pub observation: Observation,
    pub value: Option<Vec<u8>>,
}

/// One entry of a write set; `None` deletes the location.
#[derive(Debug)]
pub struct WriteEntry {
    pub loc: Location,
    pub value: Option<Vec<u8>>,
}

/// The locations and values of a read set.
pub open spec fn reads_view(r: Seq<ReadEntry>) -> Seq<(Location, Option<Seq<u8>>)> {
    Seq::new(r.len(), |i: int| (r[i].loc, opt_view(r[i].value)))
}

/// The locations and values of a write set.
pub open spec fn writes_view(w: Seq<WriteEntry>) -> Seq<(Location, Option<Seq<u8>>)> {
    Seq::new(w.len(), |i: int| (w[i].loc, opt_view(w[i].value)))
}

/// The contents of a list of events.
pub open spec fn events_view(e: Seq<Vec<u8>>) -> Seq<Seq<u8>> {
    Seq::new(e.len(), |i: int| e[i]@)
}

/// What one incarnation has gathered: its responses, read set, write set,
/// delta set and events.
#[derive(Debug)]
pub struct Run {
    pub responses: Vec<Option<Vec<u8>>>,
    pub reads: Vec<ReadEntry>,
    pub writes: Vec<WriteEntry>,
    pub deltas: Vec<(Location, DeltaOp)>,
    pub events: Vec<Vec<u8>>,
}

impl View for Run {
    type V = RunView;

    open spec fn view(&self) -> RunView {
        RunView {
            responses: responses_view(self.responses@),
            reads: reads_view(self.reads@),
            writes: writes_view(self.writes@),
            deltas: self.deltas@,
            events: events_view(self.events@),
        }
    }
}

/// The record that a completed incarnation leaves.
#[derive(Debug)]
pub struct TxnRecord {
    pub incarnation: Incarnation,
    pub end: RunEnd,
    pub run: Run,
}

impl TxnRecord {
    /// The run that the record describes.
    pub open spec fn outcome(&self) -> OutcomeView {
        OutcomeView { end: self.end, run: self.run@ }
    }
}

/// Where the versioned view sends a read of `loc` by the transaction at `txi`:
/// to the delta layer when the nearest writer below staged a delta there, which
/// makes the reader depend on that writer, and to the multi-version store
/// otherwise.
pub open spec fn route(store: StoreView, layer: LayerView, loc: Location, txi: nat) -> ReadResultView {
    let w = predecessor(store, loc, txi);
    let d = predecessor(layer, loc, txi);
    if d.is_some() && (w.is_none() || w.unwrap() <= d.unwrap()) {
        ReadResultView::Dependency(d.unwrap() as usize)
    } else {
        spec_read(store, loc, txi)
    }
}

/// The observation that a read makes, `None` where it meets a dependency.
pub open spec fn spec_observation(
    store: StoreView,
    layer: LayerView,
    loc: Location,
    txi: nat,
) -> Option<Observation> {
    match route(store, layer, loc, txi) {
        ReadResultView::Value(_, ver) => Some(Observation::Versioned(ver)),
        ReadResultView::Storage => Some(Observation::Storage),
        ReadResultView::Dependency(_) => None,
    }
}

/// The reads of the transaction at `txi` as a source: a value of the store
/// where a lower transaction wrote, and the base state where none did.
pub open spec fn view_source(store: StoreView, layer: LayerView, base: Source, txi: nat) -> Source {
    |loc: Location|
        match route(store, layer, loc, txi) {
            ReadResultView::Value(v, _) => v,
            ReadResultView::Storage => base(loc),
            ReadResultView::Dependency(_) => None,
        }
}

/// The base state as a source.
pub open spec fn base_source<S: StateView>(base: &S) -> Source {
    |loc: Location| base.spec_get(loc)
}

/// How an attempt to execute an incarnation ended.
pub enum ExecutionView {
    /// The machine ran to its end.
    Done(OutcomeView),
    /// A read of `loc` met the unfinished work of the transaction `on`.
    Blocked { loc: Location, on: TxnIndex },
}

/// Executes one incarnation through the versioned view: the run of the
/// machine up to its end, or up to the first read that meets a dependency.
pub open spec fn spec_execute<V: VmAdapter>(
    vm: &V,
    txn: &V::Txn,
    store: StoreView,
    layer: LayerView,
    base: Source,
    txi: nat,
    st: RunView,
    fuel: nat,
) -> ExecutionView
    decreases fuel,
{
    let src = view_source(store, layer, base, txi);
    if fuel == 0 {
        ExecutionView::Done(OutcomeView { end: RunEnd::Fatal, run: st })
    } else {
        match vm.spec_next(txn, st.responses) {
            ActionView::Finish(status, gas) => ExecutionView::Done(
                OutcomeView { end: RunEnd::Finished(status, gas), run: st },
            ),
            ActionView::Fatal => ExecutionView::Done(OutcomeView { end: RunEnd::Fatal, run: st }),
            ActionView::Read(loc) => {
                if find_write(st.writes, loc).is_none() && route(store, layer, loc, txi)
                    is Dependency {
                    ExecutionView::Blocked { loc, on: route(store, layer, loc, txi)->Dependency_0 }
                } else {
                    spec_execute(
                        vm,
                        txn,
                        store,
                        layer,
                        base,
                        txi,
                        step(ActionView::Read(loc), st, src),
                        (fuel - 1) as nat,
                    )
                }
            },
            a => spec_execute(vm, txn, store, layer, base, txi, step(a, st, src), (fuel - 1) as nat),
        }
    }
}

/// An execution that was not blocked is the run of the machine over the
/// view's source.
pub proof fn lemma_execute_is_run<V: VmAdapter>(
    vm: &V,
    txn: &V::Txn,
    store: StoreView,
    layer: LayerView,
    base: Source,
    txi: nat,
    st: RunView,
    fuel: nat,
)
    requires
        spec_execute(vm, txn, store, layer, base, txi, st, fuel) is Done,
    ensures
        spec_execute(vm, txn, store, layer, base, txi, st, fuel)->Done_0 == run_from(
            vm,
            txn,
            view_source(store, layer, base, txi),
            st,
            fuel,
        ),
    decreases fuel,
{
    if fuel > 0 {
        let src = view_source(store, layer, base, txi);
        let a = vm.spec_next(txn, st.responses);
        match a {
            ActionView::Finish(_, _) => {},
            ActionView::Fatal => {},
            _ => {
                lemma_execute_is_run(
                    vm,
                    txn,
                    store,
                    layer,
                    base,
                    txi,
                    step(a, st, src),
                    (fuel - 1) as nat,
                );
            },
        }
    }
}

/// What a routed read hands to the machine.
pub enum Routed {
    Value(Option<Vec<u8>>, Observation),
    Dependency(TxnIndex),
}

/// Reads `loc` for the transaction at `txi` by the routing rule.
pub fn routed_read<S: StateView>(
    store: &MultiVersionStore,
    layer: &DeltaLayer,
    base: &S,
    loc: Location,
    txi: TxnIndex,
) -> (r: Routed)
    requires
        store.wf(),
        layer.wf(),
    ensures
        match r {
            Routed::Value(v, obs) => spec_observation(store@, layer@, loc, txi as nat) == Some(obs)
                && opt_view(v) == view_source(store@, layer@, base_source(base), txi as nat)(loc),
            Routed::Dependency(on) => route(store@, layer@, loc, txi as nat)
                == ReadResultView::Dependency(on),
        },
{
    let staged = layer.read_delta(loc, txi);
    let found = store.read(loc, txi);
    proof {
        crate::mvds::lemma_predecessor_sound(store@, loc, txi as nat);
        crate::mvds::lemma_predecessor_sound(layer@, loc, txi as nat);
    }
    match staged.latest {
        Some(d) => {
            let nearest = match &found {
                ReadResult::Value(_, ver) => ver.txn_idx <= d,
                ReadResult::Dependency(w) => *w <= d,
                ReadResult::Storage => true,
            };
            if nearest {
                return Routed::Dependency(d);
            }
        },
        None => {},
    }
    match found {
        ReadResult::Value(v, ver) => Routed::Value(v, Observation::Versioned(ver)),
        ReadResult::Dependency(w) => Routed::Dependency(w),
        ReadResult::Storage => Routed::Value(base.get(&loc), Observation::Storage),
    }
}

/// The position of the transaction's own last write to `loc`.
pub fn find_own_write(writes: &Vec<WriteEntry>, loc: Location) -> (r: Option<usize>)
    ensures
        match r {
            Some(i) => find_write(writes_view(writes@), loc) == Some(i as int) && i < writes.len(),
            None => find_write(writes_view(writes@), loc).is_none(),
        },
{
    let ghost wv = writes_view(writes@);
    let mut i: usize = writes.len();
    assert(wv.subrange(0, i as int) =~= wv);
    while i > 0
        invariant
            0 <= i <= writes.len(),
            wv == writes_view(writes@),
            find_write(wv, loc) == find_write(wv.subrange(0, i as int), loc),
        decreases i,
    {
        let ghost prefix = wv.subrange(0, i as int);
        assert(prefix.last() == wv[i as int - 1]);
        if writes[i - 1].loc == loc {
            return Some(i - 1);
        }
        assert(prefix.drop_last() =~= wv.subrange(0, i as int - 1));
        i -= 1;
    }
    None
}

/// How an attempt to execute an incarnation ended.
pub enum Execution {
    Done(TxnRecord),
    Blocked { loc: Location, on: TxnIndex },
}

impl View for Execution {
    type V = ExecutionView;

    open spec fn view(&self) -> ExecutionView {
        match *self {
            Execution::Done(rec) => ExecutionView::Done(rec.outcome()),
            Execution::Blocked { loc, on } => ExecutionView::Blocked { loc, on },
        }
    }
}

/// Whether every entry of a read set carries the observation that a read of
/// its location makes now.
pub open spec fn read_set_valid(
    store: StoreView,
    layer: LayerView,
    reads: Seq<ReadEntry>,
    txi: nat,
) -> bool {
    forall|k: int|
        0 <= k < reads.len() ==> spec_observation(store, layer, (#[trigger] reads[k]).loc, txi)
            == Some(reads[k].observation)
}

/// The versioned view of one incarnation: the façade through which the
/// machine reads and writes. A read goes to the write buffer of the incarnation
/// first, then to the delta layer and the multi-version store, and to the base
/// state at last; what leaves the incarnation is recorded in the read set.
/// Writes, deltas and events are buffered.
pub struct VersionedView<'a, S: StateView> {
    pub store: &'a MultiVersionStore,
    pub layer: &'a DeltaLayer,
    pub base: &'a S,
    pub txn_idx: TxnIndex,
    pub run: Run,
}

impl<'a, S: StateView> VersionedView<'a, S> {
    /// The view's invariant: the stores are valid, and every entry of the
    /// read set carries the observation that its location gives.
    pub open spec fn wf(&self) -> bool {
        &&& self.store.wf()
        &&& self.layer.wf()
        &&& read_set_valid(self.store@, self.layer@, self.run.reads@, self.txn_idx as nat)
    }

    /// The source that answers the reads that leave the incarnation.
    pub open spec fn source(&self) -> Source {
        view_source(self.store@, self.layer@, base_source(self.base), self.txn_idx as nat)
    }

    /// The view of an incarnation that has done nothing yet.
    pub fn new(
        store: &'a MultiVersionStore,
        layer: &'a DeltaLayer,
        base: &'a S,
        txn_idx: TxnIndex,
    ) -> (view: Self)
        requires
            store.wf(),
            layer.wf(),
        ensures
            view.wf(),
            view.store == store,
            view.layer == layer,
            view.base == base,
            view.txn_idx == txn_idx,
            view.run@ == empty_run(),
    {
        let run = Run {
            responses: Vec::new(),
            reads: Vec::new(),
            writes: Vec::new(),
            deltas: Vec::new(),
            events: Vec::new(),
        };
        assert(run@ =~~= empty_run());
        VersionedView { store, layer, base, txn_idx, run }
    }

    /// Reads `loc`. A location that the incarnation wrote itself is answered
    /// from its write buffer. Any other read is routed, and recorded in the read
    /// set with its observation and its value. A read that meets a dependency
    /// returns the transaction it depends on, and leaves the view unchanged.
    pub fn read(&mut self, loc: Location) -> (r: Result<(), TxnIndex>)
        requires
            old(self).wf(),
        ensures
            final(self).wf(),
            final(self).store == old(self).store,
            final(self).layer == old(self).layer,
            final(self).base == old(self).base,
            final(self).txn_idx == old(self).txn_idx,
            match r {
                Ok(()) => final(self).run@ == step(
                    ActionView::Read(loc),
                    old(self).run@,
                    old(self).source(),
                ) && !(find_write(old(self).run@.writes, loc).is_none() && route(
                    old(self).store@,
                    old(self).layer@,
                    loc,
                    old(self).txn_idx as nat,
                ) is Dependency),
                Err(on) => final(self).run@ == old(self).run@ && find_write(
                    old(self).run@.writes,
                    loc,
                ).is_none() && route(
                    old(self).store@,
                    old(self).layer@,
                    loc,
                    old(self).txn_idx as nat,
                ) == ReadResultView::Dependency(on),
            },
    {
        let ghost before = self.run@;
        let ghost src = self.source();
        match find_own_write(&self.run.writes, loc) {
            Some(i) => {
                let value = clone_opt_bytes(&self.run.writes[i].value);
                self.run.responses.push(value);
                assert(self.run@ =~~= step(ActionView::Read(loc), before, src));
                Ok(())
            },
            None => {
                match routed_read(self.store, self.layer, self.base, loc, self.txn_idx) {
                    Routed::Dependency(on) => Err(on),
                    Routed::Value(value, observation) => {
                        let ghost old_reads = self.run.reads@;
                        self.run.responses.push(clone_opt_bytes(&value));
                        self.run.reads.push(ReadEntry { loc, observation, value });
                        assert(self.run@ =~~= step(ActionView::Read(loc), before, src));
                        assert forall|k: int| 0 <= k < self.run.reads@.len() implies spec_observation(
                            self.store@,
                            self.layer@,
                            (#[trigger] self.run.reads@[k]).loc,
                            self.txn_idx as nat,
                        ) == Some(self.run.reads@[k].observation) by {
                            if k < old_reads.len() {
                                assert(self.run.reads@[k] == old_reads[k]);
                            }
                        }
                        Ok(())
                    },
                }
            },
        }
    }

    /// Buffers a write of `value` to `loc`; `None` deletes the location. A
    /// second write to a location takes the place of the first.
    pub fn write(&mut self, loc: Location, value: Option<Vec<u8>>)
        requires
            old(self).wf(),
        ensures
            final(self).wf(),
            final(self).store == old(self).store,
            final(self).layer == old(self).layer,
            final(self).base == old(self).base,
            final(self).txn_idx == old(self).txn_idx,
            final(self).run@ == step(
                ActionView::Write(loc, opt_view(value)),
                old(self).run@,
                old(self).source(),
            ),
    {
        let ghost before = self.run@;
        let ghost v = opt_view(value);
        match find_own_write(&self.run.writes, loc) {
            Some(i) => {
                self.run.writes[i] = WriteEntry { loc, value };
            },
            None => {
                self.run.writes.push(WriteEntry { loc, value });
            },
        }
        self.run.responses.push(None);
        assert(self.run@.writes =~= put_write(before.writes, loc, v));
        assert(self.run@ =~~= step(ActionView::Write(loc, v), before, self.source()));
    }

    /// Buffers a delta on the counter at `loc`.
    pub fn delta(&mut self, loc: Location, op: DeltaOp)
        requires
            old(self).wf(),
        ensures
            final(self).wf(),
            final(self).store == old(self).store,
            final(self).layer == old(self).layer,
            final(self).base == old(self).base,
            final(self).txn_idx == old(self).txn_idx,
            final(self).run@ == step(ActionView::Delta(loc, op), old(self).run@, old(self).source()),
    {
        let ghost before = self.run@;
        self.run.deltas.push((loc, op));
        self.run.responses.push(None);
        assert(self.run@ =~~= step(ActionView::Delta(loc, op), before, self.source()));
    }

    /// Buffers an event.
    pub fn emit(&mut self, event: Vec<u8>)
        requires
            old(self).wf(),
        ensures
            final(self).wf(),
            final(self).store == old(self).store,
            final(self).layer == old(self).layer,
            final(self).base == old(self).base,
            final(self).txn_idx == old(self).txn_idx,
            final(self).run@ == step(ActionView::Emit(event@), old(self).run@, old(self).source()),
    {
        let ghost before = self.run@;
        let ghost e = event@;
        self.run.events.push(event);
        self.run.responses.push(None);
        assert(self.run@ =~~= step(ActionView::Emit(e), before, self.source()));
    }
}

/// Executes incarnation `inc` of the transaction at `txi`: asks the machine
/// for one action after another, at most `max_steps` of them, and answers
/// each through the versioned view. The record of a completed run carries the
/// read set with its observations, the write set, the delta set, the events,
/// the gas and the status.
pub fn execute_incarnation<V: VmAdapter, S: StateView>(
    vm: &V,
    txn: &V::Txn,
    store: &MultiVersionStore,
    layer: &DeltaLayer,
    base: &S,
    txi: TxnIndex,
    inc: Incarnation,
    max_steps: usize,
) -> (r: Execution)
    requires
        store.wf(),
        layer.wf(),
    ensures
        r@ == spec_execute(
            vm,
            txn,
            store@,
            layer@,
            base_source(base),
            txi as nat,
            empty_run(),
            max_steps as nat,
        ),
        match r {
            Execution::Done(rec) => rec.incarnation == inc && read_set_valid(
                store@,
                layer@,
                rec.run.reads@,
                txi as nat,
            ),
            Execution::Blocked { .. } => true,
        },
{
    let mut view = VersionedView::new(store, layer, base, txi);
    let ghost goal = spec_execute(
        vm,
        txn,
        store@,
        layer@,
        base_source(base),
        txi as nat,
        empty_run(),
        max_steps as nat,
    );
    let mut steps: usize = 0;
    while steps < max_steps
        invariant
            view.wf(),
            view.store == store,
            view.layer == layer,
            view.base == base,
            view.txn_idx == txi,
            steps <= max_steps,
            goal == spec_execute(
                vm,
                txn,
                store@,
                layer@,
                base_source(base),
                txi as nat,
                empty_run(),
                max_steps as nat,
            ),
            goal == spec_execute(
                vm,
                txn,
                store@,
                layer@,
                base_source(base),
                txi as nat,
                view.run@,
                (max_steps - steps) as nat,
            ),
        decreases max_steps - steps,
    {
        let action = vm.next(txn, &view.run.responses);
        match action {
            Action::Finish(status, gas) => {
                let VersionedView { store: _, layer: _, base: _, txn_idx: _, run } = view;
                return Execution::Done(
                    TxnRecord { incarnation: inc, end: RunEnd::Finished(status, gas), run },
                );
            },
            Action::Fatal => {
                let VersionedView { store: _, layer: _, base: _, txn_idx: _, run } = view;
                return Execution::Done(TxnRecord { incarnation: inc, end: RunEnd::Fatal, run });
            },
            Action::Read(loc) => {
                match view.read(loc) {
                    Ok(()) => {},
                    Err(on) => {
                        return Execution::Blocked { loc, on };
                    },
                }
            },
            Action::Write(loc, value) => {
                view.write(loc, value);
            },
            Action::Delta(loc, op) => {
                view.delta(loc, op);
            },
            Action::Emit(event) => {
                view.emit(event);
            },
        }
        steps += 1;
    }
    let VersionedView { store: _, layer: _, base: _, txn_idx: _, run } = view;
    Execution::Done(TxnRecord { incarnation: inc, end: RunEnd::Fatal, run })
}

/// Validates a read set: re-reads every location for the transaction at `txi`
/// and compares what is observed now with what was observed then. A storage
/// observation matches storage, a versioned one the same version, and nothing
/// matches a dependency.
pub fn validate_read_set(
    store: &MultiVersionStore,
    layer: &DeltaLayer,
    reads: &Vec<ReadEntry>,
    txi: TxnIndex,
) -> (valid: bool)
    requires
        store.wf(),
        layer.wf(),
    ensures
        valid == read_set_valid(store@, layer@, reads@, txi as nat),
{
    let mut k: usize = 0;
    while k < reads.len()
        invariant
            store.wf(),
            layer.wf(),
            0 <= k <= reads.len(),
            forall|j: int|
                0 <= j < k ==> spec_observation(store@, layer@, (#[trigger] reads@[j]).loc, txi as nat)
                    == Some(reads@[j].observation),
        decreases reads.len() - k,
    {
        let now = observe(store, layer, reads[k].loc, txi);
        let same = match now {
            Some(obs) => obs == reads[k].observation,
            None => false,
        };
        if !same {
            assert(spec_observation(store@, layer@, reads@[k as int].loc, txi as nat) != Some(
                reads@[k as int].observation,
            ));
            return false;
        }
        k += 1;
    }
    true
}

/// What a read of `loc` by the transaction at `txi` observes now.
pub fn observe(store: &MultiVersionStore, layer: &DeltaLayer, loc: Location, txi: TxnIndex) -> (r:
    Option<Observation>)
    requires
        store.wf(),
        layer.wf(),
    ensures
        r == spec_observation(store@, layer@, loc, txi as nat),
{
    let staged = layer.read_delta(loc, txi);
    let found = store.read(loc, txi);
    proof {
        crate::mvds::lemma_predecessor_sound(store@, loc, txi as nat);
        crate::mvds::lemma_predecessor_sound(layer@, loc, txi as nat);
    }
    match staged.latest {
        Some(d) => {
            let nearest = match &found {
                ReadResult::Value(_, ver) => ver.txn_idx <= d,
                ReadResult::Dependency(w) => *w <= d,
                ReadResult::Storage => true,
            };
            if nearest {
                return None;
            }
        },
        None => {},
    }
    match found {
        ReadResult::Value(_, ver) => Some(Observation::Versioned(ver)),
        ReadResult::Dependency(_) => None,
        ReadResult::Storage => Some(Observation::Storage),
    }
}

} // verus!
