use crate::delta::DeltaOp;
use crate::types::{opt_view, Location};
use vstd::prelude::*;

verus! {

/// How a transaction ended.
#[derive(Clone, Copy, Debug, PartialEq, Eq, Structural)]
pub enum TransactionStatus {
    /// Executed and kept.
    Success,
    /// The transaction aborted itself with a code; its output is kept.
    Abort(u64),
    /// Executed and kept; every later transaction of the block is skipped.
    SkipRest,
    /// Not executed in this block.
    Retry,
    /// Rejected with a code.
    Discard(u64),
    /// One of the transaction's deltas left its bounds at commit.
    DeltaApplicationFailure,
}

/// How a run of the virtual machine on one transaction ended.
#[derive(Clone, Copy, Debug, PartialEq, Eq, Structural)]
pub enum RunEnd {
    /// The machine finished with a status and the gas it used.
    Finished(TransactionStatus, u64),
    /// The machine reported a violated invariant, or did not finish within
    /// the step limit.
    Fatal,
}

/// What the virtual machine asks of the executor next.
#[derive(Debug)]
pub enum Action {
    /// Read a location; the value read is the response.
    Read(Location),
    /// Write a value to a location, or delete it with `None`.
    Write(Location, Option<Vec<u8>>),
    /// Apply a delta to a counter without reading it.
    Delta(Location, DeltaOp),
    /// Emit an event.
    Emit(Vec<u8>),
    /// The transaction is done.
    Finish(TransactionStatus, u64),
    /// The machine cannot go on.
    Fatal,
}

/// An action as a mathematical value.
pub enum ActionView {
    Read(Location),
    Write(Location, Option<Seq<u8>>),
    Delta(Location, DeltaOp),
    Emit(Seq<u8>),
    Finish(TransactionStatus, u64),
    Fatal,
}

impl View for Action {
    type V = ActionView;

    open spec fn view(&self) -> ActionView {
        match *self {
            Action::Read(loc) => ActionView::Read(loc),
            Action::Write(loc, v) => ActionView::Write(loc, opt_view(v)),
            Action::Delta(loc, op) => ActionView::Delta(loc, op),
            Action::Emit(e) => ActionView::Emit(e@),
            Action::Finish(s, g) => ActionView::Finish(s, g),
            Action::Fatal => ActionView::Fatal,
        }
    }
}

/// The values of a list of responses.
pub open spec fn responses_view(r: Seq<Option<Vec<u8>>>) -> Seq<Option<Seq<u8>>> {
    Seq::new(r.len(), |i: int| opt_view(r[i]))
}

/// The virtual machine, as the executor sees it: a function from a transaction
/// and the responses to its earlier actions to its next action. A read is
/// answered with the value read, every other action with `None`. The machine
/// is deterministic because its next action depends on nothing else.
pub trait VmAdapter {
    type Txn;

    spec fn spec_next(&self, txn: &Self::Txn, responses: Seq<Option<Seq<u8>>>) -> ActionView;

    fn next(&self, txn: &Self::Txn, responses: &Vec<Option<Vec<u8>>>) -> (a: Action)
        ensures
            a@ == self.spec_next(txn, responses_view(responses@)),
    ;
}

/// The base state: a read-only mapping from locations to values in which a
/// missing key and an empty value are different things.
pub trait StateView {
    spec fn spec_get(&self, loc: Location) -> Option<Seq<u8>>;

    fn get(&self, loc: &Location) -> (r: Option<Vec<u8>>)
        ensures
            opt_view(r) == self.spec_get(*loc),
    ;
}

/// A function that answers reads.
pub type Source = spec_fn(Location) -> Option<Seq<u8>>;

/// What a run has gathered so far.
#[verifier::ext_equal]
pub struct RunView {
    /// One response per action taken.
    pub responses: Seq<Option<Seq<u8>>>,
    /// The reads that left the transaction, each with the value seen.
    pub reads: Seq<(Location, Option<Seq<u8>>)>,
    /// The transaction's own writes, one per location, in the order in which
    /// the locations were first written.
    pub writes: Seq<(Location, Option<Seq<u8>>)>,
    pub deltas: Seq<(Location, DeltaOp)>,
    pub events: Seq<Seq<u8>>,
}

/// A finished run.
#[verifier::ext_equal]
pub struct OutcomeView {
    pub end: RunEnd,
    pub run: RunView,
}

/// The state of a run before its first action.
pub open spec fn empty_run() -> RunView {
    RunView {
        responses: Seq::empty(),
        reads: Seq::empty(),
        writes: Seq::empty(),
        deltas: Seq::empty(),
        events: Seq::empty(),
    }
}

/// The position of the last write to `loc` in a write buffer.
pub open spec fn find_write(writes: Seq<(Location, Option<Seq<u8>>)>, loc: Location) -> Option<int>
    decreases writes.len(),
{
    if writes.len() == 0 {
        None
    } else if writes.last().0 == loc {
        Some(writes.len() - 1)
    } else {
        find_write(writes.drop_last(), loc)
    }
}

/// The write buffer after a write of `value` to `loc`: the entry of `loc` is
/// replaced where there is one, and appended where there is none.
pub open spec fn put_write(
    writes: Seq<(Location, Option<Seq<u8>>)>,
    loc: Location,
    value: Option<Seq<u8>>,
) -> Seq<(Location, Option<Seq<u8>>)> {
    match find_write(writes, loc) {
        Some(i) => writes.update(i, (loc, value)),
        None => writes.push((loc, value)),
    }
}

/// One action's effect on a run. A read of a location that the transaction
/// wrote itself is answered from its write buffer and leaves no trace in the
/// read set; any other read is answered by `src` and recorded.
pub open spec fn step(action: ActionView, st: RunView, src: Source) -> RunView {
    match action {
        ActionView::Read(loc) => match find_write(st.writes, loc) {
            Some(i) => RunView { responses: st.responses.push(st.writes[i].1), ..st },
            None => RunView {
                responses: st.responses.push(src(loc)),
                reads: st.reads.push((loc, src(loc))),
                ..st
            },
        },
        ActionView::Write(loc, v) => RunView {
            responses: st.responses.push(None),
            writes: put_write(st.writes, loc, v),
            ..st
        },
        ActionView::Delta(loc, op) => RunView {
            responses: st.responses.push(None),
            deltas: st.deltas.push((loc, op)),
            ..st
        },
        ActionView::Emit(e) => RunView {
            responses: st.responses.push(None),
            events: st.events.push(e),
            ..st
        },
        ActionView::Finish(_, _) => st,
        ActionView::Fatal => st,
    }
}

/// Runs the machine on `txn` from the state `st` for at most `fuel` actions,
/// with reads answered by `src`.
pub open spec fn run_from<V: VmAdapter>(
    vm: &V,
    txn: &V::Txn,
    src: Source,
    st: RunView,
    fuel: nat,
) -> OutcomeView
    decreases fuel,
{
    if fuel == 0 {
        OutcomeView { end: RunEnd::Fatal, run: st }
    } else {
        match vm.spec_next(txn, st.responses) {
            ActionView::Finish(status, gas) => OutcomeView {
                end: RunEnd::Finished(status, gas),
                run: st,
            },
            ActionView::Fatal => OutcomeView { end: RunEnd::Fatal, run: st },
            a => run_from(vm, txn, src, step(a, st, src), (fuel - 1) as nat),
        }
    }
}

/// The whole run of the machine on `txn`.
pub open spec fn run<V: VmAdapter>(vm: &V, txn: &V::Txn, src: Source, fuel: nat) -> OutcomeView {
    run_from(vm, txn, src, empty_run(), fuel)
}

/// Whether `src` answers every read of `reads` from position `from` on with
/// the value recorded there.
pub open spec fn source_agrees(
    src: Source,
    reads: Seq<(Location, Option<Seq<u8>>)>,
    from: int,
) -> bool {
    forall|k: int| from <= k < reads.len() ==> src((#[trigger] reads[k]).0) == reads[k].1
}

/// A run only ever appends to its read set.
pub proof fn lemma_reads_extend<V: VmAdapter>(
    vm: &V,
    txn: &V::Txn,
    src: Source,
    st: RunView,
    fuel: nat,
)
    ensures
        st.reads.len() <= run_from(vm, txn, src, st, fuel).run.reads.len(),
        forall|k: int|
            0 <= k < st.reads.len() ==> run_from(vm, txn, src, st, fuel).run.reads[k]
                == st.reads[k],
    decreases fuel,
{
    if fuel > 0 {
        let a = vm.spec_next(txn, st.responses);
        match a {
            ActionView::Finish(_, _) => {},
            ActionView::Fatal => {},
            _ => {
                let next = step(a, st, src);
                let last = run_from(vm, txn, src, next, (fuel - 1) as nat);
                lemma_reads_extend(vm, txn, src, next, (fuel - 1) as nat);
                assert(run_from(vm, txn, src, st, fuel) == last);
                assert forall|k: int| 0 <= k < st.reads.len() implies last.run.reads[k]
                    == st.reads[k] by {
                    assert(next.reads[k] == st.reads[k]);
                }
            },
        }
    }
}

/// Determinism of the machine: a run depends on the source only through the
/// values of the reads it made. A second source that answers those reads in
/// the same way leads to the same run.
pub proof fn lemma_run_agreement<V: VmAdapter>(
    vm: &V,
    txn: &V::Txn,
    src1: Source,
    src2: Source,
    st: RunView,
    fuel: nat,
)
    requires
        source_agrees(src2, run_from(vm, txn, src1, st, fuel).run.reads, st.reads.len() as int),
    ensures
        run_from(vm, txn, src2, st, fuel) == run_from(vm, txn, src1, st, fuel),
    decreases fuel,
{
    if fuel > 0 {
        let a = vm.spec_next(txn, st.responses);
        match a {
            ActionView::Finish(_, _) => {},
            ActionView::Fatal => {},
            _ => {
                let next1 = step(a, st, src1);
                let last = run_from(vm, txn, src1, next1, (fuel - 1) as nat);
                lemma_reads_extend(vm, txn, src1, next1, (fuel - 1) as nat);
                if next1.reads.len() > st.reads.len() {
                    let k = st.reads.len() as int;
                    assert(last.run.reads[k] == next1.reads[k]);
                }
                assert(step(a, st, src2) == next1);
                lemma_run_agreement(vm, txn, src1, src2, next1, (fuel - 1) as nat);
            },
        }
    }
}

} // verus!
