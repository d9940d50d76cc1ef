use crate::delta::{
    decode_counter, encode_counter, spec_decode_counter, spec_encode_counter, DeltaOp,
};
use crate::types::{clone_bytes, opt_view, Location};
use crate::vm::{
    empty_run, responses_view, run, run_from, step, Action, ActionView, Source, StateView,
    TransactionStatus, VmAdapter,
};
use vstd::prelude::*;

verus! {

/// One instruction of a scripted transaction.
#[derive(Debug)]
pub enum Instruction {
    /// Reads a location.
    Read(Location),
    /// Writes bytes to a location.
    Write(Location, Vec<u8>),
    /// Deletes a location.
    Delete(Location),
    /// Applies a delta to a counter.
    Delta(Location, DeltaOp),
    /// Emits an event.
    Emit(Vec<u8>),
    /// Writes to `loc` the counter that the instruction at position `source`
    /// read, moved by `change`. Where that instruction read no counter, or
    /// the sum does not fit, the transaction aborts with code 1.
    Bump { loc: Location, source: usize, change: i64 },
}

/// A transaction for the scripted machine.
#[derive(Debug)]
pub enum Transaction {
    /// Runs the instructions in their order and succeeds with the gas given.
    Script { steps: Vec<Instruction>, gas: u64 },
    /// Succeeds at once and asks to skip the rest of the block.
    SkipRest { gas: u64 },
    /// Makes the machine fail.
    Abort,
}

/// A virtual machine that runs scripted transactions.
#[derive(Debug)]
pub struct ScriptedVm {}

/// The action that an instruction stands for, given the responses so far.
pub open spec fn instruction_action(
    ins: Instruction,
    responses: Seq<Option<Seq<u8>>>,
    gas: u64,
) -> ActionView {
    match ins {
        Instruction::Read(loc) => ActionView::Read(loc),
        Instruction::Write(loc, bytes) => ActionView::Write(loc, Some(bytes@)),
        Instruction::Delete(loc) => ActionView::Write(loc, None),
        Instruction::Delta(loc, op) => ActionView::Delta(loc, op),
        Instruction::Emit(event) => ActionView::Emit(event@),
        Instruction::Bump { loc, source, change } => {
            if source < responses.len() {
                match spec_decode_counter(responses[source as int]) {
                    Some(c) => if i128::MIN <= c + change <= i128::MAX {
                        ActionView::Write(loc, Some(spec_encode_counter((c + change) as i128)))
                    } else {
                        ActionView::Finish(TransactionStatus::Abort(1), gas)
                    },
                    None => ActionView::Finish(TransactionStatus::Abort(1), gas),
                }
            } else {
                ActionView::Finish(TransactionStatus::Abort(1), gas)
            }
        },
    }
}

/// The next action of a scripted transaction.
pub open spec fn scripted_next(txn: Transaction, responses: Seq<Option<Seq<u8>>>) -> ActionView {
    match txn {
        Transaction::Script { steps, gas } => {
            if responses.len() < steps@.len() {
                instruction_action(steps@[responses.len() as int], responses, gas)
            } else {
                ActionView::Finish(TransactionStatus::Success, gas)
            }
        },
        Transaction::SkipRest { gas } => ActionView::Finish(TransactionStatus::SkipRest, gas),
        Transaction::Abort => ActionView::Fatal,
    }
}

impl ScriptedVm {
    /// The scripted machine.
    pub fn new() -> (vm: Self) {
        ScriptedVm {  }
    }
}

impl VmAdapter for ScriptedVm {
    type Txn = Transaction;

    open spec fn spec_next(&self, txn: &Transaction, responses: Seq<Option<Seq<u8>>>) -> ActionView {
        scripted_next(*txn, responses)
    }

    fn next(&self, txn: &Transaction, responses: &Vec<Option<Vec<u8>>>) -> (a: Action) {
        let ghost rv = responses_view(responses@);
        match txn {
            Transaction::Script { steps, gas } => {
                let pc = responses.len();
                if pc < steps.len() {
                    match &steps[pc] {
                        Instruction::Read(loc) => Action::Read(*loc),
                        Instruction::Write(loc, bytes) => Action::Write(
                            *loc,
                            Some(clone_bytes(bytes)),
                        ),
                        Instruction::Delete(loc) => Action::Write(*loc, None),
                        Instruction::Delta(loc, op) => Action::Delta(*loc, *op),
                        Instruction::Emit(event) => Action::Emit(clone_bytes(event)),
                        Instruction::Bump { loc, source, change } => {
                            if *source < responses.len() {
                                assert(rv[*source as int] == opt_view(responses@[*source as int]));
                                match decode_counter(&responses[*source]) {
                                    Some(c) => {
                                        let d: i128 = *change as i128;
                                        match c.checked_add(d) {
                                            Some(v) => Action::Write(*loc, Some(encode_counter(v))),
                                            None => Action::Finish(TransactionStatus::Abort(1), *gas),
                                        }
                                    },
                                    None => Action::Finish(TransactionStatus::Abort(1), *gas),
                                }
                            } else {
                                Action::Finish(TransactionStatus::Abort(1), *gas)
                            }
                        },
                    }
                } else {
                    Action::Finish(TransactionStatus::Success, *gas)
                }
            },
            Transaction::SkipRest { gas } => Action::Finish(TransactionStatus::SkipRest, *gas),
            Transaction::Abort => Action::Fatal,
        }
    }
}

/// A base state held in memory: a list of locations with their values. Of two
/// entries for one location the first counts.
#[derive(Debug)]
pub struct MemoryState {
    pub entries: Vec<(Location, Vec<u8>)>,
}

/// The value of `loc` in a list of entries: that of the first entry for it.
pub open spec fn lookup(entries: Seq<(Location, Vec<u8>)>, loc: Location) -> Option<Seq<u8>>
    decreases entries.len(),
{
    if entries.len() == 0 {
        None
    } else if entries[0].0 == loc {
        Some(entries[0].1@)
    } else {
        lookup(entries.drop_first(), loc)
    }
}

impl MemoryState {
    /// A state without entries.
    pub fn new() -> (s: Self)
        ensures
            s.entries@.len() == 0,
    {
        MemoryState { entries: Vec::new() }
    }

    /// Appends an entry; it counts where no earlier entry names `loc`.
    pub fn insert(&mut self, loc: Location, value: Vec<u8>)
        ensures
            final(self).entries@ == old(self).entries@.push((loc, value)),
    {
        self.entries.push((loc, value));
    }
}

impl StateView for MemoryState {
    open spec fn spec_get(&self, loc: Location) -> Option<Seq<u8>> {
        lookup(self.entries@, loc)
    }

    fn get(&self, loc: &Location) -> (r: Option<Vec<u8>>) {
        let mut i: usize = 0;
        assert(self.entries@.subrange(0, self.entries@.len() as int) =~= self.entries@);
        while i < self.entries.len()
            invariant
                0 <= i <= self.entries.len(),
                lookup(self.entries@, *loc) == lookup(
                    self.entries@.subrange(i as int, self.entries@.len() as int),
                    *loc,
                ),
            decreases self.entries.len() - i,
        {
            let ghost rest = self.entries@.subrange(i as int, self.entries@.len() as int);
            assert(rest[0] == self.entries@[i as int]);
            assert(rest.drop_first() =~= self.entries@.subrange(
                i as int + 1,
                self.entries@.len() as int,
            ));
            if self.entries[i].0 == *loc {
                return Some(clone_bytes(&self.entries[i].1));
            }
            i += 1;
        }
        None
    }
}

/// A script of the single instruction `Delta(c, op)` does nothing but apply
/// the delta, whatever it reads from.
pub proof fn lemma_delta_script(vm: &ScriptedVm, txn: &Transaction, c: Location, op: DeltaOp, fuel: nat)
    requires
        fuel >= 2,
        *txn matches Transaction::Script { steps, .. } && steps@ == seq![Instruction::Delta(c, op)],
    ensures
        crate::laws::delta_only(vm, txn, c, op, fuel),
{
    assert forall|src: Source|
        {
            let o = #[trigger] run(vm, txn, src, fuel);
            &&& o.end is Finished
            &&& o.end->Finished_0 != TransactionStatus::SkipRest
            &&& o.run.reads.len() == 0
            &&& o.run.writes.len() == 0
            &&& o.run.deltas == seq![(c, op)]
        } by {
        let first = empty_run();
        assert(vm.spec_next(txn, first.responses) == ActionView::Delta(c, op));
        let second = step(ActionView::Delta(c, op), first, src);
        assert(second.responses.len() == 1);
        assert(vm.spec_next(txn, second.responses) is Finish);
        assert(run_from(vm, txn, src, second, (fuel - 1) as nat).run == second);
        assert(second.deltas =~= seq![(c, op)]);
    }
}

} // verus!
