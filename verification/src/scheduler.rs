use crate::types::{Incarnation, TxnIndex};
use vstd::prelude::*;

verus! {

/// Where a transaction stands.
#[derive(Clone, Copy, Debug, PartialEq, Eq, Structural)]
pub enum Status {
    ReadyToExecute(Incarnation),
    Executing(Incarnation),
    Executed(Incarnation),
    Aborting(Incarnation),
}

impl Status {
    /// The number of the incarnation that the status speaks of.
    pub open spec fn spec_incarnation(self) -> Incarnation {
        match self {
            Status::ReadyToExecute(i) => i,
            Status::Executing(i) => i,
            Status::Executed(i) => i,
            Status::Aborting(i) => i,
        }
    }

    /// The number of the incarnation that the status speaks of.
    pub fn incarnation(&self) -> (inc: Incarnation)
        ensures
            inc == self.spec_incarnation(),
    {
        match self {
            Status::ReadyToExecute(i) => *i,
            Status::Executing(i) => *i,
            Status::Executed(i) => *i,
            Status::Aborting(i) => *i,
        }
    }
}

/// Why a block was halted.
#[derive(Clone, Copy, Debug, PartialEq, Eq, Structural)]
pub enum HaltReason {
    /// A transaction asked to skip the rest of the block.
    SkipRest,
    /// The gas of the committed transactions exceeds the limit of the block.
    GasLimitReached,
}

/// What the scheduler hands to a worker.
#[derive(Clone, Copy, Debug, PartialEq, Eq, Structural)]
pub enum Task {
    Execute(TxnIndex, Incarnation),
    Validate(TxnIndex, Incarnation),
    NoTask,
    Done,
}

/// The state of the scheduler as a mathematical value.
pub struct SchedulerView {
    pub statuses: Seq<Status>,
    pub execution_idx: nat,
    pub validation_idx: nat,
    pub in_flight: nat,
    pub stop_idx: nat,
    /// The reason of the halt that set the stop index, while no halt has:
    /// `None`.
    pub halt_reason: Option<HaltReason>,
    pub commit_idx: nat,
    pub done: bool,
    /// For every transaction the transaction it waits for, if it waits.
    pub waiting: Seq<Option<TxnIndex>>,
    /// For every transaction the transactions that were parked on it.
    pub dependents: Seq<Seq<TxnIndex>>,
}

impl SchedulerView {
    /// The validity of a scheduler state: no cursor lies beyond the block,
    /// and every committed transaction is executed.
    pub open spec fn wf(self) -> bool {
        &&& self.statuses.len() <= usize::MAX
        &&& self.execution_idx <= self.statuses.len()
        &&& self.validation_idx <= self.statuses.len()
        &&& self.stop_idx <= self.statuses.len()
        &&& self.commit_idx <= self.statuses.len()
        &&& self.in_flight <= usize::MAX
        &&& self.waiting.len() == self.statuses.len()
        &&& self.dependents.len() == self.statuses.len()
        &&& forall|i: int| 0 <= i < self.commit_idx ==> (#[trigger] self.statuses[i]) is Executed
    }

    /// The first index that is granted no task: the stop index.
    pub open spec fn limit(self) -> nat {
        self.stop_idx
    }

    /// The state of a fresh scheduler for `n` transactions.
    pub open spec fn initial(n: nat) -> SchedulerView {
        SchedulerView {
            statuses: Seq::new(n, |i: int| Status::ReadyToExecute(0)),
            execution_idx: 0,
            validation_idx: 0,
            in_flight: 0,
            stop_idx: n,
            halt_reason: None,
            commit_idx: 0,
            done: false,
            waiting: Seq::new(n, |i: int| None),
            dependents: Seq::new(n, |i: int| Seq::empty()),
        }
    }
}

/// The smallest index in `[from, to)` whose status is `Executed`.
pub open spec fn first_executed(statuses: Seq<Status>, from: nat, to: nat) -> Option<nat>
    decreases to - from,
{
    if from >= to || from >= statuses.len() {
        None
    } else if statuses[from as int] is Executed {
        Some(from)
    } else {
        first_executed(statuses, from + 1, to)
    }
}

/// The grant of a validation task, if the rule gives one: validation goes
/// first while the validation cursor is behind the execution cursor, and it
/// goes to the smallest executed index at or after the cursor.
pub open spec fn validation_grant(s: SchedulerView) -> Option<nat> {
    if s.validation_idx < s.execution_idx {
        first_executed(s.statuses, s.validation_idx, s.limit())
    } else {
        None
    }
}

/// The scheduler after a call of `next_task`, and the task it returns.
pub open spec fn spec_next_task(s: SchedulerView) -> (SchedulerView, Task) {
    if s.done {
        (s, Task::Done)
    } else if s.in_flight >= usize::MAX {
        (s, Task::NoTask)
    } else {
        match validation_grant(s) {
            Some(i) => (
                SchedulerView {
                    validation_idx: i + 1,
                    in_flight: s.in_flight + 1,
                    ..s
                },
                Task::Validate(i as usize, s.statuses[i as int].spec_incarnation()),
            ),
            None => {
                let v = if s.validation_idx < s.execution_idx && s.validation_idx < s.limit() {
                    s.limit()
                } else {
                    s.validation_idx
                };
                if s.execution_idx < s.limit() {
                    let i = s.execution_idx;
                    if s.statuses[i as int] is ReadyToExecute && s.waiting[i as int].is_none() {
                        let inc = s.statuses[i as int].spec_incarnation();
                        (
                            SchedulerView {
                                statuses: s.statuses.update(i as int, Status::Executing(inc)),
                                execution_idx: i + 1,
                                validation_idx: v,
                                in_flight: s.in_flight + 1,
                                ..s
                            },
                            Task::Execute(i as usize, inc),
                        )
                    } else {
                        (
                            SchedulerView { execution_idx: i + 1, validation_idx: v, ..s },
                            Task::NoTask,
                        )
                    }
                } else if v >= s.limit() && s.in_flight == 0 {
                    (SchedulerView { validation_idx: v, done: true, ..s }, Task::Done)
                } else {
                    (SchedulerView { validation_idx: v, ..s }, Task::NoTask)
                }
            },
        }
    }
}

/// The scheduler after incarnation `inc` of `txi` has been executed, and the
/// task that the worker goes on with. Where the validation cursor has passed
/// the transaction, the new incarnation still has to be validated: if it wrote
/// a new location the cursor goes back to the transaction, so that it and all
/// later ones are validated again, and if not, the worker validates just this
/// transaction itself. The transactions that were parked on this one are
/// woken.
pub open spec fn spec_finish_execution(
    s: SchedulerView,
    txi: nat,
    inc: Incarnation,
    wrote_new: bool,
) -> (SchedulerView, Task) {
    let executed = s.statuses.update(txi as int, Status::Executed(inc));
    if txi < s.validation_idx && !wrote_new {
        (
            spec_wake(SchedulerView { statuses: executed, ..s }, txi),
            Task::Validate(txi as usize, inc),
        )
    } else {
        (
            spec_wake(
                SchedulerView {
                    statuses: executed,
                    validation_idx: if txi < s.validation_idx {
                        txi
                    } else {
                        s.validation_idx
                    },
                    in_flight: (s.in_flight - 1) as nat,
                    ..s
                },
                txi,
            ),
            Task::NoTask,
        )
    }
}

/// The scheduler after the transactions of `list` that wait for `j` are
/// woken, one after the other: such a transaction waits no longer, and the
/// execution cursor does not stay above it.
pub open spec fn wake_each(s: SchedulerView, list: Seq<TxnIndex>, j: nat) -> SchedulerView
    decreases list.len(),
{
    if list.len() == 0 {
        s
    } else {
        let before = wake_each(s, list.drop_last(), j);
        let i = list.last();
        if i < before.waiting.len() && before.waiting[i as int] == Some(j as usize) {
            SchedulerView {
                waiting: before.waiting.update(i as int, None),
                execution_idx: if i < before.execution_idx {
                    i as nat
                } else {
                    before.execution_idx
                },
                ..before
            }
        } else {
            before
        }
    }
}

/// Waking changes who waits and where the execution cursor stands, and
/// nothing else.
pub proof fn lemma_wake_each(s: SchedulerView, list: Seq<TxnIndex>, j: nat)
    ensures
        wake_each(s, list, j).statuses == s.statuses,
        wake_each(s, list, j).validation_idx == s.validation_idx,
        wake_each(s, list, j).in_flight == s.in_flight,
        wake_each(s, list, j).stop_idx == s.stop_idx,
        wake_each(s, list, j).halt_reason == s.halt_reason,
        wake_each(s, list, j).commit_idx == s.commit_idx,
        wake_each(s, list, j).done == s.done,
        wake_each(s, list, j).dependents == s.dependents,
        wake_each(s, list, j).waiting.len() == s.waiting.len(),
        wake_each(s, list, j).execution_idx <= s.execution_idx,
    decreases list.len(),
{
    if list.len() > 0 {
        lemma_wake_each(s, list.drop_last(), j);
    }
}

/// The scheduler after the transaction `j` has finished: the transactions
/// that were parked on it are woken.
pub open spec fn spec_wake(s: SchedulerView, j: nat) -> SchedulerView {
    if j < s.dependents.len() {
        SchedulerView {
            dependents: s.dependents.update(j as int, Seq::empty()),
            ..wake_each(s, s.dependents[j as int], j)
        }
    } else {
        s
    }
}

/// Whether the abort of incarnation `inc` of `txi` succeeds: only an executed
/// incarnation can be aborted, only once, and only while its number can
/// still grow.
pub open spec fn abort_succeeds(s: SchedulerView, txi: nat, inc: Incarnation) -> bool {
    s.statuses[txi as int] == Status::Executed(inc) && inc < Incarnation::MAX && txi
        >= s.commit_idx
}

/// The scheduler after a validation of incarnation `inc` of `txi` ended.
pub open spec fn spec_finish_validation(s: SchedulerView, txi: nat, inc: Incarnation, valid: bool) -> SchedulerView {
    if !valid && abort_succeeds(s, txi, inc) {
        SchedulerView { statuses: s.statuses.update(txi as int, Status::Aborting(inc)), ..s }
    } else {
        SchedulerView { in_flight: (s.in_flight - 1) as nat, ..s }
    }
}

/// The scheduler after the abort of incarnation `inc` of `txi` is complete.
pub open spec fn spec_finish_abort(s: SchedulerView, txi: nat, inc: Incarnation) -> SchedulerView {
    SchedulerView {
        statuses: s.statuses.update(txi as int, Status::ReadyToExecute((inc + 1) as Incarnation)),
        validation_idx: if txi < s.validation_idx {
            txi
        } else {
            s.validation_idx
        },
        execution_idx: if txi < s.execution_idx {
            txi
        } else {
            s.execution_idx
        },
        in_flight: (s.in_flight - 1) as nat,
        ..s
    }
}

/// Whether a transaction that met the unfinished work of `on` is parked on
/// it: it is where `on` is a lower transaction that is not committed yet.
pub open spec fn parks(s: SchedulerView, txi: nat, on: nat) -> bool {
    s.commit_idx <= on < txi
}

/// The scheduler after incarnation `inc` of `txi` gave up on its dependency
/// on `on`: the transaction is ready again at the same incarnation. Where it is
/// parked, it is granted no execution until `on` has finished. Where it is not,
/// the execution cursor does not stay above it.
pub open spec fn spec_suspend(s: SchedulerView, txi: nat, inc: Incarnation, on: nat) -> SchedulerView {
    if parks(s, txi, on) {
        SchedulerView {
            statuses: s.statuses.update(txi as int, Status::ReadyToExecute(inc)),
            waiting: s.waiting.update(txi as int, Some(on as usize)),
            dependents: s.dependents.update(
                on as int,
                s.dependents[on as int].push(txi as usize),
            ),
            in_flight: (s.in_flight - 1) as nat,
            ..s
        }
    } else {
        SchedulerView {
            statuses: s.statuses.update(txi as int, Status::ReadyToExecute(inc)),
            waiting: s.waiting.update(txi as int, None),
            execution_idx: if txi < s.execution_idx {
                txi
            } else {
                s.execution_idx
            },
            in_flight: (s.in_flight - 1) as nat,
            ..s
        }
    }
}

/// The scheduler after a halt at `txi`: the stop index is the smaller of
/// the two, with the reason of the halt that lowered it.
pub open spec fn spec_halt(s: SchedulerView, txi: nat, reason: HaltReason) -> SchedulerView {
    if txi < s.stop_idx {
        SchedulerView { stop_idx: txi, halt_reason: Some(reason), ..s }
    } else {
        s
    }
}

/// The scheduler after the transaction at its commit index has been
/// committed at incarnation `inc`: the transaction is executed for good,
/// neither cursor stays behind it, and the transactions that were parked on it
/// are woken.
pub open spec fn spec_advance_commit(s: SchedulerView, inc: Incarnation) -> SchedulerView {
    let i = s.commit_idx;
    spec_wake(
        SchedulerView {
            statuses: s.statuses.update(i as int, Status::Executed(inc)),
            waiting: s.waiting.update(i as int, None),
            commit_idx: i + 1,
            execution_idx: if s.execution_idx <= i {
                i + 1
            } else {
                s.execution_idx
            },
            validation_idx: if s.validation_idx <= i {
                i + 1
            } else {
                s.validation_idx
            },
            ..s
        },
        i,
    )
}

/// What `first_executed` returns lies in the range and is executed.
proof fn lemma_first_executed(statuses: Seq<Status>, from: nat, to: nat)
    ensures
        match first_executed(statuses, from, to) {
            Some(i) => from <= i < to && i < statuses.len() && statuses[i as int] is Executed,
            None => true,
        },
    decreases to - from,
{
    if from < to && from < statuses.len() && !(statuses[from as int] is Executed) {
        lemma_first_executed(statuses, from + 1, to);
    }
}

/// Cancellation: no task is granted at or beyond the stop index, a
/// validation is granted for an executed incarnation only, and an execution
/// for a ready one.
pub proof fn lemma_granted_tasks(s: SchedulerView)
    requires
        s.wf(),
    ensures
        match spec_next_task(s).1 {
            Task::Execute(i, inc) => i < s.stop_idx && s.statuses[i as int]
                == Status::ReadyToExecute(inc) && spec_next_task(s).0.statuses[i as int]
                == Status::Executing(inc),
            Task::Validate(i, inc) => i < s.stop_idx && s.statuses[i as int] == Status::Executed(
                inc,
            ),
            Task::NoTask => true,
            Task::Done => spec_next_task(s).0.done,
        },
{
    lemma_first_executed(s.statuses, s.validation_idx, s.limit());
}

/// Termination is final: once the done marker is set, every call returns
/// `Done` and changes nothing.
pub proof fn lemma_done_is_final(s: SchedulerView)
    requires
        s.done,
    ensures
        spec_next_task(s) == (s, Task::Done),
{
}

/// The done marker is set only when validation has reached the stop index
/// and no task is in flight.
pub proof fn lemma_done_means_finished(s: SchedulerView)
    requires
        s.wf(),
        !s.done,
        spec_next_task(s).0.done,
    ensures
        spec_next_task(s).0.validation_idx >= s.stop_idx,
        spec_next_task(s).0.execution_idx >= s.stop_idx,
        s.in_flight == 0,
{
    lemma_first_executed(s.statuses, s.validation_idx, s.limit());
}

/// The coordinator of the workers: it says which transaction to execute or
/// to validate next, learns how each task ended, and knows when all is done.
pub struct Scheduler {
    statuses: Vec<Status>,
    execution_idx: usize,
    validation_idx: usize,
    in_flight: usize,
    stop_idx: usize,
    halt_reason: Option<HaltReason>,
    commit_idx: usize,
    done: bool,
    waiting: Vec<Option<TxnIndex>>,
    dependents: Vec<Vec<TxnIndex>>,
}

impl View for Scheduler {
    type V = SchedulerView;

    closed spec fn view(&self) -> SchedulerView {
        SchedulerView {
            statuses: self.statuses@,
            execution_idx: self.execution_idx as nat,
            validation_idx: self.validation_idx as nat,
            in_flight: self.in_flight as nat,
            stop_idx: self.stop_idx as nat,
            halt_reason: self.halt_reason,
            commit_idx: self.commit_idx as nat,
            done: self.done,
            waiting: self.waiting@,
            dependents: Seq::new(self.dependents@.len(), |i: int| self.dependents@[i]@),
        }
    }
}

impl Scheduler {
    /// A scheduler for a block of `n` transactions: all ready at incarnation
    /// zero, both cursors at the start.
    pub fn new(n: usize) -> (s: Self)
        ensures
            s@ == SchedulerView::initial(n as nat),
            s@.wf(),
    {
        let mut statuses: Vec<Status> = Vec::new();
        let mut waiting: Vec<Option<TxnIndex>> = Vec::new();
        let mut dependents: Vec<Vec<TxnIndex>> = Vec::new();
        let mut i: usize = 0;
        while i < n
            invariant
                i <= n,
                statuses@.len() == i,
                waiting@.len() == i,
                dependents@.len() == i,
                forall|k: int| 0 <= k < i ==> statuses@[k] == Status::ReadyToExecute(0),
                forall|k: int| 0 <= k < i ==> waiting@[k] == None::<TxnIndex>,
                forall|k: int| 0 <= k < i ==> (#[trigger] dependents@[k])@.len() == 0,
            decreases n - i,
        {
            statuses.push(Status::ReadyToExecute(0));
            waiting.push(None);
            dependents.push(Vec::new());
            i += 1;
        }
        let s = Scheduler {
            statuses,
            execution_idx: 0,
            validation_idx: 0,
            in_flight: 0,
            stop_idx: n,
            halt_reason: None,
            commit_idx: 0,
            done: false,
            waiting,
            dependents,
        };
        assert(s@.statuses =~= SchedulerView::initial(n as nat).statuses);
        assert(s@.waiting =~= SchedulerView::initial(n as nat).waiting);
        assert(s@.dependents =~= SchedulerView::initial(n as nat).dependents) by {
            assert forall|k: int| 0 <= k < n implies #[trigger] s@.dependents[k]
                == Seq::<TxnIndex>::empty() by {
                assert(s.dependents@[k]@ =~= Seq::<TxnIndex>::empty());
            }
        }
        s
    }

    /// The number of transactions in the block.
    pub fn len(&self) -> (n: usize)
        ensures
            n == self@.statuses.len(),
    {
        self.statuses.len()
    }

    /// The status of the transaction at `txi`.
    pub fn status(&self, txi: TxnIndex) -> (st: Status)
        requires
            txi < self@.statuses.len(),
        ensures
            st == self@.statuses[txi as int],
    {
        self.statuses[txi]
    }

    /// The stop index: the block's length until a halt lowers it.
    pub fn stop_idx(&self) -> (i: usize)
        ensures
            i == self@.stop_idx,
    {
        self.stop_idx
    }

    /// The number of transactions committed so far.
    pub fn commit_idx(&self) -> (i: usize)
        ensures
            i == self@.commit_idx,
    {
        self.commit_idx
    }

    /// The number of tasks that were granted and have not ended.
    pub fn in_flight(&self) -> (k: usize)
        ensures
            k == self@.in_flight,
    {
        self.in_flight
    }

    /// Whether the done marker is set.
    pub fn is_done(&self) -> (d: bool)
        ensures
            d == self@.done,
    {
        self.done
    }

    fn find_executed(&self, from: usize, to: usize) -> (r: Option<usize>)
        requires
            to <= self.statuses@.len(),
        ensures
            match r {
                Some(i) => first_executed(self.statuses@, from as nat, to as nat) == Some(i as nat)
                    && from <= i < to,
                None => first_executed(self.statuses@, from as nat, to as nat).is_none(),
            },
    {
        let mut i: usize = from;
        while i < to
            invariant
                from <= i,
                to <= self.statuses@.len(),
                first_executed(self.statuses@, from as nat, to as nat) == first_executed(
                    self.statuses@,
                    i as nat,
                    to as nat,
                ),
            decreases to - i,
        {
            match self.statuses[i] {
                Status::Executed(_) => {
                    return Some(i);
                },
                _ => {},
            }
            i += 1;
        }
        None
    }

    /// Grants the next task. Validation goes first while its cursor is behind
    /// the execution cursor. An execution is granted by taking the execution
    /// cursor, moving the status of that transaction from ready to executing,
    /// and advancing the cursor. Once validation has reached the limit and no
    /// task is in flight, the done marker is set and every call returns `Done`.
    pub fn next_task(&mut self) -> (task: Task)
        requires
            old(self)@.wf(),
        ensures
            final(self)@.wf(),
            (final(self)@, task) == spec_next_task(old(self)@),
    {
        if self.done {
            return Task::Done;
        }
        if self.in_flight == usize::MAX {
            return Task::NoTask;
        }
        let limit = self.stop_idx;
        if self.validation_idx < self.execution_idx {
            match self.find_executed(self.validation_idx, limit) {
                Some(i) => {
                    let inc = self.statuses[i].incarnation();
                    self.validation_idx = i + 1;
                    self.in_flight = self.in_flight + 1;
                    return Task::Validate(i, inc);
                },
                None => {
                    if self.validation_idx < limit {
                        self.validation_idx = limit;
                    }
                },
            }
        }
        if self.execution_idx < limit {
            let i = self.execution_idx;
            self.execution_idx = i + 1;
            let parked = self.waiting[i].is_some();
            match self.statuses[i] {
                Status::ReadyToExecute(inc) => {
                    if parked {
                        Task::NoTask
                    } else {
                        self.statuses[i] = Status::Executing(inc);
                        self.in_flight = self.in_flight + 1;
                        Task::Execute(i, inc)
                    }
                },
                _ => Task::NoTask,
            }
        } else if self.validation_idx >= limit && self.in_flight == 0 {
            self.done = true;
            Task::Done
        } else {
            Task::NoTask
        }
    }

    /// Records that incarnation `inc` of `txi` has been executed. Where it
    /// wrote a location that the incarnation before it had not written, the
    /// validation cursor goes back to `txi`, so that later transactions are
    /// validated against the new writes. Where it did not and the cursor has
    /// passed `txi`, the validation of `txi` itself is handed to the caller as
    /// its next task.
    pub fn finish_execution(
        &mut self,
        txi: TxnIndex,
        inc: Incarnation,
        wrote_new_locations: bool,
    ) -> (task: Task)
        requires
            old(self)@.wf(),
            txi < old(self)@.statuses.len(),
            old(self)@.statuses[txi as int] == Status::Executing(inc),
            old(self)@.in_flight > 0,
        ensures
            final(self)@.wf(),
            (final(self)@, task) == spec_finish_execution(
                old(self)@,
                txi as nat,
                inc,
                wrote_new_locations,
            ),
            final(self)@.statuses == old(self)@.statuses.update(txi as int, Status::Executed(inc)),
            final(self)@.commit_idx == old(self)@.commit_idx,
    {
        self.statuses[txi] = Status::Executed(inc);
        if txi < self.validation_idx {
            if wrote_new_locations {
                self.validation_idx = txi;
            } else {
                self.wake(txi);
                return Task::Validate(txi, inc);
            }
        }
        self.in_flight = self.in_flight - 1;
        self.wake(txi);
        Task::NoTask
    }

    /// Wakes the transactions that were parked on `j`.
    fn wake(&mut self, j: TxnIndex)
        requires
            old(self)@.wf(),
            j < old(self)@.statuses.len(),
        ensures
            final(self)@.wf(),
            final(self)@ == spec_wake(old(self)@, j as nat),
            final(self)@.statuses == old(self)@.statuses,
            final(self)@.validation_idx == old(self)@.validation_idx,
            final(self)@.in_flight == old(self)@.in_flight,
            final(self)@.stop_idx == old(self)@.stop_idx,
            final(self)@.halt_reason == old(self)@.halt_reason,
            final(self)@.commit_idx == old(self)@.commit_idx,
            final(self)@.done == old(self)@.done,
    {
        proof {
            lemma_wake_each(old(self)@, old(self)@.dependents[j as int], j as nat);
        }
        let ghost start = self@;
        let mut list: Vec<TxnIndex> = Vec::new();
        core::mem::swap(&mut list, &mut self.dependents[j]);
        assert(list@ == start.dependents[j as int]);
        assert(self@.dependents =~= start.dependents.update(j as int, Seq::empty())) by {
            assert(self.dependents@[j as int]@ =~= Seq::<TxnIndex>::empty());
        }
        let mut k: usize = 0;
        assert(list@.subrange(0, 0) =~= Seq::<TxnIndex>::empty());
        while k < list.len()
            invariant
                0 <= k <= list.len(),
                start.wf(),
                j < start.statuses.len(),
                self@ == (SchedulerView {
                    dependents: start.dependents.update(j as int, Seq::empty()),
                    ..wake_each(start, list@.subrange(0, k as int), j as nat)
                }),
                self@.wf(),
            decreases list.len() - k,
        {
            let i = list[k];
            proof {
                let upto = list@.subrange(0, k as int + 1);
                assert(upto.drop_last() =~= list@.subrange(0, k as int));
                assert(upto.last() == i);
            }
            if i < self.waiting.len() {
                let waits = match self.waiting[i] {
                    Some(w) => w == j,
                    None => false,
                };
                if waits {
                    self.waiting[i] = None;
                    if i < self.execution_idx {
                        self.execution_idx = i;
                    }
                }
            }
            k += 1;
        }
        assert(list@.subrange(0, list@.len() as int) =~= list@);
    }

    /// Records how a validation of incarnation `inc` of `txi` ended, and
    /// returns whether the caller has to abort the incarnation. A valid read
    /// set ends the task. An invalid one tries the abort; of several
    /// validators only the first succeeds, and the others just return.
    pub fn finish_validation(&mut self, txi: TxnIndex, inc: Incarnation, valid: bool) -> (aborted:
        bool)
        requires
            old(self)@.wf(),
            txi < old(self)@.statuses.len(),
            old(self)@.in_flight > 0,
        ensures
            final(self)@.wf(),
            final(self)@ == spec_finish_validation(old(self)@, txi as nat, inc, valid),
            aborted == (!valid && abort_succeeds(old(self)@, txi as nat, inc)),
    {
        if !valid && self.try_abort(txi, inc) {
            true
        } else {
            self.in_flight = self.in_flight - 1;
            false
        }
    }

    /// Tries to abort incarnation `inc` of `txi`: moves its status from
    /// executed to aborting, and says whether it did.
    pub fn try_abort(&mut self, txi: TxnIndex, inc: Incarnation) -> (aborted: bool)
        requires
            old(self)@.wf(),
            txi < old(self)@.statuses.len(),
        ensures
            final(self)@.wf(),
            aborted == abort_succeeds(old(self)@, txi as nat, inc),
            final(self)@ == if aborted {
                SchedulerView {
                    statuses: old(self)@.statuses.update(txi as int, Status::Aborting(inc)),
                    ..old(self)@
                }
            } else {
                old(self)@
            },
    {
        let can = match self.statuses[txi] {
            Status::Executed(i) => i == inc && inc < Incarnation::MAX && txi >= self.commit_idx,
            _ => false,
        };
        if can {
            self.statuses[txi] = Status::Aborting(inc);
        }
        can
    }

    /// Completes an abort, after the caller has flagged the write set of the
    /// aborted incarnation as estimates: the transaction is ready at the next
    /// incarnation, and neither cursor stays above it.
    pub fn finish_abort(&mut self, txi: TxnIndex, inc: Incarnation)
        requires
            old(self)@.wf(),
            txi < old(self)@.statuses.len(),
            old(self)@.statuses[txi as int] == Status::Aborting(inc),
            inc < Incarnation::MAX,
            old(self)@.in_flight > 0,
        ensures
            final(self)@.wf(),
            final(self)@ == spec_finish_abort(old(self)@, txi as nat, inc),
    {
        self.statuses[txi] = Status::ReadyToExecute(inc + 1);
        if txi < self.validation_idx {
            self.validation_idx = txi;
        }
        if txi < self.execution_idx {
            self.execution_idx = txi;
        }
        self.in_flight = self.in_flight - 1;
    }

    /// Ends an execution that met the unfinished work of the transaction
    /// `on`. The progress of the incarnation is dropped. Where `on` is a lower
    /// transaction that is not committed yet, the transaction is parked on it,
    /// and is granted again once `on` has been executed or committed; else it
    /// is granted again at once.
    pub fn suspend(&mut self, txi: TxnIndex, inc: Incarnation, on: TxnIndex)
        requires
            old(self)@.wf(),
            txi < old(self)@.statuses.len(),
            old(self)@.statuses[txi as int] == Status::Executing(inc),
            old(self)@.in_flight > 0,
        ensures
            final(self)@.wf(),
            final(self)@ == spec_suspend(old(self)@, txi as nat, inc, on as nat),
    {
        self.statuses[txi] = Status::ReadyToExecute(inc);
        self.in_flight = self.in_flight - 1;
        if self.commit_idx <= on && on < txi {
            self.waiting[txi] = Some(on);
            let ghost before = self.dependents@;
            self.dependents[on].push(txi);
            assert(self@.dependents =~= old(self)@.dependents.update(
                on as int,
                old(self)@.dependents[on as int].push(txi),
            )) by {
                assert forall|k: int| 0 <= k < self.dependents@.len() implies #[trigger] self@.dependents[k]
                    == old(self)@.dependents.update(
                    on as int,
                    old(self)@.dependents[on as int].push(txi),
                )[k] by {
                    if k != on {
                        assert(self.dependents@[k] == before[k]);
                    }
                }
            }
        } else {
            self.waiting[txi] = None;
            if txi < self.execution_idx {
                self.execution_idx = txi;
            }
        }
    }

    /// Lowers the stop index to `txi`: that transaction and all after it are
    /// granted no more tasks. A halt above the stop index changes nothing.
    pub fn halt(&mut self, txi: TxnIndex, reason: HaltReason)
        requires
            old(self)@.wf(),
        ensures
            final(self)@.wf(),
            final(self)@ == spec_halt(old(self)@, txi as nat, reason),
    {
        if txi < self.stop_idx {
            self.stop_idx = txi;
            self.halt_reason = Some(reason);
        }
    }

    /// The reason of the halt that set the stop index.
    pub fn halt_reason(&self) -> (r: Option<HaltReason>)
        ensures
            r == self@.halt_reason,
    {
        self.halt_reason
    }

    /// Records the commit of the transaction at the commit index.
    pub fn advance_commit(&mut self, inc: Incarnation)
        requires
            old(self)@.wf(),
            old(self)@.commit_idx < old(self)@.statuses.len(),
        ensures
            final(self)@.wf(),
            final(self)@ == spec_advance_commit(old(self)@, inc),
            final(self)@.commit_idx == old(self)@.commit_idx + 1,
            final(self)@.statuses.len() == old(self)@.statuses.len(),
    {
        let i = self.commit_idx;
        self.statuses[i] = Status::Executed(inc);
        self.waiting[i] = None;
        self.commit_idx = i + 1;
        if self.execution_idx <= i {
            self.execution_idx = i + 1;
        }
        if self.validation_idx <= i {
            self.validation_idx = i + 1;
        }
        self.wake(i);
    }
}

} // verus!
