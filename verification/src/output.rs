use crate::types::{Location, TxnIndex};
use crate::vm::TransactionStatus;
use vstd::prelude::*;

verus! {

/// One entry of a final write set.
#[derive(Clone, Debug, PartialEq, Eq)]
pub enum WriteOp {
    /// The location now holds these bytes.
    Value(Vec<u8>),
    /// The location is deleted.
    Delete,
    /// The counter at the location now holds this number.
    MaterializedDelta(i128),
}

/// An entry of a final write set as a mathematical value.
pub enum WriteOpView {
    Value(Seq<u8>),
    Delete,
    MaterializedDelta(i128),
}

impl View for WriteOp {
    type V = WriteOpView;

    open spec fn view(&self) -> WriteOpView {
        match *self {
            WriteOp::Value(b) => WriteOpView::Value(b@),
            WriteOp::Delete => WriteOpView::Delete,
            WriteOp::MaterializedDelta(v) => WriteOpView::MaterializedDelta(v),
        }
    }
}

/// One entry of a final write set with its location.
#[derive(Clone, Debug, PartialEq, Eq)]
pub struct OutputWrite {
    pub loc: Location,
    pub op: WriteOp,
}

/// The output of one transaction.
#[derive(Clone, Debug, PartialEq, Eq)]
pub struct TransactionOutput {
    pub write_set: Vec<OutputWrite>,
    pub events: Vec<Vec<u8>>,
    pub gas_used: u64,
    pub status: TransactionStatus,
}

#[verifier::ext_equal]
pub struct OutputView {
    pub write_set: Seq<(Location, WriteOpView)>,
    pub events: Seq<Seq<u8>>,
    pub gas_used: u64,
    pub status: TransactionStatus,
}

/// The entries of a final write set.
pub open spec fn output_writes_view(w: Seq<OutputWrite>) -> Seq<(Location, WriteOpView)> {
    Seq::new(w.len(), |i: int| (w[i].loc, w[i].op@))
}

impl View for TransactionOutput {
    type V = OutputView;

    open spec fn view(&self) -> OutputView {
        OutputView {
            write_set: output_writes_view(self.write_set@),
            events: crate::view::events_view(self.events@),
            gas_used: self.gas_used,
            status: self.status,
        }
    }
}

/// The outputs of a list of transactions.
pub open spec fn outputs_view(o: Seq<TransactionOutput>) -> Seq<OutputView> {
    Seq::new(o.len(), |i: int| o[i]@)
}

/// The output of a transaction that was not executed: status `Retry`, empty
/// write set, no events, no gas.
pub open spec fn skipped_output() -> OutputView {
    OutputView {
        write_set: Seq::empty(),
        events: Seq::empty(),
        gas_used: 0,
        status: TransactionStatus::Retry,
    }
}

/// Why the execution of a block gave no outputs.
#[derive(Clone, Copy, Debug, PartialEq, Eq, Structural)]
pub enum ExecutionError {
    /// A code location was read by one transaction and written by another;
    /// the caller should execute the block sequentially.
    ModulePathReadWrite,
    /// The virtual machine could not go on at this transaction.
    FatalVMError(TxnIndex),
}

/// The settings of one block execution.
#[derive(Clone, Copy, Debug, PartialEq, Eq, Structural)]
pub struct ExecutorConfig {
    /// The per-block gas limit, if there is one.
    pub gas_limit: Option<u64>,
    /// How many workers take tasks in one round.
    pub concurrency: usize,
    /// How many actions the virtual machine may take for one transaction.
    pub max_steps: usize,
}

} // verus!
