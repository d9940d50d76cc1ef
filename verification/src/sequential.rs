use crate::delta::{spec_decode_counter, spec_encode_counter, DeltaOp};
use crate::output::{skipped_output, ExecutionError, ExecutorConfig, OutputView, WriteOpView};
use crate::types::Location;
use crate::vm::{find_write, run, OutcomeView, RunEnd, RunView, Source, TransactionStatus, VmAdapter};
use vstd::prelude::*;

verus! {

/// The values that the transactions committed so far have written, by
/// location; `None` marks a deleted location.
pub type Overlay = Map<Location, Option<Seq<u8>>>;

/// The state that a transaction reads in serial execution: the committed
/// writes over the base state.
pub open spec fn overlay_source(overlay: Overlay, base: Source) -> Source {
    |loc: Location|
        if overlay.contains_key(loc) {
            overlay[loc]
        } else {
            base(loc)
        }
}

/// The overlay after the writes of `writes`, from first to last.
pub open spec fn apply_writes(overlay: Overlay, writes: Seq<(Location, Option<Seq<u8>>)>) -> Overlay
    decreases writes.len(),
{
    if writes.len() == 0 {
        overlay
    } else {
        apply_writes(overlay, writes.drop_last()).insert(writes.last().0, writes.last().1)
    }
}

/// The value of `loc` under pending writes that are not applied yet.
pub open spec fn pending_value(
    pending: Seq<(Location, Option<Seq<u8>>)>,
    loc: Location,
    src: Source,
) -> Option<Seq<u8>> {
    match find_write(pending, loc) {
        Some(i) => pending[i].1,
        None => src(loc),
    }
}

/// The pending writes of a transaction once the first `vals.len()` of its
/// deltas are resolved to the counter values `vals`.
pub open spec fn pending_after(
    writes: Seq<(Location, Option<Seq<u8>>)>,
    deltas: Seq<(Location, DeltaOp)>,
    vals: Seq<i128>,
) -> Seq<(Location, Option<Seq<u8>>)> {
    writes + Seq::new(vals.len(), |i: int| (deltas[i].0, Some(spec_encode_counter(vals[i]))))
}

/// Resolves the deltas of a transaction in their order, each against the
/// counter as the committed state, the transaction's own writes and its
/// earlier deltas leave it. `None` where a counter is missing or malformed,
/// or a delta leaves its bounds.
pub open spec fn resolve_deltas(
    src: Source,
    writes: Seq<(Location, Option<Seq<u8>>)>,
    deltas: Seq<(Location, DeltaOp)>,
) -> Option<Seq<i128>>
    decreases deltas.len(),
{
    if deltas.len() == 0 {
        Some(Seq::empty())
    } else {
        match resolve_deltas(src, writes, deltas.drop_last()) {
            None => None,
            Some(vals) => {
                let pending = pending_after(writes, deltas.drop_last(), vals);
                let (loc, op) = deltas.last();
                match spec_decode_counter(pending_value(pending, loc, src)) {
                    None => None,
                    Some(current) => match op.spec_apply(current) {
                        None => None,
                        Some(v) => Some(vals.push(v)),
                    },
                }
            },
        }
    }
}

/// The entries that plain writes leave in a final write set.
pub open spec fn plain_outputs(writes: Seq<(Location, Option<Seq<u8>>)>) -> Seq<
    (Location, WriteOpView),
> {
    Seq::new(
        writes.len(),
        |i: int|
            (
                writes[i].0,
                match writes[i].1 {
                    Some(b) => WriteOpView::Value(b),
                    None => WriteOpView::Delete,
                },
            ),
    )
}

/// The entries that resolved deltas leave in a final write set.
pub open spec fn delta_outputs(deltas: Seq<(Location, DeltaOp)>, vals: Seq<i128>) -> Seq<
    (Location, WriteOpView),
> {
    Seq::new(vals.len(), |i: int| (deltas[i].0, WriteOpView::MaterializedDelta(vals[i])))
}

/// The running total of gas: it stops at the largest number.
pub open spec fn add_gas(total: u64, used: u64) -> u64 {
    if total + used > u64::MAX {
        u64::MAX
    } else {
        (total + used) as u64
    }
}

/// The code locations among the locations of `entries`.
pub open spec fn module_locations(entries: Seq<(Location, Option<Seq<u8>>)>) -> Set<Location> {
    Set::new(|loc: Location| loc.module && exists|k: int| 0 <= k < entries.len() && (#[trigger] entries[k]).0 == loc)
}

/// What serial execution has reached after some transactions.
#[verifier::ext_equal]
pub struct SerialState {
    pub overlay: Overlay,
    pub gas: u64,
    /// Whether the rest of the block is skipped.
    pub stopped: bool,
    /// The code locations read so far.
    pub module_reads: Set<Location>,
    /// The code locations written so far.
    pub module_writes: Set<Location>,
    pub outputs: Seq<OutputView>,
    pub error: Option<ExecutionError>,
}

/// Serial execution before the first transaction.
pub open spec fn initial_state() -> SerialState {
    SerialState {
        overlay: Map::empty(),
        gas: 0,
        stopped: false,
        module_reads: Set::empty(),
        module_writes: Set::empty(),
        outputs: Seq::empty(),
        error: None,
    }
}

/// The module-access guard: whether the run reads a code location that an
/// earlier transaction wrote, or writes one that an earlier transaction read.
pub open spec fn module_conflict(s: SerialState, r: RunView) -> bool {
    !module_locations(r.reads).disjoint(s.module_writes) || !module_locations(r.writes).disjoint(
        s.module_reads,
    )
}

/// Whether the commit of a run applies its writes: the run has finished, the
/// guard lets it pass, and its deltas can be resolved.
pub open spec fn applies(s: SerialState, src: Source, o: OutcomeView) -> bool {
    o.end is Finished && !module_conflict(s, o.run) && resolve_deltas(
        src,
        o.run.writes,
        o.run.deltas,
    ).is_some()
}

/// As many counters are resolved as there are deltas.
pub proof fn lemma_resolve_len(
    src: Source,
    writes: Seq<(Location, Option<Seq<u8>>)>,
    deltas: Seq<(Location, DeltaOp)>,
)
    requires
        resolve_deltas(src, writes, deltas).is_some(),
    ensures
        resolve_deltas(src, writes, deltas).unwrap().len() == deltas.len(),
    decreases deltas.len(),
{
    if deltas.len() > 0 {
        lemma_resolve_len(src, writes, deltas.drop_last());
    }
}

/// Commits a finished run on top of `s`: the guard, the deltas, the writes,
/// the gas and the output.
pub open spec fn commit_run(
    s: SerialState,
    src: Source,
    cfg: ExecutorConfig,
    idx: nat,
    o: OutcomeView,
) -> SerialState {
    match o.end {
        RunEnd::Fatal => SerialState { error: Some(ExecutionError::FatalVMError(idx as usize)), ..s },
        RunEnd::Finished(status, gas) => {
            if module_conflict(s, o.run) {
                SerialState { error: Some(ExecutionError::ModulePathReadWrite), ..s }
            } else {
                let total = add_gas(s.gas, gas);
                let over = cfg.gas_limit.is_some() && total > cfg.gas_limit.unwrap();
                let module_reads = s.module_reads.union(module_locations(o.run.reads));
                let module_writes = s.module_writes.union(module_locations(o.run.writes));
                match resolve_deltas(src, o.run.writes, o.run.deltas) {
                    None => SerialState {
                        gas: total,
                        stopped: over,
                        module_reads,
                        module_writes,
                        outputs: s.outputs.push(
                            OutputView {
                                write_set: Seq::empty(),
                                events: Seq::empty(),
                                gas_used: gas,
                                status: TransactionStatus::DeltaApplicationFailure,
                            },
                        ),
                        ..s
                    },
                    Some(vals) => SerialState {
                        overlay: apply_writes(
                            s.overlay,
                            pending_after(o.run.writes, o.run.deltas, vals),
                        ),
                        gas: total,
                        stopped: over || status == TransactionStatus::SkipRest,
                        module_reads,
                        module_writes,
                        outputs: s.outputs.push(
                            OutputView {
                                write_set: plain_outputs(o.run.writes) + delta_outputs(
                                    o.run.deltas,
                                    vals,
                                ),
                                events: o.run.events,
                                gas_used: gas,
                                status,
                            },
                        ),
                        error: None,
                    },
                }
            }
        },
    }
}

/// One step of serial execution: the transaction at `idx` on top of `s`.
pub open spec fn serial_step<V: VmAdapter>(
    vm: &V,
    txn: &V::Txn,
    base: Source,
    cfg: ExecutorConfig,
    s: SerialState,
    idx: nat,
) -> SerialState {
    if s.error.is_some() {
        s
    } else if s.stopped {
        SerialState { outputs: s.outputs.push(skipped_output()), ..s }
    } else {
        let src = overlay_source(s.overlay, base);
        commit_run(s, src, cfg, idx, run(vm, txn, src, cfg.max_steps as nat))
    }
}

/// Serial execution of the first `n` transactions of the block.
pub open spec fn serial_prefix<V: VmAdapter>(
    vm: &V,
    txns: Seq<V::Txn>,
    base: Source,
    cfg: ExecutorConfig,
    n: nat,
) -> SerialState
    decreases n,
{
    if n == 0 {
        initial_state()
    } else {
        serial_step(
            vm,
            &txns[n - 1],
            base,
            cfg,
            serial_prefix(vm, txns, base, cfg, (n - 1) as nat),
            (n - 1) as nat,
        )
    }
}

/// What the execution of a block returns: the outputs of serial execution of
/// its transactions in their order, or the first error that serial execution
/// meets. The number of workers plays no part.
pub open spec fn spec_execute_block<V: VmAdapter>(
    vm: &V,
    txns: Seq<V::Txn>,
    base: Source,
    cfg: ExecutorConfig,
) -> Result<Seq<OutputView>, ExecutionError> {
    let end = serial_prefix(vm, txns, base, cfg, txns.len());
    match end.error {
        Some(e) => Err(e),
        None => Ok(end.outputs),
    }
}

/// While serial execution meets no error it gives one output per transaction.
pub proof fn lemma_serial_length<V: VmAdapter>(
    vm: &V,
    txns: Seq<V::Txn>,
    base: Source,
    cfg: ExecutorConfig,
    n: nat,
)
    requires
        n <= txns.len(),
    ensures
        serial_prefix(vm, txns, base, cfg, n).error.is_none() ==> serial_prefix(
            vm,
            txns,
            base,
            cfg,
            n,
        ).outputs.len() == n,
        serial_prefix(vm, txns, base, cfg, n).error.is_some() && n < txns.len() ==> serial_prefix(
            vm,
            txns,
            base,
            cfg,
            n + 1,
        ) == serial_prefix(vm, txns, base, cfg, n),
    decreases n,
{
    if n > 0 {
        lemma_serial_length(vm, txns, base, cfg, (n - 1) as nat);
    }
}

} // verus!
