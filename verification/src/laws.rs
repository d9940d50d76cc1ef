use crate::delta::{
    apply_all, lemma_counter_round_trip, lemma_delta_commutativity, spec_decode_counter,
    spec_encode_counter, DeltaOp,
};
use crate::output::{skipped_output, ExecutionError, ExecutorConfig, OutputView};
use crate::sequential::{
    apply_writes, commit_run, initial_state, module_conflict, module_locations, overlay_source,
    pending_after, pending_value, resolve_deltas, serial_prefix, spec_execute_block, Overlay,
};
use crate::types::Location;
use crate::vm::{find_write, TransactionStatus};
use crate::view::{reads_view, TxnRecord};
use crate::vm::{empty_run, lemma_run_agreement, run, source_agrees, Source, VmAdapter};
use vstd::prelude::*;

verus! {

/// Determinism: the result of a block execution does not depend on the
/// number of workers. Two configurations that differ in nothing else lead to
/// the same outputs or the same error.
pub proof fn lemma_result_independent_of_concurrency<V: VmAdapter>(
    vm: &V,
    txns: Seq<V::Txn>,
    base: Source,
    cfg1: ExecutorConfig,
    cfg2: ExecutorConfig,
)
    requires
        cfg1.gas_limit == cfg2.gas_limit,
        cfg1.max_steps == cfg2.max_steps,
    ensures
        spec_execute_block(vm, txns, base, cfg1) == spec_execute_block(vm, txns, base, cfg2),
{
    lemma_prefix_independent_of_concurrency(vm, txns, base, cfg1, cfg2, txns.len());
}

proof fn lemma_prefix_independent_of_concurrency<V: VmAdapter>(
    vm: &V,
    txns: Seq<V::Txn>,
    base: Source,
    cfg1: ExecutorConfig,
    cfg2: ExecutorConfig,
    n: nat,
)
    requires
        cfg1.gas_limit == cfg2.gas_limit,
        cfg1.max_steps == cfg2.max_steps,
    ensures
        serial_prefix(vm, txns, base, cfg1, n) == serial_prefix(vm, txns, base, cfg2, n),
    decreases n,
{
    if n > 0 {
        lemma_prefix_independent_of_concurrency(vm, txns, base, cfg1, cfg2, (n - 1) as nat);
    }
}

/// Length preservation: a block execution that succeeds gives exactly one
/// output for each transaction.
pub proof fn lemma_length_preserved<V: VmAdapter>(
    vm: &V,
    txns: Seq<V::Txn>,
    base: Source,
    cfg: ExecutorConfig,
)
    ensures
        match spec_execute_block(vm, txns, base, cfg) {
            Ok(outputs) => outputs.len() == txns.len(),
            Err(_) => true,
        },
{
    crate::sequential::lemma_serial_length(vm, txns, base, cfg, txns.len());
}

/// No commit without validation: a speculative record is committed only
/// after its final validation, at a time when every transaction below it is
/// committed. A record that is the run of the machine over some source, and
/// whose every read still finds the value it saw in the committed state, is
/// the run of the machine over the committed state.
pub proof fn lemma_validated_record_is_serial_run<V: VmAdapter>(
    vm: &V,
    txn: &V::Txn,
    rec: TxnRecord,
    speculative: Source,
    committed: Source,
    fuel: nat,
)
    requires
        rec.outcome() == run(vm, txn, speculative, fuel),
        source_agrees(committed, reads_view(rec.run.reads@), 0),
    ensures
        rec.outcome() == run(vm, txn, committed, fuel),
{
    lemma_run_agreement(vm, txn, speculative, committed, empty_run(), fuel);
}

/// The empty block: no output, no error.
pub proof fn lemma_empty_block<V: VmAdapter>(vm: &V, base: Source, cfg: ExecutorConfig)
    ensures
        spec_execute_block(vm, Seq::<V::Txn>::empty(), base, cfg) == Ok::<
            Seq<OutputView>,
            ExecutionError,
        >(Seq::empty()),
{
}

/// A block of one transaction: the result is the commit of one run of the
/// machine on the base state.
pub proof fn lemma_single_transaction<V: VmAdapter>(
    vm: &V,
    txns: Seq<V::Txn>,
    base: Source,
    cfg: ExecutorConfig,
)
    requires
        txns.len() == 1,
    ensures
        serial_prefix(vm, txns, base, cfg, 1) == commit_run(
            initial_state(),
            base,
            cfg,
            0,
            run(vm, &txns[0], base, cfg.max_steps as nat),
        ),
{
    assert(overlay_source(initial_state().overlay, base) =~= base);
    assert(serial_prefix(vm, txns, base, cfg, 0) == initial_state());
}

/// Truncation: once the block is stopped, by a transaction that asks to skip
/// the rest or by the gas limit, every later transaction gets the skipped
/// output, with status `Retry` and an empty write set, and the outputs
/// before it stay as they are.
pub proof fn lemma_skipped_after_stop<V: VmAdapter>(
    vm: &V,
    txns: Seq<V::Txn>,
    base: Source,
    cfg: ExecutorConfig,
    n: nat,
    m: nat,
)
    requires
        n <= m <= txns.len(),
        serial_prefix(vm, txns, base, cfg, n).stopped,
        serial_prefix(vm, txns, base, cfg, n).error.is_none(),
    ensures
        serial_prefix(vm, txns, base, cfg, m).stopped,
        serial_prefix(vm, txns, base, cfg, m).error.is_none(),
        serial_prefix(vm, txns, base, cfg, m).outputs.len() == m,
        forall|j: int|
            0 <= j < n ==> serial_prefix(vm, txns, base, cfg, m).outputs[j] == serial_prefix(
                vm,
                txns,
                base,
                cfg,
                n,
            ).outputs[j],
        forall|j: int|
            n <= j < m ==> serial_prefix(vm, txns, base, cfg, m).outputs[j] == skipped_output(),
    decreases m - n,
{
    crate::sequential::lemma_serial_length(vm, txns, base, cfg, n);
    if n < m {
        lemma_skipped_after_stop(vm, txns, base, cfg, n, (m - 1) as nat);
    }
}

/// The gas limit: a transaction that takes the running total of gas over the
/// limit is committed and stops the block.
pub proof fn lemma_gas_limit_stops<V: VmAdapter>(
    vm: &V,
    txns: Seq<V::Txn>,
    base: Source,
    cfg: ExecutorConfig,
    n: nat,
)
    requires
        n < txns.len(),
        serial_prefix(vm, txns, base, cfg, n + 1).error.is_none(),
        cfg.gas_limit.is_some(),
        serial_prefix(vm, txns, base, cfg, n + 1).gas > cfg.gas_limit.unwrap(),
        !serial_prefix(vm, txns, base, cfg, n).stopped,
    ensures
        serial_prefix(vm, txns, base, cfg, n + 1).stopped,
{
    crate::sequential::lemma_serial_length(vm, txns, base, cfg, n);
}

/// Whether every run of `txn` does nothing but apply `op` to the counter at
/// `c`, and does not ask to skip the rest of the block.
pub open spec fn delta_only<V: VmAdapter>(
    vm: &V,
    txn: &V::Txn,
    c: Location,
    op: DeltaOp,
    fuel: nat,
) -> bool {
    forall|src: Source|
        {
            let o = #[trigger] run(vm, txn, src, fuel);
            &&& o.end is Finished
            &&& o.end->Finished_0 != TransactionStatus::SkipRest
            &&& o.run.reads.len() == 0
            &&& o.run.writes.len() == 0
            &&& o.run.deltas == seq![(c, op)]
        }
}

/// The committed values after a block of delta-only transactions on the
/// counter at `c`: nothing before the first, and the counter after.
pub open spec fn counter_overlay(c: Location, v0: i128, ops: Seq<DeltaOp>) -> Overlay {
    if ops.len() == 0 {
        Map::empty()
    } else {
        Map::<Location, Option<Seq<u8>>>::empty().insert(
            c,
            Some(spec_encode_counter(apply_all(v0, ops).unwrap())),
        )
    }
}

proof fn lemma_apply_all_prefix(v0: i128, ops: Seq<DeltaOp>, k: int)
    requires
        0 <= k <= ops.len(),
        apply_all(v0, ops).is_some(),
    ensures
        apply_all(v0, ops.subrange(0, k)).is_some(),
    decreases ops.len() - k,
{
    if k < ops.len() {
        lemma_apply_all_prefix(v0, ops, k + 1);
        assert(ops.subrange(0, k + 1).drop_last() =~= ops.subrange(0, k));
    } else {
        assert(ops.subrange(0, k) =~= ops);
    }
}

proof fn lemma_delta_only_prefix<V: VmAdapter>(
    vm: &V,
    txns: Seq<V::Txn>,
    ops: Seq<DeltaOp>,
    c: Location,
    v0: i128,
    base: Source,
    cfg: ExecutorConfig,
    k: nat,
)
    requires
        k <= txns.len() == ops.len(),
        !c.module,
        cfg.gas_limit.is_none(),
        spec_decode_counter(base(c)) == Some(v0),
        apply_all(v0, ops).is_some(),
        forall|i: int|
            0 <= i < txns.len() ==> delta_only(vm, #[trigger] &txns[i], c, ops[i], cfg.max_steps as nat),
    ensures
        serial_prefix(vm, txns, base, cfg, k).error.is_none(),
        !serial_prefix(vm, txns, base, cfg, k).stopped,
        serial_prefix(vm, txns, base, cfg, k).overlay == counter_overlay(
            c,
            v0,
            ops.subrange(0, k as int),
        ),
    decreases k,
{
    if k == 0 {
        assert(ops.subrange(0, 0) =~= Seq::<DeltaOp>::empty());
    } else {
        let j = (k - 1) as nat;
        lemma_delta_only_prefix(vm, txns, ops, c, v0, base, cfg, j);
        lemma_apply_all_prefix(v0, ops, j as int);
        lemma_apply_all_prefix(v0, ops, k as int);
        let s = serial_prefix(vm, txns, base, cfg, j);
        let src = overlay_source(s.overlay, base);
        let fuel = cfg.max_steps as nat;
        assert(delta_only(vm, &txns[j as int], c, ops[j as int], fuel));
        let o = run(vm, &txns[j as int], src, fuel);
        let before = ops.subrange(0, j as int);
        let upto = ops.subrange(0, k as int);
        assert(upto.drop_last() =~= before);
        assert(upto.last() == ops[j as int]);
        let current = apply_all(v0, before).unwrap();
        assert(spec_decode_counter(src(c)) == Some(current)) by {
            if j == 0 {
                assert(before =~= Seq::<DeltaOp>::empty());
            } else {
                lemma_counter_round_trip(current);
            }
        }
        assert(module_locations(o.run.reads) =~= Set::<Location>::empty());
        assert(module_locations(o.run.writes) =~= Set::<Location>::empty());
        assert(!module_conflict(s, o.run));
        let deltas = o.run.deltas;
        assert(deltas.drop_last() =~= Seq::<(Location, DeltaOp)>::empty());
        assert(deltas.last() == (c, ops[j as int]));
        let none = Seq::<(Location, DeltaOp)>::empty();
        assert(resolve_deltas(src, o.run.writes, none) == Some(Seq::<i128>::empty()));
        let pending = pending_after(o.run.writes, none, Seq::<i128>::empty());
        assert(pending =~= Seq::<(Location, Option<Seq<u8>>)>::empty());
        assert(find_write(pending, c).is_none());
        assert(pending_value(pending, c, src) == src(c));
        let v = apply_all(v0, upto).unwrap();
        assert(ops[j as int].spec_apply(current) == Some(v));
        assert(resolve_deltas(src, o.run.writes, deltas) == Some(seq![v]));
        let all = pending_after(o.run.writes, deltas, seq![v]);
        assert(all =~= seq![(c, Some(spec_encode_counter(v)))]);
        assert(all.drop_last() =~= Seq::<(Location, Option<Seq<u8>>)>::empty());
        assert(apply_writes(s.overlay, all.drop_last()) == s.overlay);
        assert(all.last() == (c, Some(spec_encode_counter(v))));
        assert(apply_writes(s.overlay, all) == s.overlay.insert(c, Some(spec_encode_counter(v))));
        assert(s.overlay.insert(c, Some(spec_encode_counter(v))) =~= counter_overlay(c, v0, upto));
    }
}

/// Delta commutativity for blocks: two blocks of transactions that do
/// nothing but apply deltas to one counter, the same deltas in two orders, both
/// of which keep the counter within bounds at every step, leave the same
/// committed state.
pub proof fn lemma_delta_blocks_commute<V: VmAdapter>(
    vm: &V,
    first: Seq<V::Txn>,
    first_ops: Seq<DeltaOp>,
    second: Seq<V::Txn>,
    second_ops: Seq<DeltaOp>,
    c: Location,
    v0: i128,
    base: Source,
    cfg: ExecutorConfig,
)
    requires
        first.len() == first_ops.len(),
        second.len() == second_ops.len(),
        first_ops.to_multiset() == second_ops.to_multiset(),
        !c.module,
        cfg.gas_limit.is_none(),
        spec_decode_counter(base(c)) == Some(v0),
        apply_all(v0, first_ops).is_some(),
        apply_all(v0, second_ops).is_some(),
        forall|i: int|
            0 <= i < first.len() ==> delta_only(
                vm,
                #[trigger] &first[i],
                c,
                first_ops[i],
                cfg.max_steps as nat,
            ),
        forall|i: int|
            0 <= i < second.len() ==> delta_only(
                vm,
                #[trigger] &second[i],
                c,
                second_ops[i],
                cfg.max_steps as nat,
            ),
    ensures
        serial_prefix(vm, first, base, cfg, first.len()).error.is_none(),
        serial_prefix(vm, second, base, cfg, second.len()).error.is_none(),
        serial_prefix(vm, first, base, cfg, first.len()).overlay == serial_prefix(
            vm,
            second,
            base,
            cfg,
            second.len(),
        ).overlay,
{
    lemma_delta_only_prefix(vm, first, first_ops, c, v0, base, cfg, first.len());
    lemma_delta_only_prefix(vm, second, second_ops, c, v0, base, cfg, second.len());
    assert(first_ops.subrange(0, first_ops.len() as int) =~= first_ops);
    assert(second_ops.subrange(0, second_ops.len() as int) =~= second_ops);
    lemma_delta_commutativity(v0, first_ops, second_ops);
    first_ops.to_multiset_ensures();
    second_ops.to_multiset_ensures();
}

} // verus!
