use block_executor::delta::{decode_counter, encode_counter, DeltaKind, DeltaOp};
use block_executor::executor::execute_block;
use block_executor::output::{
    ExecutionError, ExecutorConfig, OutputWrite, TransactionOutput, WriteOp,
};
use block_executor::scripted::{Instruction, MemoryState, ScriptedVm, Transaction};
use block_executor::types::Location;
use block_executor::vm::{StateView, TransactionStatus};
use rand::rngs::StdRng;
use rand::{Rng, SeedableRng};
use std::collections::{HashMap, HashSet};

const MAX_STEPS: usize = 64;

/// Serial execution of scripted transactions, written out once more and
/// apart from the library.
fn baseline(
    txns: &[Transaction],
    base: &MemoryState,
    gas_limit: Option<u64>,
) -> Result<Vec<TransactionOutput>, ExecutionError> {
    let mut state: HashMap<Location, Option<Vec<u8>>> = HashMap::new();
    let mut module_reads: HashSet<Location> = HashSet::new();
    let mut module_writes: HashSet<Location> = HashSet::new();
    let mut outputs = Vec::new();
    let mut total: u64 = 0;
    let mut stopped = false;
    for (idx, txn) in txns.iter().enumerate() {
        if stopped {
            outputs.push(TransactionOutput {
                write_set: vec![],
                events: vec![],
                gas_used: 0,
                status: TransactionStatus::Retry,
            });
            continue;
        }
        let current = |state: &HashMap<Location, Option<Vec<u8>>>, loc: &Location| match state.get(loc)
        {
            Some(v) => v.clone(),
            None => base.get(loc),
        };
        let (status, gas, reads, writes, deltas, events) = match txn {
            Transaction::Abort => return Err(ExecutionError::FatalVMError(idx)),
            Transaction::SkipRest { gas } => {
                (TransactionStatus::SkipRest, *gas, vec![], vec![], vec![], vec![])
            },
            Transaction::Script { steps, gas } => {
                if steps.len() >= MAX_STEPS {
                    return Err(ExecutionError::FatalVMError(idx));
                }
                let mut responses: Vec<Option<Vec<u8>>> = Vec::new();
                let mut reads: Vec<Location> = Vec::new();
                let mut writes: Vec<(Location, Option<Vec<u8>>)> = Vec::new();
                let mut deltas: Vec<(Location, DeltaOp)> = Vec::new();
                let mut events: Vec<Vec<u8>> = Vec::new();
                let mut status = TransactionStatus::Success;
                let put = |writes: &mut Vec<(Location, Option<Vec<u8>>)>,
                           loc: Location,
                           v: Option<Vec<u8>>| {
                    match writes.iter().position(|w| w.0 == loc) {
                        Some(i) => writes[i].1 = v,
                        None => writes.push((loc, v)),
                    }
                };
                for step in steps {
                    match step {
                        Instruction::Read(loc) => {
                            match writes.iter().find(|w| w.0 == *loc) {
                                Some(w) => responses.push(w.1.clone()),
                                None => {
                                    reads.push(*loc);
                                    responses.push(current(&state, loc));
                                },
                            }
                        },
                        Instruction::Write(loc, bytes) => {
                            put(&mut writes, *loc, Some(bytes.clone()));
                            responses.push(None);
                        },
                        Instruction::Delete(loc) => {
                            put(&mut writes, *loc, None);
                            responses.push(None);
                        },
                        Instruction::Delta(loc, op) => {
                            deltas.push((*loc, *op));
                            responses.push(None);
                        },
                        Instruction::Emit(e) => {
                            events.push(e.clone());
                            responses.push(None);
                        },
                        Instruction::Bump { loc, source, change } => {
                            let counter = responses.get(*source).and_then(|r| decode_counter(r));
                            match counter.and_then(|c| c.checked_add(*change as i128)) {
                                Some(v) => {
                                    put(&mut writes, *loc, Some(encode_counter(v)));
                                    responses.push(None);
                                },
                                None => {
                                    status = TransactionStatus::Abort(1);
                                    break;
                                },
                            }
                        },
                    }
                }
                (status, *gas, reads, writes, deltas, events)
            },
        };
        let reads_module: Vec<Location> = reads.iter().filter(|l| l.module).cloned().collect();
        let writes_module: Vec<Location> =
            writes.iter().map(|w| w.0).filter(|l| l.module).collect();
        if reads_module.iter().any(|l| module_writes.contains(l))
            || writes_module.iter().any(|l| module_reads.contains(l))
        {
            return Err(ExecutionError::ModulePathReadWrite);
        }
        module_reads.extend(reads_module);
        module_writes.extend(writes_module);
        total = total.saturating_add(gas);
        let over = matches!(gas_limit, Some(limit) if total > limit);
        let mut pending: Vec<(Location, Option<Vec<u8>>)> = writes.clone();
        let mut resolved: Option<Vec<i128>> = Some(vec![]);
        for (loc, op) in &deltas {
            let stored = match pending.iter().rev().find(|w| w.0 == *loc) {
                Some(w) => w.1.clone(),
                None => current(&state, loc),
            };
            let next = decode_counter(&stored).and_then(|c| {
                let moved = match op.kind {
                    DeltaKind::Add => c + op.magnitude as i128,
                    DeltaKind::Sub => c - op.magnitude as i128,
                };
                if op.lower_bound <= moved && moved <= op.upper_bound {
                    Some(moved)
                } else {
                    None
                }
            });
            match next {
                Some(v) => {
                    pending.push((*loc, Some(encode_counter(v))));
                    resolved.as_mut().unwrap().push(v);
                },
                None => {
                    resolved = None;
                    break;
                },
            }
        }
        match resolved {
            None => {
                stopped = over;
                outputs.push(TransactionOutput {
                    write_set: vec![],
                    events: vec![],
                    gas_used: gas,
                    status: TransactionStatus::DeltaApplicationFailure,
                });
            },
            Some(vals) => {
                for (loc, v) in pending {
                    state.insert(loc, v);
                }
                stopped = over || status == TransactionStatus::SkipRest;
                let mut write_set: Vec<OutputWrite> = writes
                    .into_iter()
                    .map(|(loc, v)| OutputWrite {
                        loc,
                        op: match v {
                            Some(b) => WriteOp::Value(b),
                            None => WriteOp::Delete,
                        },
                    })
                    .collect();
                for (i, v) in vals.into_iter().enumerate() {
                    write_set
                        .push(OutputWrite { loc: deltas[i].0, op: WriteOp::MaterializedDelta(v) });
                }
                outputs.push(TransactionOutput { write_set, events, gas_used: gas, status });
            },
        }
    }
    Ok(outputs)
}

#[derive(Clone, Copy)]
struct Shape {
    universe: u64,
    /// Whether reads and writes go to code locations.
    module_access: (bool, bool),
    deltas: bool,
}

fn random_transaction(rng: &mut StdRng, shape: Shape) -> Transaction {
    let mut steps = Vec::new();
    let key = |rng: &mut StdRng, module: bool| Location::new(rng.gen_range(0, shape.universe), module);
    let n_reads = rng.gen_range(0, 4);
    for _ in 0..n_reads {
        steps.push(Instruction::Read(key(rng, shape.module_access.0)));
    }
    let n_writes = rng.gen_range(0, 4);
    for _ in 0..n_writes {
        let loc = key(rng, shape.module_access.1);
        match rng.gen_range(0, 10) {
            0 if !shape.deltas => steps.push(Instruction::Delete(loc)),
            1..=3 => steps.push(Instruction::Write(loc, encode_counter(rng.gen_range(0, 50)))),
            4..=5 if n_reads > 0 => steps.push(Instruction::Bump {
                loc,
                source: rng.gen_range(0, n_reads),
                change: rng.gen_range(-3, 4),
            }),
            _ => steps.push(Instruction::Write(loc, vec![rng.gen(), rng.gen()])),
        }
    }
    if shape.deltas {
        for _ in 0..rng.gen_range(0, 3) {
            let loc = Location::new(rng.gen_range(0, 15), false);
            let op = if rng.gen() {
                DeltaOp::plus(rng.gen_range(0, 20), 0, 1000)
            } else {
                DeltaOp::minus(rng.gen_range(0, 20), 0, 1000)
            };
            steps.push(Instruction::Delta(loc, op));
        }
    }
    if rng.gen_range(0, 8) == 0 {
        steps.push(Instruction::Emit(vec![rng.gen()]));
    }
    Transaction::Script { steps, gas: 1 }
}

fn random_block(rng: &mut StdRng, num_txns: usize, shape: Shape) -> Vec<Transaction> {
    (0..num_txns).map(|_| random_transaction(rng, shape)).collect()
}

fn counters_base() -> MemoryState {
    let mut base = MemoryState::new();
    for k in 0..15 {
        base.insert(Location::new(k, false), encode_counter(500));
    }
    base
}

fn check_block(
    txns: &Vec<Transaction>,
    base: &MemoryState,
    num_repeat: usize,
    maybe_block_gas_limit: Option<u64>,
) -> Result<Vec<TransactionOutput>, ExecutionError> {
    let expected = baseline(txns, base, maybe_block_gas_limit);
    let vm = ScriptedVm::new();
    for round in 0..num_repeat {
        let concurrency = match round % 4 {
            0 => num_cpus::get(),
            1 => 1,
            2 => 3,
            _ => 16,
        };
        let cfg =
            ExecutorConfig { gas_limit: maybe_block_gas_limit, concurrency, max_steps: MAX_STEPS };
        let output = execute_block(&vm, txns, base, &cfg);
        assert_eq!(output, expected);
        if let Ok(outputs) = &output {
            assert_eq!(outputs.len(), txns.len());
        }
    }
    expected
}

fn run_transactions(
    universe: u64,
    num_txns: usize,
    abort_transactions: usize,
    skip_rest_transactions: usize,
    num_repeat: usize,
    module_access: (bool, bool),
    maybe_block_gas_limit: Option<u64>,
) {
    let mut rng = StdRng::seed_from_u64(rand::thread_rng().gen());
    let shape = Shape { universe, module_access, deltas: false };
    let mut transactions = random_block(&mut rng, num_txns, shape);
    for _ in 0..abort_transactions {
        let i = rng.gen_range(0, num_txns);
        transactions[i] = Transaction::Abort;
    }
    for _ in 0..skip_rest_transactions {
        let i = rng.gen_range(0, num_txns);
        transactions[i] = Transaction::SkipRest { gas: 1 };
    }
    let output = check_block(&transactions, &MemoryState::new(), num_repeat, maybe_block_gas_limit);
    // With every transaction committed, reads and writes of code meet.
    if module_access.0 && module_access.1 && maybe_block_gas_limit.is_none() {
        assert_eq!(output.unwrap_err(), ExecutionError::ModulePathReadWrite);
    }
}

fn dynamic_read_writes_with_block_gas_limit(num_txns: usize, maybe_block_gas_limit: Option<u64>) {
    run_transactions(100, num_txns, 0, 0, 100, (false, false), maybe_block_gas_limit);
}

fn deltas_writes_mixed_with_block_gas_limit(num_txns: usize, maybe_block_gas_limit: Option<u64>) {
    let mut rng = StdRng::seed_from_u64(rand::thread_rng().gen());
    let shape = Shape { universe: 50, module_access: (false, false), deltas: true };
    let transactions = random_block(&mut rng, num_txns, shape);
    let output = check_block(&transactions, &counters_base(), 20, maybe_block_gas_limit);
    assert!(output.is_ok());
}

fn deltas_resolver_with_block_gas_limit(num_txns: usize, maybe_block_gas_limit: Option<u64>) {
    let mut rng = StdRng::seed_from_u64(rand::thread_rng().gen());
    let shape = Shape { universe: 50, module_access: (false, false), deltas: true };
    let transactions = random_block(&mut rng, num_txns, shape);
    let base = counters_base();
    let outputs = check_block(&transactions, &base, 20, maybe_block_gas_limit).expect("Must be success");
    // Every resolved delta is the counter that the writes before it lead to.
    let mut counters: HashMap<Location, Option<i128>> = HashMap::new();
    for out in &outputs {
        for w in &out.write_set {
            match &w.op {
                WriteOp::MaterializedDelta(v) => {
                    let before = match counters.get(&w.loc) {
                        Some(c) => *c,
                        None => decode_counter(&base.get(&w.loc)),
                    };
                    let before = before.expect("a delta was resolved on a counter");
                    assert!((before - v).abs() <= 20);
                    assert!(0 <= *v && *v <= 1000);
                    counters.insert(w.loc, Some(*v));
                },
                WriteOp::Value(b) => {
                    counters.insert(w.loc, decode_counter(&Some(b.clone())));
                },
                WriteOp::Delete => {
                    counters.insert(w.loc, None);
                },
            }
        }
    }
}

fn dynamic_read_writes_contended_with_block_gas_limit(
    num_txns: usize,
    maybe_block_gas_limit: Option<u64>,
) {
    run_transactions(10, num_txns, 0, 0, 100, (false, false), maybe_block_gas_limit);
}

fn module_publishing_fallback_with_block_gas_limit(
    num_txns: usize,
    maybe_block_gas_limit: Option<u64>,
) {
    run_transactions(100, num_txns, 0, 0, 2, (false, true), maybe_block_gas_limit);
    run_transactions(100, num_txns, 0, 0, 2, (false, true), maybe_block_gas_limit);
    run_transactions(100, num_txns, 0, 0, 2, (true, true), maybe_block_gas_limit);
}

fn publishing_fixed_params_with_block_gas_limit(
    num_txns: usize,
    maybe_block_gas_limit: Option<u64>,
) {
    let mut rng = StdRng::seed_from_u64(rand::thread_rng().gen());
    // The first 12 keys are data, the next 14 are code that is only read, and
    // the keys from 26 to 40 are code that is only written.
    let mut transactions: Vec<Transaction> = (0..num_txns)
        .map(|_| {
            let mut steps = vec![Instruction::Read(Location::new(rng.gen_range(0, 12), false))];
            for _ in 0..rng.gen_range(0, 3) {
                steps.push(Instruction::Read(Location::new(rng.gen_range(12, 26), true)));
            }
            steps.push(Instruction::Write(Location::new(rng.gen_range(0, 12), false), vec![rng.gen()]));
            for _ in 0..rng.gen_range(0, 3) {
                steps.push(Instruction::Write(
                    Location::new(rng.gen_range(26, 40), true),
                    vec![rng.gen()],
                ));
            }
            Transaction::Script { steps, gas: 1 }
        })
        .collect();
    let w_index = rng.gen_range(0, num_txns);
    let mut r_index = rng.gen_range(0, num_txns);
    while r_index == w_index {
        r_index = rng.gen_range(0, num_txns);
    }
    if let Transaction::Script { steps, .. } = &mut transactions[w_index] {
        let at = rng.gen_range(0, steps.len());
        steps.insert(at, Instruction::Write(Location::new(42, true), vec![1]));
    }
    // Still no intersection.
    let output = check_block(&transactions, &MemoryState::new(), 1, maybe_block_gas_limit);
    assert!(output.is_ok());

    if let Transaction::Script { steps, .. } = &mut transactions[r_index] {
        let at = rng.gen_range(0, steps.len());
        steps.insert(at, Instruction::Read(Location::new(42, true)));
    }
    // Enough gas to commit both transactions.
    let limit = Some(std::cmp::max(w_index, r_index) as u64 + 1);
    let vm = ScriptedVm::new();
    assert_eq!(baseline(&transactions, &MemoryState::new(), limit), Err(ExecutionError::ModulePathReadWrite));
    for _ in 0..200 {
        let cfg = ExecutorConfig { gas_limit: limit, concurrency: num_cpus::get(), max_steps: MAX_STEPS };
        let output = execute_block(&vm, &transactions, &MemoryState::new(), &cfg);
        assert_eq!(output.unwrap_err(), ExecutionError::ModulePathReadWrite);
    }
}

#[test]
fn no_early_termination() {
    run_transactions(100, 5000, 0, 0, 1, (false, false), None);
}

#[test]
fn abort_only() {
    run_transactions(100, 5000, 5, 0, 1, (false, false), None);
}

#[test]
fn skip_rest_only() {
    run_transactions(100, 5000, 0, 5, 1, (false, false), None);
}

#[test]
fn mixed_transactions() {
    run_transactions(100, 5000, 5, 5, 1, (false, false), None);
}

#[test]
fn dynamic_read_writes_mixed() {
    run_transactions(100, 3000, 3, 3, 1, (false, false), None);
}

#[test]
fn dynamic_read_writes() {
    dynamic_read_writes_with_block_gas_limit(3000, None);
}

#[test]
fn deltas_writes_mixed() {
    deltas_writes_mixed_with_block_gas_limit(1000, None);
}

#[test]
fn deltas_resolver() {
    deltas_resolver_with_block_gas_limit(1000, None);
}

#[test]
fn dynamic_read_writes_contended() {
    dynamic_read_writes_contended_with_block_gas_limit(1000, None);
}

#[test]
fn module_publishing_fallback() {
    module_publishing_fallback_with_block_gas_limit(3000, None);
}

#[test]
// A single intersection of code reads and writes among many dependencies.
fn module_publishing_races() {
    for _ in 0..5 {
        publishing_fixed_params_with_block_gas_limit(300, None);
    }
}

#[test]
fn no_early_termination_with_block_gas_limit() {
    let limit = rand::thread_rng().gen_range(0, 5000) as u64;
    run_transactions(100, 5000, 0, 0, 1, (false, false), Some(limit));
}

#[test]
fn abort_only_with_block_gas_limit() {
    let limit = rand::thread_rng().gen_range(0, 10) as u64;
    run_transactions(100, 10, 5, 0, 1, (false, false), Some(limit));
}

#[test]
fn skip_rest_only_with_block_gas_limit() {
    let limit = rand::thread_rng().gen_range(0, 5000) as u64;
    run_transactions(100, 5000, 0, 5, 1, (false, false), Some(limit));
}

#[test]
fn mixed_transactions_with_block_gas_limit() {
    let limit = rand::thread_rng().gen_range(0, 5000) as u64;
    run_transactions(100, 5000, 5, 5, 1, (false, false), Some(limit));
}

#[test]
fn dynamic_read_writes_mixed_with_block_gas_limit() {
    let limit = rand::thread_rng().gen_range(0, 5000) as u64;
    run_transactions(100, 5000, 3, 3, 1, (false, false), Some(limit));
}

#[test]
fn dynamic_read_writes_with_block_gas_limit_test() {
    dynamic_read_writes_with_block_gas_limit(
        3000,
        Some(rand::thread_rng().gen_range(0, 3000) as u64),
    );
    dynamic_read_writes_with_block_gas_limit(3000, Some(0));
}

#[test]
fn deltas_writes_mixed_with_block_gas_limit_test() {
    deltas_writes_mixed_with_block_gas_limit(
        1000,
        Some(rand::thread_rng().gen_range(0, 1000) as u64),
    );
    deltas_writes_mixed_with_block_gas_limit(1000, Some(0));
}

#[test]
fn deltas_resolver_with_block_gas_limit_test() {
    deltas_resolver_with_block_gas_limit(1000, Some(rand::thread_rng().gen_range(0, 1000) as u64));
    deltas_resolver_with_block_gas_limit(1000, Some(0));
}

#[test]
fn dynamic_read_writes_contended_with_block_gas_limit_test() {
    dynamic_read_writes_contended_with_block_gas_limit(
        1000,
        Some(rand::thread_rng().gen_range(0, 1000) as u64),
    );
    dynamic_read_writes_contended_with_block_gas_limit(1000, Some(0));
}

#[test]
fn module_publishing_fallback_with_block_gas_limit_test() {
    module_publishing_fallback_with_block_gas_limit(
        3000,
        // At least two transactions have to commit for a race.
        Some(rand::thread_rng().gen_range(1, 3000) as u64),
    );
}

#[test]
// A single intersection of code reads and writes among many dependencies.
fn module_publishing_races_with_block_gas_limit_test() {
    for _ in 0..5 {
        publishing_fixed_params_with_block_gas_limit(
            300,
            Some(rand::thread_rng().gen_range(0, 300) as u64),
        );
    }
}
