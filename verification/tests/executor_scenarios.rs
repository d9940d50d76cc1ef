use block_executor::delta::{encode_counter, DeltaOp};
use block_executor::executor::execute_block;
use block_executor::output::{
    ExecutionError, ExecutorConfig, OutputWrite, TransactionOutput, WriteOp,
};
use block_executor::scripted::{Instruction, MemoryState, ScriptedVm, Transaction};
use block_executor::types::Location;
use block_executor::vm::TransactionStatus;

fn data(key: u64) -> Location {
    Location::new(key, false)
}

fn module(key: u64) -> Location {
    Location::new(key, true)
}

fn config(gas_limit: Option<u64>, concurrency: usize) -> ExecutorConfig {
    ExecutorConfig { gas_limit, concurrency, max_steps: 64 }
}

const WORKERS: [usize; 7] = [0, 1, 2, 3, 8, 64, usize::MAX];

fn run_all(
    txns: &Vec<Transaction>,
    base: &MemoryState,
    gas_limit: Option<u64>,
) -> Result<Vec<TransactionOutput>, ExecutionError> {
    let vm = ScriptedVm::new();
    let serial = execute_block(&vm, txns, base, &config(gas_limit, 0));
    for w in WORKERS {
        let parallel = execute_block(&vm, txns, base, &config(gas_limit, w));
        assert_eq!(parallel, serial, "concurrency {}", w);
    }
    serial
}

fn skipped() -> TransactionOutput {
    TransactionOutput { write_set: vec![], events: vec![], gas_used: 0, status: TransactionStatus::Retry }
}

#[test]
fn empty_block_gives_empty_output() {
    let out = run_all(&vec![], &MemoryState::new(), None).unwrap();
    assert!(out.is_empty());
    let out = run_all(&vec![], &MemoryState::new(), Some(0)).unwrap();
    assert!(out.is_empty());
}

#[test]
fn single_transaction_matches_direct_run() {
    let mut base = MemoryState::new();
    base.insert(data(1), vec![7, 7]);
    let txns = vec![Transaction::Script {
        steps: vec![
            Instruction::Read(data(1)),
            Instruction::Write(data(2), vec![1, 2, 3]),
            Instruction::Emit(vec![9]),
            Instruction::Delete(data(1)),
        ],
        gas: 5,
    }];
    let out = run_all(&txns, &base, None).unwrap();
    assert_eq!(
        out,
        vec![TransactionOutput {
            write_set: vec![
                OutputWrite { loc: data(2), op: WriteOp::Value(vec![1, 2, 3]) },
                OutputWrite { loc: data(1), op: WriteOp::Delete },
            ],
            events: vec![vec![9]],
            gas_used: 5,
            status: TransactionStatus::Success,
        }]
    );
}

#[test]
fn independent_writers() {
    let txns: Vec<Transaction> = (0..10u64)
        .map(|i| Transaction::Script {
            steps: vec![Instruction::Write(data(i), vec![i as u8])],
            gas: 1,
        })
        .collect();
    let out = run_all(&txns, &MemoryState::new(), None).unwrap();
    assert_eq!(out.len(), 10);
    for (i, o) in out.iter().enumerate() {
        assert_eq!(
            o.write_set,
            vec![OutputWrite { loc: data(i as u64), op: WriteOp::Value(vec![i as u8]) }]
        );
        assert_eq!(o.status, TransactionStatus::Success);
        assert_eq!(o.gas_used, 1);
    }
}

#[test]
fn read_after_write_chain() {
    let k = data(1);
    let bump = || Transaction::Script {
        steps: vec![Instruction::Read(k), Instruction::Bump { loc: k, source: 0, change: 1 }],
        gas: 1,
    };
    let txns = vec![
        Transaction::Script { steps: vec![Instruction::Write(k, encode_counter(1))], gas: 1 },
        bump(),
        bump(),
    ];
    let out = run_all(&txns, &MemoryState::new(), None).unwrap();
    assert_eq!(out.len(), 3);
    assert_eq!(out[1].write_set, vec![OutputWrite { loc: k, op: WriteOp::Value(encode_counter(2)) }]);
    assert_eq!(out[2].write_set, vec![OutputWrite { loc: k, op: WriteOp::Value(encode_counter(3)) }]);
    assert!(out.iter().all(|o| o.status == TransactionStatus::Success));
}

#[test]
fn hot_key_completes() {
    let k = data(42);
    let mut txns = vec![Transaction::Script {
        steps: vec![Instruction::Write(k, encode_counter(0))],
        gas: 1,
    }];
    for _ in 0..200 {
        txns.push(Transaction::Script {
            steps: vec![Instruction::Read(k), Instruction::Bump { loc: k, source: 0, change: 1 }],
            gas: 1,
        });
    }
    let out = run_all(&txns, &MemoryState::new(), None).unwrap();
    assert_eq!(out.len(), 201);
    assert_eq!(
        out[200].write_set,
        vec![OutputWrite { loc: k, op: WriteOp::Value(encode_counter(200)) }]
    );
}

#[test]
fn abort_and_skip() {
    let mut txns: Vec<Transaction> = (0..3u64)
        .map(|i| Transaction::Script {
            steps: vec![Instruction::Write(data(i), vec![1])],
            gas: 2,
        })
        .collect();
    txns.push(Transaction::SkipRest { gas: 3 });
    for i in 4..9u64 {
        txns.push(Transaction::Script {
            steps: vec![Instruction::Write(data(i), vec![1])],
            gas: 2,
        });
    }
    let out = run_all(&txns, &MemoryState::new(), None).unwrap();
    assert_eq!(out.len(), 9);
    for i in 0..3 {
        assert_eq!(out[i].status, TransactionStatus::Success);
        assert_eq!(out[i].write_set.len(), 1);
    }
    assert_eq!(
        out[3],
        TransactionOutput {
            write_set: vec![],
            events: vec![],
            gas_used: 3,
            status: TransactionStatus::SkipRest
        }
    );
    for i in 4..9 {
        assert_eq!(out[i], skipped());
    }
}

#[test]
fn aggregator_commutativity() {
    let c = data(7);
    let mut base = MemoryState::new();
    base.insert(c, encode_counter(0));
    let txns: Vec<Transaction> = (0..10)
        .map(|_| Transaction::Script {
            steps: vec![Instruction::Delta(c, DeltaOp::plus(1, 0, 100))],
            gas: 1,
        })
        .collect();
    let out = run_all(&txns, &base, None).unwrap();
    assert_eq!(out.len(), 10);
    for (i, o) in out.iter().enumerate() {
        assert_eq!(
            o.write_set,
            vec![OutputWrite { loc: c, op: WriteOp::MaterializedDelta(i as i128 + 1) }]
        );
        assert_eq!(o.status, TransactionStatus::Success);
    }
    assert_eq!(out[9].write_set[0].op, WriteOp::MaterializedDelta(10));
}

#[test]
fn aggregator_mixed_signs_any_order() {
    let c = data(7);
    let mut base = MemoryState::new();
    base.insert(c, encode_counter(50));
    let ops = vec![
        DeltaOp::plus(10, 0, 100),
        DeltaOp::minus(30, 0, 100),
        DeltaOp::plus(5, 0, 100),
        DeltaOp::minus(20, 0, 100),
    ];
    let orders: Vec<Vec<usize>> = vec![vec![0, 1, 2, 3], vec![3, 2, 1, 0], vec![1, 3, 0, 2]];
    for order in orders {
        let txns: Vec<Transaction> = order
            .iter()
            .map(|&i| Transaction::Script { steps: vec![Instruction::Delta(c, ops[i])], gas: 1 })
            .collect();
        let out = run_all(&txns, &base, None).unwrap();
        assert_eq!(out[3].write_set[0].op, WriteOp::MaterializedDelta(15));
    }
}

#[test]
fn delta_overflow() {
    let c = data(7);
    let mut base = MemoryState::new();
    base.insert(c, encode_counter(99));
    let txns: Vec<Transaction> = (0..3)
        .map(|_| Transaction::Script {
            steps: vec![
                Instruction::Write(data(1), vec![1]),
                Instruction::Delta(c, DeltaOp::plus(1, 0, 100)),
            ],
            gas: 4,
        })
        .collect();
    let out = run_all(&txns, &base, None).unwrap();
    assert_eq!(out.len(), 3);
    assert_eq!(out[0].status, TransactionStatus::Success);
    assert_eq!(
        out[0].write_set,
        vec![
            OutputWrite { loc: data(1), op: WriteOp::Value(vec![1]) },
            OutputWrite { loc: c, op: WriteOp::MaterializedDelta(100) },
        ]
    );
    for i in 1..3 {
        assert_eq!(
            out[i],
            TransactionOutput {
                write_set: vec![],
                events: vec![],
                gas_used: 4,
                status: TransactionStatus::DeltaApplicationFailure
            }
        );
    }
}

#[test]
fn delta_on_missing_counter_fails() {
    let c = data(7);
    let txns = vec![Transaction::Script {
        steps: vec![Instruction::Delta(c, DeltaOp::plus(1, 0, 100))],
        gas: 1,
    }];
    let out = run_all(&txns, &MemoryState::new(), None).unwrap();
    assert_eq!(out[0].status, TransactionStatus::DeltaApplicationFailure);
    let mut base = MemoryState::new();
    base.insert(c, vec![1, 2, 3]);
    let out = run_all(&txns, &base, None).unwrap();
    assert_eq!(out[0].status, TransactionStatus::DeltaApplicationFailure);
}

#[test]
fn read_above_a_delta_sees_the_counter() {
    let c = data(7);
    let mut base = MemoryState::new();
    base.insert(c, encode_counter(5));
    let txns = vec![
        Transaction::Script { steps: vec![Instruction::Delta(c, DeltaOp::plus(3, 0, 100))], gas: 1 },
        Transaction::Script {
            steps: vec![
                Instruction::Read(c),
                Instruction::Bump { loc: data(8), source: 0, change: 0 },
            ],
            gas: 1,
        },
    ];
    let out = run_all(&txns, &base, None).unwrap();
    assert_eq!(
        out[1].write_set,
        vec![OutputWrite { loc: data(8), op: WriteOp::Value(encode_counter(8)) }]
    );
}

#[test]
fn module_path_read_write_race() {
    let m = module(3);
    let mut txns = vec![Transaction::Script { steps: vec![Instruction::Write(m, vec![1])], gas: 1 }];
    for i in 1..5u64 {
        txns.push(Transaction::Script { steps: vec![Instruction::Write(data(i), vec![1])], gas: 1 });
    }
    txns.push(Transaction::Script { steps: vec![Instruction::Read(m)], gas: 1 });
    assert_eq!(run_all(&txns, &MemoryState::new(), None), Err(ExecutionError::ModulePathReadWrite));
    // The reader first, the writer after it.
    txns.reverse();
    assert_eq!(run_all(&txns, &MemoryState::new(), None), Err(ExecutionError::ModulePathReadWrite));
}

#[test]
fn module_read_and_write_by_one_transaction_is_no_race() {
    let m = module(3);
    let txns = vec![
        Transaction::Script {
            steps: vec![Instruction::Read(m), Instruction::Write(m, vec![1])],
            gas: 1,
        },
        Transaction::Script { steps: vec![Instruction::Write(data(1), vec![1])], gas: 1 },
    ];
    let out = run_all(&txns, &MemoryState::new(), None).unwrap();
    assert_eq!(out.len(), 2);
}

#[test]
fn module_race_beyond_the_gas_limit_is_not_seen() {
    let m = module(3);
    let txns = vec![
        Transaction::Script { steps: vec![Instruction::Write(m, vec![1])], gas: 5 },
        Transaction::Script { steps: vec![Instruction::Read(m)], gas: 5 },
    ];
    let out = run_all(&txns, &MemoryState::new(), Some(4)).unwrap();
    assert_eq!(out[1], skipped());
    assert_eq!(run_all(&txns, &MemoryState::new(), Some(5)), Err(ExecutionError::ModulePathReadWrite));
}

#[test]
fn gas_cap_truncation() {
    let txns: Vec<Transaction> = (0..10u64)
        .map(|i| Transaction::Script {
            steps: vec![Instruction::Write(data(i), vec![i as u8])],
            gas: 10,
        })
        .collect();
    // The total is 10, 20, 30, 40: it exceeds 35 at index 3.
    let out = run_all(&txns, &MemoryState::new(), Some(35)).unwrap();
    assert_eq!(out.len(), 10);
    for i in 0..=3 {
        assert_eq!(out[i].status, TransactionStatus::Success);
        assert_eq!(out[i].gas_used, 10);
        assert_eq!(out[i].write_set.len(), 1);
    }
    for i in 4..10 {
        assert_eq!(out[i], skipped());
    }
    // A total that equals the limit does not exceed it.
    let out = run_all(&txns, &MemoryState::new(), Some(30)).unwrap();
    assert_eq!(out[3].status, TransactionStatus::Success);
    assert_eq!(out[4], skipped());
    let out = run_all(&txns, &MemoryState::new(), Some(29)).unwrap();
    assert_eq!(out[2].status, TransactionStatus::Success);
    assert_eq!(out[3], skipped());
}

#[test]
fn gas_cap_zero() {
    let txns: Vec<Transaction> = (0..5u64)
        .map(|i| Transaction::Script {
            steps: vec![Instruction::Write(data(i), vec![1])],
            gas: 1,
        })
        .collect();
    let out = run_all(&txns, &MemoryState::new(), Some(0)).unwrap();
    assert_eq!(out[0].status, TransactionStatus::Success);
    for i in 1..5 {
        assert_eq!(out[i], skipped());
    }
    // Free transactions never exceed the cap.
    let free: Vec<Transaction> = (0..5u64)
        .map(|i| Transaction::Script {
            steps: vec![Instruction::Write(data(i), vec![1])],
            gas: 0,
        })
        .collect();
    let out = run_all(&free, &MemoryState::new(), Some(0)).unwrap();
    assert!(out.iter().all(|o| o.status == TransactionStatus::Success));
}

#[test]
fn gas_total_saturates() {
    let txns: Vec<Transaction> = (0..3)
        .map(|_| Transaction::Script { steps: vec![], gas: u64::MAX })
        .collect();
    let out = run_all(&txns, &MemoryState::new(), Some(u64::MAX)).unwrap();
    assert!(out.iter().all(|o| o.status == TransactionStatus::Success));
}

#[test]
fn fatal_vm_error_ends_the_block() {
    let txns = vec![
        Transaction::Script { steps: vec![Instruction::Write(data(1), vec![1])], gas: 1 },
        Transaction::Abort,
        Transaction::Abort,
    ];
    assert_eq!(run_all(&txns, &MemoryState::new(), None), Err(ExecutionError::FatalVMError(1)));
}

#[test]
fn step_limit_is_fatal() {
    let steps: Vec<Instruction> = (0..65).map(|_| Instruction::Emit(vec![])).collect();
    let txns = vec![Transaction::Script { steps, gas: 1 }];
    assert_eq!(run_all(&txns, &MemoryState::new(), None), Err(ExecutionError::FatalVMError(0)));
    let steps: Vec<Instruction> = (0..63).map(|_| Instruction::Emit(vec![])).collect();
    let txns = vec![Transaction::Script { steps, gas: 1 }];
    assert!(run_all(&txns, &MemoryState::new(), None).is_ok());
}

#[test]
fn missing_key_and_empty_value_differ() {
    let mut base = MemoryState::new();
    base.insert(data(1), vec![]);
    let txns = vec![Transaction::Script {
        steps: vec![
            Instruction::Read(data(1)),
            Instruction::Read(data(2)),
            Instruction::Bump { loc: data(3), source: 0, change: 1 },
        ],
        gas: 1,
    }];
    let out = run_all(&txns, &base, None).unwrap();
    assert_eq!(out[0].status, TransactionStatus::Abort(1));
}

#[test]
fn own_writes_are_read_back() {
    let k = data(1);
    let txns = vec![Transaction::Script {
        steps: vec![
            Instruction::Write(k, encode_counter(10)),
            Instruction::Read(k),
            Instruction::Bump { loc: k, source: 1, change: 5 },
        ],
        gas: 1,
    }];
    let out = run_all(&txns, &MemoryState::new(), None).unwrap();
    assert_eq!(out[0].write_set, vec![OutputWrite { loc: k, op: WriteOp::Value(encode_counter(15)) }]);
}

#[test]
fn rerun_on_updated_base_repeats_blind_writes() {
    let txns: Vec<Transaction> = (0..6u64)
        .map(|i| Transaction::Script {
            steps: vec![Instruction::Write(data(i % 3), vec![i as u8])],
            gas: 1,
        })
        .collect();
    let first = run_all(&txns, &MemoryState::new(), None).unwrap();
    let mut updated = MemoryState::new();
    for o in first.iter().rev() {
        for w in &o.write_set {
            if let WriteOp::Value(b) = &w.op {
                updated.insert(w.loc, b.clone());
            }
        }
    }
    let second = run_all(&txns, &updated, None).unwrap();
    assert_eq!(first, second);
}
