use block_executor::executor::execute_block;
use block_executor::output::ExecutorConfig;
use block_executor::scripted::{Instruction, MemoryState, ScriptedVm, Transaction};
use block_executor::types::Location;
use block_executor::vm::{Action, ActionView, VmAdapter};
use std::cell::Cell;

/// A machine that counts how often an execution starts.
struct Counting {
    inner: ScriptedVm,
    started: Cell<usize>,
}

impl VmAdapter for Counting {
    type Txn = Transaction;

    fn spec_next(
        &self,
        _txn: &Transaction,
        _responses: vstd::seq::Seq<Option<vstd::seq::Seq<u8>>>,
    ) -> ActionView {
        panic!("ghost code is never run")
    }

    fn next(&self, txn: &Transaction, responses: &Vec<Option<Vec<u8>>>) -> Action {
        if responses.is_empty() {
            self.started.set(self.started.get() + 1);
        }
        self.inner.next(txn, responses)
    }
}

fn executions(txns: &Vec<Transaction>, concurrency: usize) -> usize {
    let vm = Counting { inner: ScriptedVm::new(), started: Cell::new(0) };
    let cfg = ExecutorConfig { gas_limit: None, concurrency, max_steps: 64 };
    let out = execute_block(&vm, txns, &MemoryState::new(), &cfg).unwrap();
    assert_eq!(out.len(), txns.len());
    vm.started.get()
}

#[test]
fn independent_transactions_are_executed_once() {
    let txns: Vec<Transaction> = (0..500u64)
        .map(|i| Transaction::Script {
            steps: vec![
                Instruction::Read(Location::new(i, false)),
                Instruction::Write(Location::new(i, false), vec![1]),
            ],
            gas: 1,
        })
        .collect();
    for concurrency in [0, 1, 4, 32] {
        assert_eq!(executions(&txns, concurrency), 500, "concurrency {}", concurrency);
    }
}

#[test]
fn a_chain_is_executed_again_where_it_was_stale() {
    let k = Location::new(1, false);
    let txns: Vec<Transaction> = (0..200)
        .map(|_| Transaction::Script {
            steps: vec![Instruction::Read(k), Instruction::Write(k, vec![1])],
            gas: 1,
        })
        .collect();
    // Without speculation every transaction runs once.
    assert_eq!(executions(&txns, 0), 200);
    assert_eq!(executions(&txns, 1), 200);
    // With it, stale runs are repeated, and no more than a few times each.
    let n = executions(&txns, 8);
    assert!(n >= 200 && n <= 200 * 4, "{} executions", n);
}
