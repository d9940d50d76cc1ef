//! A deterministic block executor: it executes the transactions of a block
//! speculatively and out of order, and commits them in their order, so that
//! the outputs are those of serial execution.
//!
//! The core is made of the multi-version store (`mvds`), the aggregator delta
//! layer (`delta`, `delta_layer`), the versioned view (`view`), the scheduler
//! (`scheduler`), the worker tasks (`worker`), the commit pipeline (`commit`)
//! and the executor that drives them (`executor`); `round` says what one round
//! of speculation does to the executor's state. `sequential` says what
//! serial execution is, `laws` holds what follows from it, and `frames` what
//! the updates of the store leave alone. The virtual machine and the base
//! state are interfaces (`vm`); `scripted` implements both.
//!
//! Around the core stand the rules of the node that do not need the outside
//! world: the settings of the adapter (`aptos_vm`, `vm_flow`), the validation
//! of publish requests (`publish`), the mempool configuration
//! (`mempool_config`), the quorum store (`proof_coordinator`,
//! `batch_generator`), the accounting of the state store (`state_store`), and
//! a few smaller ones.

pub mod aptos_vm;
pub mod batch_generator;
pub mod commit;
pub mod dag_store;
pub mod decoder;
pub mod delta;
pub mod delta_layer;
pub mod emitter;
pub mod executor;
pub mod frames;
pub mod laws;
pub mod mempool_config;
pub mod mvds;
pub mod output;
pub mod pfn_performance;
pub mod proof_coordinator;
pub mod publish;
pub mod randomness;
pub mod round;
pub mod scheduler;
pub mod scripted;
pub mod sequential;
pub mod state_store;
pub mod types;
pub mod view;
pub mod vm;
pub mod vm_flow;
pub mod worker;
