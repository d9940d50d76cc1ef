use crate::executor::execute_block;
use crate::output::{outputs_view, ExecutionError, ExecutorConfig, OutputView, TransactionOutput};
use crate::sequential::spec_execute_block;
use crate::view::base_source;
use crate::vm_flow::{
    has_key, spec_new_block_event_key, spec_new_epoch_event_key, spec_prologue_for, spec_route,
    EventKey, PayloadKind, Prologue, Route, StatusCode, TransactionKind,
};
use crate::vm::{StateView, VmAdapter};
use vstd::prelude::*;

verus! {

/// The profile that overrides the timed features.
#[derive(Clone, Copy, Debug, PartialEq, Eq, Structural)]
pub enum TimedFeatureOverride {
    Replay,
    Testing,
}

/// The largest number of threads that read proofs.
pub const MAX_PROOF_READING_THREADS: usize = 256;

/// The number of threads that read proofs where none was set.
pub const DEFAULT_PROOF_READING_THREADS: usize = 32;

/// The settings of the virtual machine's adapter. Each of them can be set
/// once: the first call of a setter counts and every later call changes
/// nothing. A setting that was never set has its default.
#[derive(Clone, Copy, Debug)]
pub struct AptosVM {
    concurrency_level: Option<usize>,
    num_proof_reading_threads: Option<usize>,
    paranoid_type_checks: Option<bool>,
    processed_transactions_detailed_counters: Option<bool>,
    timed_feature_override: Option<TimedFeatureOverride>,
    module_bundle_disallowed: bool,
}

/// Calls `num_cpus::get`, the number of logical cores that this process can
/// use. It depends on the machine; the crate documents that it is at least
/// one, and the contract says no more.
#[verifier::external_body]
fn available_cpus() -> (n: usize)
    ensures
        n >= 1,
{
    num_cpus::get()
}

/// The smaller of two numbers.
pub open spec fn spec_min(a: usize, b: usize) -> usize {
    if a <= b {
        a
    } else {
        b
    }
}

/// A setting after an attempt to set it to `value`.
pub open spec fn set_once<T>(current: Option<T>, value: T) -> Option<T> {
    match current {
        Some(_) => current,
        None => Some(value),
    }
}

impl AptosVM {
    /// The concurrency level, if it was set.
    pub closed spec fn concurrency_level(&self) -> Option<usize> {
        self.concurrency_level
    }

    /// The number of threads that read proofs, if it was set.
    pub closed spec fn num_proof_reading_threads(&self) -> Option<usize> {
        self.num_proof_reading_threads
    }

    /// The paranoid type checks, if they were set.
    pub closed spec fn paranoid_type_checks(&self) -> Option<bool> {
        self.paranoid_type_checks
    }

    /// Whether detailed counters were asked for, if that was set.
    pub closed spec fn detailed_counters(&self) -> Option<bool> {
        self.processed_transactions_detailed_counters
    }

    /// The override profile for timed features, if one was set.
    pub closed spec fn timed_feature_override(&self) -> Option<TimedFeatureOverride> {
        self.timed_feature_override
    }

    /// Whether module bundles are disallowed.
    pub closed spec fn module_bundle_disallowed(&self) -> bool {
        self.module_bundle_disallowed
    }

    /// Whether two adapters differ at most in their concurrency level.
    pub closed spec fn same_but_concurrency(&self, other: &Self) -> bool {
        &&& self.num_proof_reading_threads == other.num_proof_reading_threads
        &&& self.paranoid_type_checks == other.paranoid_type_checks
        &&& self.processed_transactions_detailed_counters
            == other.processed_transactions_detailed_counters
        &&& self.timed_feature_override == other.timed_feature_override
        &&& self.module_bundle_disallowed == other.module_bundle_disallowed
    }

    /// An adapter with nothing set; module bundles are disallowed.
    pub fn new() -> (vm: Self)
        ensures
            vm.concurrency_level().is_none(),
            vm.num_proof_reading_threads().is_none(),
            vm.paranoid_type_checks().is_none(),
            vm.detailed_counters().is_none(),
            vm.timed_feature_override().is_none(),
            vm.module_bundle_disallowed(),
    {
        AptosVM {
            concurrency_level: None,
            num_proof_reading_threads: None,
            paranoid_type_checks: None,
            processed_transactions_detailed_counters: None,
            timed_feature_override: None,
            module_bundle_disallowed: true,
        }
    }

    /// An adapter for the validation of transactions: one with nothing set.
    pub fn new_for_validation() -> (vm: Self)
        ensures
            vm.concurrency_level().is_none(),
            vm.num_proof_reading_threads().is_none(),
            vm.paranoid_type_checks().is_none(),
            vm.detailed_counters().is_none(),
            vm.timed_feature_override().is_none(),
            vm.module_bundle_disallowed(),
    {
        Self::new()
    }

    /// Allows module bundles; meant for tests.
    pub fn allow_module_bundle_for_test(&mut self)
        ensures
            !final(self).module_bundle_disallowed(),
            final(self).concurrency_level() == old(self).concurrency_level(),
            final(self).num_proof_reading_threads() == old(self).num_proof_reading_threads(),
            final(self).paranoid_type_checks() == old(self).paranoid_type_checks(),
            final(self).detailed_counters() == old(self).detailed_counters(),
            final(self).timed_feature_override() == old(self).timed_feature_override(),
    {
        self.module_bundle_disallowed = false;
    }

    /// Sets the concurrency level on a machine with `cpus` cores, when called
    /// for the first time: to the level asked for, but to no more than the
    /// number of cores.
    pub fn set_concurrency_level_for(&mut self, concurrency_level: usize, cpus: usize)
        ensures
            final(self).concurrency_level() == set_once(
                old(self).concurrency_level(),
                spec_min(concurrency_level, cpus),
            ),
            final(self).same_but_concurrency(old(self)),
    {
        let level = if concurrency_level <= cpus {
            concurrency_level
        } else {
            cpus
        };
        match self.concurrency_level {
            Some(_) => {},
            None => {
                self.concurrency_level = Some(level);
            },
        }
    }

    /// Sets the concurrency level when called for the first time: to the
    /// level asked for, but to no more than the number of cores of the machine,
    /// whatever that number is.
    pub fn set_concurrency_level_once(&mut self, concurrency_level: usize)
        ensures
            exists|cpus: usize|
                cpus >= 1 && final(self).concurrency_level() == set_once(
                    old(self).concurrency_level(),
                    #[trigger] spec_min(concurrency_level, cpus),
                ),
            final(self).same_but_concurrency(old(self)),
    {
        let cpus = available_cpus();
        self.set_concurrency_level_for(concurrency_level, cpus);
        assert(final(self).concurrency_level() == set_once(
            old(self).concurrency_level(),
            spec_min(concurrency_level, cpus),
        ));
    }

    /// The concurrency level if it was set, and 1, which is sequential
    /// execution, if it was not.
    pub fn get_concurrency_level(&self) -> (level: usize)
        ensures
            level == match self.concurrency_level() {
                Some(l) => l,
                None => 1,
            },
    {
        match self.concurrency_level {
            Some(concurrency_level) => concurrency_level,
            None => 1,
        }
    }

    /// Sets the paranoid type checks when called for the first time.
    pub fn set_paranoid_type_checks(&mut self, enable: bool)
        ensures
            final(self).paranoid_type_checks() == set_once(old(self).paranoid_type_checks(), enable),
            final(self).concurrency_level() == old(self).concurrency_level(),
            final(self).num_proof_reading_threads() == old(self).num_proof_reading_threads(),
            final(self).detailed_counters() == old(self).detailed_counters(),
            final(self).timed_feature_override() == old(self).timed_feature_override(),
            final(self).module_bundle_disallowed() == old(self).module_bundle_disallowed(),
    {
        match self.paranoid_type_checks {
            Some(_) => {},
            None => {
                self.paranoid_type_checks = Some(enable);
            },
        }
    }

    /// The paranoid type checks if they were set, and `true` if not.
    pub fn get_paranoid_checks(&self) -> (enable: bool)
        ensures
            enable == match self.paranoid_type_checks() {
                Some(e) => e,
                None => true,
            },
    {
        match self.paranoid_type_checks {
            Some(enable) => enable,
            None => true,
        }
    }

    /// Sets the override profile for timed features when called for the
    /// first time.
    pub fn set_timed_feature_override(&mut self, profile: TimedFeatureOverride)
        ensures
            final(self).timed_feature_override() == set_once(
                old(self).timed_feature_override(),
                profile,
            ),
            final(self).concurrency_level() == old(self).concurrency_level(),
            final(self).num_proof_reading_threads() == old(self).num_proof_reading_threads(),
            final(self).paranoid_type_checks() == old(self).paranoid_type_checks(),
            final(self).detailed_counters() == old(self).detailed_counters(),
            final(self).module_bundle_disallowed() == old(self).module_bundle_disallowed(),
    {
        match self.timed_feature_override {
            Some(_) => {},
            None => {
                self.timed_feature_override = Some(profile);
            },
        }
    }

    /// The override profile for timed features, if one was set.
    pub fn get_timed_feature_override(&self) -> (profile: Option<TimedFeatureOverride>)
        ensures
            profile == self.timed_feature_override(),
    {
        self.timed_feature_override
    }

    /// Sets the number of threads that read proofs when called for the first
    /// time: to the number asked for, but to no more than 256.
    pub fn set_num_proof_reading_threads_once(&mut self, num_threads: usize)
        ensures
            final(self).num_proof_reading_threads() == set_once(
                old(self).num_proof_reading_threads(),
                spec_min(num_threads, MAX_PROOF_READING_THREADS),
            ),
            final(self).concurrency_level() == old(self).concurrency_level(),
            final(self).paranoid_type_checks() == old(self).paranoid_type_checks(),
            final(self).detailed_counters() == old(self).detailed_counters(),
            final(self).timed_feature_override() == old(self).timed_feature_override(),
            final(self).module_bundle_disallowed() == old(self).module_bundle_disallowed(),
    {
        let n = if num_threads <= MAX_PROOF_READING_THREADS {
            num_threads
        } else {
            MAX_PROOF_READING_THREADS
        };
        match self.num_proof_reading_threads {
            Some(_) => {},
            None => {
                self.num_proof_reading_threads = Some(n);
            },
        }
    }

    /// The number of threads that read proofs if it was set, and 32 if not.
    pub fn get_num_proof_reading_threads(&self) -> (n: usize)
        ensures
            n == match self.num_proof_reading_threads() {
                Some(t) => t,
                None => DEFAULT_PROOF_READING_THREADS,
            },
    {
        match self.num_proof_reading_threads {
            Some(num_threads) => num_threads,
            None => DEFAULT_PROOF_READING_THREADS,
        }
    }

    /// Asks for detailed counters of the processed transactions. The first
    /// call counts.
    pub fn set_processed_transactions_detailed_counters(&mut self)
        ensures
            final(self).detailed_counters() == set_once(old(self).detailed_counters(), true),
            final(self).concurrency_level() == old(self).concurrency_level(),
            final(self).num_proof_reading_threads() == old(self).num_proof_reading_threads(),
            final(self).paranoid_type_checks() == old(self).paranoid_type_checks(),
            final(self).timed_feature_override() == old(self).timed_feature_override(),
            final(self).module_bundle_disallowed() == old(self).module_bundle_disallowed(),
    {
        match self.processed_transactions_detailed_counters {
            Some(_) => {},
            None => {
                self.processed_transactions_detailed_counters = Some(true);
            },
        }
    }

    /// Whether detailed counters were asked for.
    pub fn get_processed_transactions_detailed_counters(&self) -> (detailed: bool)
        ensures
            detailed == match self.detailed_counters() {
                Some(v) => v,
                None => false,
            },
    {
        match self.processed_transactions_detailed_counters {
            Some(value) => value,
            None => false,
        }
    }

    /// Chooses the prologue of a payload, the simulation flag and the
    /// setting for module bundles taken into account.
    pub fn run_prologue_with_payload(&self, payload: PayloadKind, is_simulation: bool) -> (r: Result<
        Prologue,
        StatusCode,
    >)
        ensures
            r == spec_prologue_for(payload, is_simulation, self.module_bundle_disallowed()),
    {
        crate::vm_flow::run_prologue_with_payload(
            payload,
            is_simulation,
            self.module_bundle_disallowed,
        )
    }

    /// Chooses the prologue of a payload outside a simulation.
    pub fn run_prologue(&self, payload: PayloadKind) -> (r: Result<Prologue, StatusCode>)
        ensures
            r == spec_prologue_for(payload, false, self.module_bundle_disallowed()),
    {
        self.run_prologue_with_payload(payload, false)
    }

    /// Validates a transaction for simulation: its format is checked, and
    /// then its prologue is chosen as a simulation runs it.
    pub fn validate_simulated_transaction(
        &self,
        contains_duplicate_signers: bool,
        payload: PayloadKind,
    ) -> (r: Result<Prologue, StatusCode>)
        ensures
            r == if contains_duplicate_signers {
                Err::<Prologue, StatusCode>(StatusCode::SignersContainDuplicates)
            } else {
                spec_prologue_for(payload, true, self.module_bundle_disallowed())
            },
    {
        match self.check_transaction_format(contains_duplicate_signers) {
            Ok(()) => self.run_prologue_with_payload(payload, true),
            Err(e) => Err(e),
        }
    }

    /// Checks the format of a transaction: its signers must differ.
    pub fn check_transaction_format(&self, contains_duplicate_signers: bool) -> (r: Result<
        (),
        StatusCode,
    >)
        ensures
            r == if contains_duplicate_signers {
                Err::<(), StatusCode>(StatusCode::SignersContainDuplicates)
            } else {
                Ok::<(), StatusCode>(())
            },
    {
        crate::vm_flow::check_transaction_format(contains_duplicate_signers)
    }

    /// Whether the execution of the block has to start over after an output
    /// with these events: it does when one of them announces a new epoch.
    pub fn should_restart_execution(event_keys: &Vec<EventKey>) -> (restart: bool)
        ensures
            restart == has_key(event_keys@, spec_new_epoch_event_key()),
    {
        crate::vm_flow::should_restart_execution(event_keys)
    }

    /// Validates the change set of a waypoint transaction: it has to announce
    /// both a new block and a new epoch.
    pub fn validate_waypoint_change_set(event_keys: &Vec<EventKey>) -> (r: Result<(), StatusCode>)
        ensures
            r == if has_key(event_keys@, spec_new_block_event_key()) && has_key(
                event_keys@,
                spec_new_epoch_event_key(),
            ) {
                Ok::<(), StatusCode>(())
            } else {
                Err::<(), StatusCode>(StatusCode::InvalidWriteSet)
            },
    {
        crate::vm_flow::validate_waypoint_change_set(event_keys)
    }

    /// Chooses how to execute one transaction.
    pub fn execute_single_transaction(&self, kind: TransactionKind) -> (route: Route)
        ensures
            route == spec_route(kind),
    {
        crate::vm_flow::execute_single_transaction(kind)
    }

    /// Executes a block of transactions at the concurrency level that was
    /// set. The result is that of serial execution: one output for each
    /// transaction, or the error that ends the block.
    pub fn execute_block<V: VmAdapter, S: StateView>(
        &self,
        machine: &V,
        transactions: &Vec<V::Txn>,
        state_view: &S,
        gas_limit: Option<u64>,
        max_steps: usize,
    ) -> (result: Result<Vec<TransactionOutput>, ExecutionError>)
        ensures
            match result {
                Ok(outputs) => spec_execute_block(
                    machine,
                    transactions@,
                    base_source(state_view),
                    ExecutorConfig { gas_limit, concurrency: 1, max_steps },
                ) == Ok::<Seq<OutputView>, ExecutionError>(outputs_view(outputs@)) && outputs@.len()
                    == transactions@.len(),
                Err(e) => spec_execute_block(
                    machine,
                    transactions@,
                    base_source(state_view),
                    ExecutorConfig { gas_limit, concurrency: 1, max_steps },
                ) == Err::<Seq<OutputView>, ExecutionError>(e),
            },
    {
        let cfg = ExecutorConfig { gas_limit, concurrency: self.get_concurrency_level(), max_steps };
        proof {
            crate::laws::lemma_result_independent_of_concurrency(
                machine,
                transactions@,
                base_source(state_view),
                cfg,
                ExecutorConfig { gas_limit, concurrency: 1, max_steps },
            );
        }
        execute_block(machine, transactions, state_view, &cfg)
    }
}

} // verus!
