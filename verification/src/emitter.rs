use vstd::prelude::*;

verus! {

/// What to do for one run of the transaction emitter.
#[derive(Clone, Copy, Debug, PartialEq, Eq, Structural)]
pub enum EmitAttempt {
    /// Emit, after this coordination delay between instances, if any.
    Run { coordination_delay_between_instances: Option<u64> },
    /// The delay is used up: the emitter could not succeed in this many runs.
    GiveUp { runs: u64 },
}

/// The attempt for run number `run`, counted from zero, of an emitter that
/// was started with `initial_delay`, `elapsed_secs` seconds after its start.
/// The first run uses the delay as it was given. Every later run, which
/// follows a failed one, uses what is left of the delay, and gives up when
/// more time than the delay has passed.
pub open spec fn spec_emit_attempt(initial_delay: u64, run: u64, elapsed_secs: u64) -> EmitAttempt {
    if run == 0 {
        EmitAttempt::Run { coordination_delay_between_instances: Some(initial_delay) }
    } else if elapsed_secs <= initial_delay {
        EmitAttempt::Run {
            coordination_delay_between_instances: Some((initial_delay - elapsed_secs) as u64),
        }
    } else {
        EmitAttempt::GiveUp { runs: run }
    }
}

/// Plans one run of an emitter that coordinates between instances.
pub fn emit_attempt(initial_delay: u64, run: u64, elapsed_secs: u64) -> (a: EmitAttempt)
    ensures
        a == spec_emit_attempt(initial_delay, run, elapsed_secs),
{
    if run > 0 {
        match initial_delay.checked_sub(elapsed_secs) {
            Some(left) => EmitAttempt::Run { coordination_delay_between_instances: Some(left) },
            None => EmitAttempt::GiveUp { runs: run },
        }
    } else {
        EmitAttempt::Run { coordination_delay_between_instances: Some(initial_delay) }
    }
}

/// The arguments of an emit job, as far as the plan of the job reads them.
#[derive(Clone, Copy, Debug, PartialEq, Eq, Structural)]
pub struct EmitArgs {
    pub duration: u64,
    pub txn_expiration_time_secs: u64,
    pub coordination_delay_between_instances: Option<u64>,
    pub module_working_set_size: Option<usize>,
    pub sender_use_account_pool: Option<bool>,
    pub max_transactions_per_account: Option<usize>,
    pub gas_price: Option<u64>,
    pub max_gas_per_txn: Option<u64>,
    pub init_gas_price_multiplier: Option<u64>,
    pub expected_max_txns: Option<u64>,
    pub expected_gas_per_txn: Option<u64>,
}

/// The settings of an emit job.
#[derive(Clone, Copy, Debug, PartialEq, Eq, Structural)]
pub struct EmitPlan {
    pub duration_secs: u64,
    /// The seconds between two reports of the statistics.
    pub stats_interval_secs: u64,
    pub txn_expiration_time_secs: u64,
    pub coordination_delay_secs: u64,
    pub module_working_set_size: usize,
    pub sender_use_account_pool: bool,
    pub reuse_accounts: bool,
    /// Whether to ask before coins are spent: when the coin source is not
    /// the root account.
    pub prompt_before_spending: bool,
    pub max_transactions_per_account: Option<usize>,
    pub gas_price: Option<u64>,
    pub max_gas_per_txn: Option<u64>,
    pub init_gas_price_multiplier: Option<u64>,
    pub expected_max_txns: Option<u64>,
    pub expected_gas_per_txn: Option<u64>,
}

/// The seconds between two reports: a tenth of the duration, but at least
/// one and at most ten.
pub open spec fn spec_stats_interval(duration: u64) -> u64 {
    if duration / 10 < 1 {
        1
    } else if duration / 10 > 10 {
        10
    } else {
        duration / 10
    }
}

/// The seconds between two reports of the statistics.
pub fn stats_interval_secs(duration: u64) -> (secs: u64)
    ensures
        secs == spec_stats_interval(duration),
{
    let tenth = duration / 10;
    if tenth < 1 {
        1
    } else if tenth > 10 {
        10
    } else {
        tenth
    }
}

/// The plan that `emit_transactions_with_cluster` makes.
pub open spec fn spec_emit_plan(args: EmitArgs, reuse_accounts: bool, coin_source_is_root: bool) -> EmitPlan {
    EmitPlan {
        duration_secs: args.duration,
        stats_interval_secs: spec_stats_interval(args.duration),
        txn_expiration_time_secs: args.txn_expiration_time_secs,
        coordination_delay_secs: match args.coordination_delay_between_instances {
            Some(d) => d,
            None => 0,
        },
        module_working_set_size: match args.module_working_set_size {
            Some(n) => n,
            None => 1,
        },
        sender_use_account_pool: match args.sender_use_account_pool {
            Some(b) => b,
            None => false,
        },
        reuse_accounts,
        prompt_before_spending: !coin_source_is_root,
        max_transactions_per_account: args.max_transactions_per_account,
        gas_price: args.gas_price,
        max_gas_per_txn: args.max_gas_per_txn,
        init_gas_price_multiplier: args.init_gas_price_multiplier,
        expected_max_txns: args.expected_max_txns,
        expected_gas_per_txn: args.expected_gas_per_txn,
    }
}

/// Plans an emit job on a cluster from its arguments: what the arguments
/// leave open gets its default.
pub fn emit_transactions_with_cluster(
    args: &EmitArgs,
    reuse_accounts: bool,
    coin_source_is_root: bool,
) -> (plan: EmitPlan)
    ensures
        plan == spec_emit_plan(*args, reuse_accounts, coin_source_is_root),
{
    EmitPlan {
        duration_secs: args.duration,
        stats_interval_secs: stats_interval_secs(args.duration),
        txn_expiration_time_secs: args.txn_expiration_time_secs,
        coordination_delay_secs: match args.coordination_delay_between_instances {
            Some(d) => d,
            None => 0,
        },
        module_working_set_size: match args.module_working_set_size {
            Some(n) => n,
            None => 1,
        },
        sender_use_account_pool: match args.sender_use_account_pool {
            Some(b) => b,
            None => false,
        },
        reuse_accounts,
        prompt_before_spending: !coin_source_is_root,
        max_transactions_per_account: args.max_transactions_per_account,
        gas_price: args.gas_price,
        max_gas_per_txn: args.max_gas_per_txn,
        init_gas_price_multiplier: args.init_gas_price_multiplier,
        expected_max_txns: args.expected_max_txns,
        expected_gas_per_txn: args.expected_gas_per_txn,
    }
}

/// What `emit_transactions` does next.
#[derive(Clone, Copy, Debug, PartialEq, Eq, Structural)]
pub enum EmitStep {
    /// Build the cluster and emit with this delay.
    Emit { coordination_delay_between_instances: Option<u64> },
    /// Return the error of the run that just failed.
    Fail,
    /// Report that the emitter could not succeed in this many runs.
    GiveUp { runs: u64 },
}

/// The next step of `emit_transactions` before run number `run`, counted
/// from zero. Without a coordination delay there is one run and its result is
/// final. With one, failed runs are repeated while the delay lasts.
pub fn emit_transactions(args: &EmitArgs, run: u64, elapsed_secs: u64) -> (step: EmitStep)
    ensures
        step == match args.coordination_delay_between_instances {
            None => if run == 0 {
                EmitStep::Emit { coordination_delay_between_instances: None }
            } else {
                EmitStep::Fail
            },
            Some(initial) => match spec_emit_attempt(initial, run, elapsed_secs) {
                EmitAttempt::Run { coordination_delay_between_instances } => EmitStep::Emit {
                    coordination_delay_between_instances,
                },
                EmitAttempt::GiveUp { runs } => EmitStep::GiveUp { runs },
            },
        },
{
    match args.coordination_delay_between_instances {
        None => {
            if run == 0 {
                EmitStep::Emit { coordination_delay_between_instances: None }
            } else {
                EmitStep::Fail
            }
        },
        Some(initial) => {
            match emit_attempt(initial, run, elapsed_secs) {
                EmitAttempt::Run { coordination_delay_between_instances } => EmitStep::Emit {
                    coordination_delay_between_instances,
                },
                EmitAttempt::GiveUp { runs } => EmitStep::GiveUp { runs },
            }
        },
    }
}

} // verus!
