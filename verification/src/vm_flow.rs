use crate::vm::TransactionStatus;
use vstd::prelude::*;

verus! {

/// The status codes that the adapter itself gives out.
#[derive(Clone, Copy, Debug, PartialEq, Eq, Structural)]
pub enum StatusCode {
    InvalidSignature,
    SignersContainDuplicates,
    FeatureUnderGating,
    InvalidWriteSet,
}

/// The kinds of payload of a user transaction.
#[derive(Clone, Copy, Debug, PartialEq, Eq, Structural)]
pub enum PayloadKind {
    Script,
    EntryFunction,
    Multisig,
    /// Deprecated.
    ModuleBundle,
}

/// The prologue that a payload needs, after the gas check.
#[derive(Clone, Copy, Debug, PartialEq, Eq, Structural)]
pub enum Prologue {
    /// The script prologue; entry functions share it.
    Script,
    /// The script prologue, then the multisig prologue.
    ScriptThenMultisig,
    /// The module prologue.
    Module,
}

/// Which prologue runs for a payload. A multisig payload runs the multisig
/// prologue too, unless the run is a simulation; a module bundle is refused
/// while bundles are disallowed.
pub open spec fn spec_prologue_for(
    payload: PayloadKind,
    is_simulation: bool,
    module_bundle_disallowed: bool,
) -> Result<Prologue, StatusCode> {
    match payload {
        PayloadKind::Script => Ok(Prologue::Script),
        PayloadKind::EntryFunction => Ok(Prologue::Script),
        PayloadKind::Multisig => if is_simulation {
            Ok(Prologue::Script)
        } else {
            Ok(Prologue::ScriptThenMultisig)
        },
        PayloadKind::ModuleBundle => if module_bundle_disallowed {
            Err(StatusCode::FeatureUnderGating)
        } else {
            Ok(Prologue::Module)
        },
    }
}

/// Chooses the prologue for a payload.
pub fn run_prologue_with_payload(
    payload: PayloadKind,
    is_simulation: bool,
    module_bundle_disallowed: bool,
) -> (r: Result<Prologue, StatusCode>)
    ensures
        r == spec_prologue_for(payload, is_simulation, module_bundle_disallowed),
{
    match payload {
        PayloadKind::Script => Ok(Prologue::Script),
        PayloadKind::EntryFunction => Ok(Prologue::Script),
        PayloadKind::Multisig => {
            if !is_simulation {
                Ok(Prologue::ScriptThenMultisig)
            } else {
                Ok(Prologue::Script)
            }
        },
        PayloadKind::ModuleBundle => {
            if module_bundle_disallowed {
                return Err(StatusCode::FeatureUnderGating);
            }
            Ok(Prologue::Module)
        },
    }
}

/// Checks the format of a transaction: its signers must differ.
pub fn check_transaction_format(contains_duplicate_signers: bool) -> (r: Result<(), StatusCode>)
    ensures
        r == if contains_duplicate_signers {
            Err::<(), StatusCode>(StatusCode::SignersContainDuplicates)
        } else {
            Ok::<(), StatusCode>(())
        },
{
    if contains_duplicate_signers {
        return Err(StatusCode::SignersContainDuplicates);
    }
    Ok(())
}

/// How the executor treats a status: the transaction is kept, discarded, or
/// tried again.
#[derive(Clone, Copy, Debug, PartialEq, Eq, Structural)]
pub enum Disposition {
    Keep,
    Discard,
    Retry,
}

/// The disposition of a status.
pub open spec fn spec_disposition(status: TransactionStatus) -> Disposition {
    match status {
        TransactionStatus::Success => Disposition::Keep,
        TransactionStatus::Abort(_) => Disposition::Keep,
        TransactionStatus::SkipRest => Disposition::Keep,
        TransactionStatus::DeltaApplicationFailure => Disposition::Keep,
        TransactionStatus::Discard(_) => Disposition::Discard,
        TransactionStatus::Retry => Disposition::Retry,
    }
}

/// How the executor treats a status.
pub fn disposition(status: TransactionStatus) -> (d: Disposition)
    ensures
        d == spec_disposition(status),
{
    match status {
        TransactionStatus::Success => Disposition::Keep,
        TransactionStatus::Abort(_) => Disposition::Keep,
        TransactionStatus::SkipRest => Disposition::Keep,
        TransactionStatus::DeltaApplicationFailure => Disposition::Keep,
        TransactionStatus::Discard(_) => Disposition::Discard,
        TransactionStatus::Retry => Disposition::Retry,
    }
}

/// The label under which an executed user transaction is counted: a kept one
/// as `success`, a discarded one as `discarded`, and one to retry not at all.
pub fn counter_label(status: TransactionStatus) -> (label: Option<&'static str>)
    ensures
        match spec_disposition(status) {
            Disposition::Keep => label.is_some() && label.unwrap()@ == "success"@,
            Disposition::Discard => label.is_some() && label.unwrap()@ == "discarded"@,
            Disposition::Retry => label.is_none(),
        },
{
    match disposition(status) {
        Disposition::Keep => Some("success"),
        Disposition::Discard => Some("discarded"),
        Disposition::Retry => None,
    }
}

/// What follows a failed execution of a user transaction.
#[derive(Clone, Copy, Debug, PartialEq, Eq, Structural)]
pub struct FailurePlan {
    /// Whether the loader cache is marked invalid first, because a module of
    /// a failed publish request may have been loaded into it.
    pub invalidate_loader_cache: bool,
    /// Whether the transaction is discarded; otherwise the failure epilogue
    /// charges its gas and the status is kept.
    pub discard: bool,
}

/// Plans the cleanup after a failed execution. A failure can be kept or
/// discarded; it is never to be retried.
pub fn plan_failure(failure: Disposition, new_published_modules_loaded: bool) -> (plan:
    FailurePlan)
    requires
        failure != Disposition::Retry,
    ensures
        plan.invalidate_loader_cache == new_published_modules_loaded,
        plan.discard == (failure == Disposition::Discard),
{
    FailurePlan {
        invalidate_loader_cache: new_published_modules_loaded,
        discard: match failure {
            Disposition::Discard => true,
            _ => false,
        },
    }
}

/// The gas that a transaction used: what it was allowed less what is left.
pub fn gas_used(max_gas_amount: u64, balance: u64) -> (used: u64)
    requires
        balance <= max_gas_amount,
    ensures
        used == max_gas_amount - balance,
{
    max_gas_amount - balance
}

/// The newest version of the binary format that is accepted.
pub fn max_binary_format_version(v6_enabled: bool) -> (v: u32)
    ensures
        v == if v6_enabled {
            6u32
        } else {
            5u32
        },
{
    if v6_enabled {
        6
    } else {
        5
    }
}

/// The key of an event stream.
#[derive(Clone, Copy, Debug, PartialEq, Eq)]
pub struct EventKey {
    pub creation_number: u64,
    pub account_address: [u8; 32],
}

/// The address of the core code: one.
pub open spec fn spec_core_code_address() -> [u8; 32] {
    [
        0u8, 0u8, 0u8, 0u8, 0u8, 0u8, 0u8, 0u8, 0u8, 0u8, 0u8, 0u8, 0u8, 0u8, 0u8, 0u8, 0u8, 0u8,
        0u8, 0u8, 0u8, 0u8, 0u8, 0u8, 0u8, 0u8, 0u8, 0u8, 0u8, 0u8, 0u8, 1u8,
    ]
}

/// The key of the events that announce a new epoch.
pub open spec fn spec_new_epoch_event_key() -> EventKey {
    EventKey { creation_number: 2, account_address: spec_core_code_address() }
}

/// The key of the events that announce a new block.
pub open spec fn spec_new_block_event_key() -> EventKey {
    EventKey { creation_number: 3, account_address: spec_core_code_address() }
}

/// The address of the core code.
pub fn core_code_address() -> (a: [u8; 32])
    ensures
        a == spec_core_code_address(),
{
    [
        0u8, 0u8, 0u8, 0u8, 0u8, 0u8, 0u8, 0u8, 0u8, 0u8, 0u8, 0u8, 0u8, 0u8, 0u8, 0u8, 0u8, 0u8,
        0u8, 0u8, 0u8, 0u8, 0u8, 0u8, 0u8, 0u8, 0u8, 0u8, 0u8, 0u8, 0u8, 1u8,
    ]
}

/// The key of the events that announce a new epoch.
pub fn new_epoch_event_key() -> (k: EventKey)
    ensures
        k == spec_new_epoch_event_key(),
{
    EventKey { creation_number: 2, account_address: core_code_address() }
}

/// The key of the events that announce a new block.
pub fn new_block_event_key() -> (k: EventKey)
    ensures
        k == spec_new_block_event_key(),
{
    EventKey { creation_number: 3, account_address: core_code_address() }
}

/// Whether two keys are the same.
pub fn same_key(a: &EventKey, b: &EventKey) -> (same: bool)
    ensures
        same == (a.creation_number == b.creation_number && a.account_address@
            == b.account_address@),
{
    if a.creation_number != b.creation_number {
        return false;
    }
    let mut i: usize = 0;
    while i < 32
        invariant
            0 <= i <= 32,
            forall|j: int| 0 <= j < i ==> a.account_address@[j] == b.account_address@[j],
        decreases 32 - i,
    {
        if a.account_address[i] != b.account_address[i] {
            return false;
        }
        i += 1;
    }
    assert(a.account_address@ =~= b.account_address@);
    true
}

/// Whether one of the keys is `key`.
pub open spec fn has_key(keys: Seq<EventKey>, key: EventKey) -> bool {
    exists|i: int|
        0 <= i < keys.len() && (#[trigger] keys[i]).creation_number == key.creation_number
            && keys[i].account_address@ == key.account_address@
}

/// Whether one of the keys is `key`.
pub fn contains_key(keys: &Vec<EventKey>, key: &EventKey) -> (found: bool)
    ensures
        found == has_key(keys@, *key),
{
    let mut i: usize = 0;
    while i < keys.len()
        invariant
            0 <= i <= keys.len(),
            forall|j: int|
                0 <= j < i ==> !((#[trigger] keys@[j]).creation_number == key.creation_number
                    && keys@[j].account_address@ == key.account_address@),
        decreases keys.len() - i,
    {
        if same_key(&keys[i], key) {
            return true;
        }
        i += 1;
    }
    false
}

/// Whether the execution of the block has to start over after this output:
/// it does when one of the output's events announces a new epoch.
pub fn should_restart_execution(event_keys: &Vec<EventKey>) -> (restart: bool)
    ensures
        restart == has_key(event_keys@, spec_new_epoch_event_key()),
{
    let key = new_epoch_event_key();
    contains_key(event_keys, &key)
}

/// Validates the change set of a waypoint transaction: it has to announce
/// both a new block and a new epoch.
pub fn validate_waypoint_change_set(event_keys: &Vec<EventKey>) -> (r: Result<(), StatusCode>)
    ensures
        r == if has_key(event_keys@, spec_new_block_event_key()) && has_key(
            event_keys@,
            spec_new_epoch_event_key(),
        ) {
            Ok::<(), StatusCode>(())
        } else {
            Err::<(), StatusCode>(StatusCode::InvalidWriteSet)
        },
{
    let block_key = new_block_event_key();
    let epoch_key = new_epoch_event_key();
    let has_new_block_event = contains_key(event_keys, &block_key);
    let has_new_epoch_event = contains_key(event_keys, &epoch_key);
    if has_new_block_event && has_new_epoch_event {
        Ok(())
    } else {
        Err(StatusCode::InvalidWriteSet)
    }
}

/// The kinds of transaction that the adapter executes.
#[derive(Clone, Copy, Debug, PartialEq, Eq, Structural)]
pub enum TransactionKind {
    BlockMetadata,
    WaypointWriteSet,
    UserTransaction,
    InvalidSignature,
    StateCheckpoint,
}

/// How the adapter executes one transaction.
#[derive(Clone, Copy, Debug, PartialEq, Eq, Structural)]
pub enum Route {
    /// Run the block prologue.
    BlockPrologue,
    /// Process the waypoint change set.
    WaypointChangeSet,
    /// Execute the user transaction.
    UserTransaction,
    /// Discard with this code, without running anything.
    DiscardWith(StatusCode),
    /// Succeed with an empty output, without running anything.
    EmptySuccess,
}

/// The route of a kind of transaction.
pub open spec fn spec_route(kind: TransactionKind) -> Route {
    match kind {
        TransactionKind::BlockMetadata => Route::BlockPrologue,
        TransactionKind::WaypointWriteSet => Route::WaypointChangeSet,
        TransactionKind::UserTransaction => Route::UserTransaction,
        TransactionKind::InvalidSignature => Route::DiscardWith(StatusCode::InvalidSignature),
        TransactionKind::StateCheckpoint => Route::EmptySuccess,
    }
}

/// Chooses how to execute one transaction.
pub fn execute_single_transaction(kind: TransactionKind) -> (route: Route)
    ensures
        route == spec_route(kind),
{
    match kind {
        TransactionKind::BlockMetadata => Route::BlockPrologue,
        TransactionKind::WaypointWriteSet => Route::WaypointChangeSet,
        TransactionKind::UserTransaction => Route::UserTransaction,
        TransactionKind::InvalidSignature => Route::DiscardWith(StatusCode::InvalidSignature),
        TransactionKind::StateCheckpoint => Route::EmptySuccess,
    }
}

/// The fixed sender label of a kind of transaction; a user transaction is
/// labelled with its sender, and one with an invalid signature not at all.
pub fn sender_label(kind: TransactionKind) -> (label: Option<&'static str>)
    ensures
        match kind {
            TransactionKind::BlockMetadata => label.is_some() && label.unwrap()@
                == "block_prologue"@,
            TransactionKind::WaypointWriteSet => label.is_some() && label.unwrap()@
                == "waypoint_write_set"@,
            TransactionKind::StateCheckpoint => label.is_some() && label.unwrap()@
                == "state_checkpoint"@,
            TransactionKind::UserTransaction => label.is_none(),
            TransactionKind::InvalidSignature => label.is_none(),
        },
{
    match kind {
        TransactionKind::BlockMetadata => Some("block_prologue"),
        TransactionKind::WaypointWriteSet => Some("waypoint_write_set"),
        TransactionKind::StateCheckpoint => Some("state_checkpoint"),
        TransactionKind::UserTransaction => None,
        TransactionKind::InvalidSignature => None,
    }
}

/// The senders of a write set script: the sender of the transaction, if it
/// has one, before the account that the script runs as.
pub fn writeset_senders(txn_sender: Option<[u8; 32]>, execute_as: [u8; 32]) -> (senders: Vec<
    [u8; 32],
>)
    ensures
        senders@ == match txn_sender {
            Some(sender) => seq![sender, execute_as],
            None => seq![execute_as],
        },
{
    let mut senders: Vec<[u8; 32]> = Vec::new();
    match txn_sender {
        Some(sender) => {
            senders.push(sender);
        },
        None => {},
    }
    senders.push(execute_as);
    assert(senders@ =~= match txn_sender {
        Some(sender) => seq![sender, execute_as],
        None => seq![execute_as],
    });
    senders
}

} // verus!
