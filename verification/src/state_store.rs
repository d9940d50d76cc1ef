use vstd::prelude::*;

verus! {

/// The largest difference between the progress of one database and the
/// overall commit progress that a start-up accepts.
pub const MAX_COMMIT_PROGRESS_DIFFERENCE: u64 = 100000;

/// One truncation of a database back to the overall commit progress.
#[derive(Clone, Copy, Debug, PartialEq, Eq, Structural)]
pub struct Truncation {
    /// The version that the database has reached.
    pub current_version: u64,
    /// The version to go back to.
    pub target_version: u64,
    /// How many versions to truncate in one batch.
    pub batch_size: usize,
}

/// What to do at start-up to bring the databases to the same version.
#[derive(Clone, Copy, Debug, PartialEq, Eq, Structural)]
pub struct SyncPlan {
    pub ledger: Option<Truncation>,
    pub state_kv: Option<Truncation>,
}

/// The truncation that brings a database at `progress` back to `overall`.
pub open spec fn spec_truncation(progress: u64, overall: u64) -> Option<Truncation> {
    if progress != overall {
        Some(
            Truncation {
                current_version: progress,
                target_version: overall,
                batch_size: (progress - overall) as usize,
            },
        )
    } else {
        None
    }
}

/// Plans the synchronisation of the databases at start-up. The overall commit
/// progress is committed last and is the truth: a database that is ahead of it
/// is truncated back to it. Without an overall progress there is nothing to
/// do. No database may be behind the overall progress, and where
/// `crash_if_difference_is_too_large` is set none may be ahead of it by more
/// than `MAX_COMMIT_PROGRESS_DIFFERENCE`.
pub fn sync_commit_progress(
    overall_commit_progress: Option<u64>,
    ledger_commit_progress: u64,
    state_kv_commit_progress: u64,
    crash_if_difference_is_too_large: bool,
) -> (plan: SyncPlan)
    requires
        match overall_commit_progress {
            Some(overall) => {
                &&& ledger_commit_progress >= overall
                &&& state_kv_commit_progress >= overall
                &&& crash_if_difference_is_too_large ==> ledger_commit_progress - overall
                    <= MAX_COMMIT_PROGRESS_DIFFERENCE && state_kv_commit_progress - overall
                    <= MAX_COMMIT_PROGRESS_DIFFERENCE
            },
            None => true,
        },
    ensures
        plan == match overall_commit_progress {
            Some(overall) => SyncPlan {
                ledger: spec_truncation(ledger_commit_progress, overall),
                state_kv: spec_truncation(state_kv_commit_progress, overall),
            },
            None => SyncPlan { ledger: None, state_kv: None },
        },
{
    match overall_commit_progress {
        Some(overall) => {
            let ledger = if ledger_commit_progress != overall {
                let difference = ledger_commit_progress - overall;
                Some(
                    Truncation {
                        current_version: ledger_commit_progress,
                        target_version: overall,
                        batch_size: #[verifier::truncate]
                        (difference as usize),
                    },
                )
            } else {
                None
            };
            let state_kv = if state_kv_commit_progress != overall {
                let difference = state_kv_commit_progress - overall;
                Some(
                    Truncation {
                        current_version: state_kv_commit_progress,
                        target_version: overall,
                        batch_size: #[verifier::truncate]
                        (difference as usize),
                    },
                )
            } else {
                None
            };
            SyncPlan { ledger, state_kv }
        },
        None => SyncPlan { ledger: None, state_kv: None },
    }
}

/// Why the buffered state cannot be built.
#[derive(Clone, Copy, Debug, PartialEq, Eq, Structural)]
pub enum ReplayError {
    /// Too many versions were committed after the latest snapshot.
    TooManyVersions { snapshot_next_version: u64, num_transactions: u64 },
}

/// What it takes to build the buffered state from the latest snapshot.
#[derive(Clone, Copy, Debug, PartialEq, Eq, Structural)]
pub enum ReplayPlan {
    /// The snapshot is the state.
    Nothing,
    /// The write sets of the versions from `first_version` up to, but not
    /// including, `end_version` have to be replayed on the snapshot.
    Replay { first_version: u64, end_version: u64 },
}

/// The version after `version`, and zero where there is none yet.
pub open spec fn next_version(version: Option<u64>) -> int {
    match version {
        Some(v) => v + 1,
        None => 0,
    }
}

/// The plan for building the buffered state.
pub open spec fn spec_replay_plan(
    latest_version: Option<u64>,
    latest_snapshot_version: Option<u64>,
    hack_for_tests: bool,
    check_max_versions_after_snapshot: bool,
    max_write_sets_after_snapshot: u64,
) -> Result<ReplayPlan, ReplayError> {
    let num_transactions = next_version(latest_version);
    let snapshot_next_version = next_version(latest_snapshot_version);
    if hack_for_tests || snapshot_next_version >= num_transactions {
        Ok(ReplayPlan::Nothing)
    } else if check_max_versions_after_snapshot && num_transactions - snapshot_next_version
        > max_write_sets_after_snapshot {
        Err(
            ReplayError::TooManyVersions {
                snapshot_next_version: snapshot_next_version as u64,
                num_transactions: num_transactions as u64,
            },
        )
    } else {
        Ok(
            ReplayPlan::Replay {
                first_version: snapshot_next_version as u64,
                end_version: num_transactions as u64,
            },
        )
    }
}

/// Plans how to build the buffered state from the latest snapshot: the write
/// sets committed after the snapshot are replayed on it, unless a test opens
/// the database without this check, and not more of them than
/// `max_write_sets_after_snapshot` where the check is asked for.
pub fn create_buffered_state_from_latest_snapshot(
    latest_version: Option<u64>,
    latest_snapshot_version: Option<u64>,
    hack_for_tests: bool,
    check_max_versions_after_snapshot: bool,
    max_write_sets_after_snapshot: u64,
) -> (plan: Result<ReplayPlan, ReplayError>)
    requires
        next_version(latest_version) <= u64::MAX,
        next_version(latest_snapshot_version) <= u64::MAX,
    ensures
        plan == spec_replay_plan(
            latest_version,
            latest_snapshot_version,
            hack_for_tests,
            check_max_versions_after_snapshot,
            max_write_sets_after_snapshot,
        ),
{
    let num_transactions: u64 = match latest_version {
        Some(v) => v + 1,
        None => 0,
    };
    if hack_for_tests {
        return Ok(ReplayPlan::Nothing);
    }
    let snapshot_next_version: u64 = match latest_snapshot_version {
        Some(v) => v + 1,
        None => 0,
    };
    if snapshot_next_version < num_transactions {
        if check_max_versions_after_snapshot {
            if num_transactions - snapshot_next_version > max_write_sets_after_snapshot {
                return Err(
                    ReplayError::TooManyVersions { snapshot_next_version, num_transactions },
                );
            }
        }
        Ok(ReplayPlan::Replay { first_version: snapshot_next_version, end_version: num_transactions })
    } else {
        Ok(ReplayPlan::Nothing)
    }
}

/// The position of the last `true` in a list of flags.
pub open spec fn spec_last_checkpoint(flags: Seq<bool>) -> Option<int>
    decreases flags.len(),
{
    if flags.len() == 0 {
        None
    } else if flags.last() {
        Some(flags.len() - 1)
    } else {
        spec_last_checkpoint(flags.drop_last())
    }
}

/// The index of the last transaction that is a state checkpoint.
pub fn last_checkpoint_index(is_state_checkpoint: &Vec<bool>) -> (r: Option<usize>)
    ensures
        match r {
            Some(i) => spec_last_checkpoint(is_state_checkpoint@) == Some(i as int),
            None => spec_last_checkpoint(is_state_checkpoint@).is_none(),
        },
{
    let mut i: usize = is_state_checkpoint.len();
    assert(is_state_checkpoint@.subrange(0, i as int) =~= is_state_checkpoint@);
    while i > 0
        invariant
            0 <= i <= is_state_checkpoint.len(),
            spec_last_checkpoint(is_state_checkpoint@) == spec_last_checkpoint(
                is_state_checkpoint@.subrange(0, i as int),
            ),
        decreases i,
    {
        let ghost prefix = is_state_checkpoint@.subrange(0, i as int);
        assert(prefix.last() == is_state_checkpoint@[i as int - 1]);
        if is_state_checkpoint[i - 1] {
            return Some(i - 1);
        }
        assert(prefix.drop_last() =~= is_state_checkpoint@.subrange(0, i as int - 1));
        i -= 1;
    }
    None
}

/// The end of an epoch: the last version of the epoch and its number.
#[derive(Clone, Copy, Debug, PartialEq, Eq, Structural)]
pub struct EpochEnding {
    pub version: u64,
    pub epoch: u64,
}

/// The last of the `endings` whose version is at most `bound`.
pub open spec fn spec_last_at_most(endings: Seq<EpochEnding>, bound: u64) -> Option<EpochEnding>
    decreases endings.len(),
{
    if endings.len() == 0 {
        None
    } else if endings.last().version <= bound {
        Some(endings.last())
    } else {
        spec_last_at_most(endings.drop_last(), bound)
    }
}

/// The latest epoch that ended strictly before `version`: the last of the
/// epoch endings, which are listed by ascending version, whose version is
/// below `version`. If `version` itself ends an epoch, the answer is the epoch
/// before that one.
pub fn get_previous_epoch_ending(endings: &Vec<EpochEnding>, version: u64) -> (r: Option<
    EpochEnding,
>)
    ensures
        r == if version == 0 {
            None
        } else {
            spec_last_at_most(endings@, (version - 1) as u64)
        },
{
    if version == 0 {
        return None;
    }
    let prev_version = version - 1;
    let mut i: usize = endings.len();
    assert(endings@.subrange(0, i as int) =~= endings@);
    while i > 0
        invariant
            0 <= i <= endings.len(),
            version > 0,
            prev_version == version - 1,
            spec_last_at_most(endings@, prev_version) == spec_last_at_most(
                endings@.subrange(0, i as int),
                prev_version,
            ),
        decreases i,
    {
        let ghost prefix = endings@.subrange(0, i as int);
        assert(prefix.last() == endings@[i as int - 1]);
        if endings[i - 1].version <= prev_version {
            return Some(endings[i - 1]);
        }
        assert(prefix.drop_last() =~= endings@.subrange(0, i as int - 1));
        i -= 1;
    }
    None
}

/// The first and the last index of a chunk of `len` values that starts at
/// `first_index`; `None` for an empty chunk, which is not found.
pub fn chunk_bounds(first_index: usize, len: usize) -> (r: Option<(u64, u64)>)
    requires
        first_index + len <= usize::MAX,
    ensures
        r == if len == 0 {
            None
        } else {
            Some((first_index as u64, (len - 1 + first_index) as u64))
        },
{
    if len == 0 {
        None
    } else {
        Some((first_index as u64, (len - 1 + first_index) as u64))
    }
}

/// One update of the state at one version: the key, its size, and the size
/// of the new value, or `None` for a deletion.
#[derive(Clone, Copy, Debug, PartialEq, Eq, Structural)]
pub struct StateUpdate {
    pub key: u64,
    pub key_size: u32,
    pub value_size: Option<u32>,
}

/// What the cache knows of a key: the version of its latest update and the
/// size of the value written then, or `None` where the key was deleted or
/// never written.
pub type Cached = (u64, Option<u32>);

/// A note that the value of `key` written at `version` is stale from
/// `stale_since_version` on.
#[derive(Clone, Copy, Debug, PartialEq, Eq, Structural)]
pub struct StaleStateValueIndex {
    pub stale_since_version: u64,
    pub version: u64,
    pub key: u64,
}

/// The change of the usage of the state: items and bytes.
#[derive(Clone, Copy, Debug, PartialEq, Eq, Structural)]
pub struct UsageDelta {
    pub items: i128,
    pub bytes: i128,
}

/// The usage of the state: items and bytes.
#[derive(Clone, Copy, Debug, PartialEq, Eq, Structural)]
pub struct StateStorageUsage {
    pub items: usize,
    pub bytes: usize,
}

/// Declares `dashmap::DashMap`, a concurrent hash map, as a type whose inside
/// the library does not look at.
#[verifier::external_type_specification]
#[verifier::external_body]
#[verifier::reject_recursive_types(K)]
#[verifier::reject_recursive_types(V)]
#[verifier::reject_recursive_types(S)]
pub struct ExDashMap<K, V, S>(dashmap::DashMap<K, V, S>);

/// The entries of a cache.
pub uninterp spec fn cache_contents(cache: dashmap::DashMap<u64, (u64, Option<u32>)>) -> Map<
    u64,
    (u64, Option<u32>),
>;

/// A cache without entries.
pub open spec fn empty_cache() -> Map<u64, (u64, Option<u32>)> {
    Map::empty()
}

/// Calls `DashMap::new`, which creates a map without entries.
#[verifier::external_body]
fn new_cache() -> (fresh: dashmap::DashMap<u64, (u64, Option<u32>)>)
    ensures
        cache_contents(fresh) == empty_cache(),
{
    dashmap::DashMap::new()
}

/// Calls `DashMap::insert`, which puts the value under the key and returns
/// the value that was there before, if there was one. The map is borrowed for
/// change, so nothing else holds a reference into it.
#[verifier::external_body]
fn cache_insert(
    cache: &mut dashmap::DashMap<u64, (u64, Option<u32>)>,
    key: u64,
    value: Cached,
) -> (previous: Option<Cached>)
    ensures
        cache_contents(*final(cache)) == cache_contents(*old(cache)).insert(key, value),
        previous == if cache_contents(*old(cache)).contains_key(key) {
            Some(cache_contents(*old(cache))[key])
        } else {
            None
        },
{
    cache.insert(key, value)
}

/// The state of the accounting of one version.
pub struct Accounting {
    pub cache: Map<u64, (u64, Option<u32>)>,
    pub delta: UsageDelta,
    pub stale: Seq<StaleStateValueIndex>,
}

/// Accounts for one update at `version`. A deletion notes its own tombstone
/// as stale from this version on, so that the tombstone is cleared once the
/// version is pruned. A written value counts as one item and as the bytes of
/// its key and itself. The old value of the key, if the cache knows one, stops
/// counting and is noted as stale from this version on.
pub open spec fn account_update(a: Accounting, u: StateUpdate, version: u64) -> Accounting {
    let tombstone = if u.value_size.is_none() {
        a.stale.push(
            StaleStateValueIndex { stale_since_version: version, version, key: u.key },
        )
    } else {
        a.stale
    };
    let written = match u.value_size {
        Some(size) => UsageDelta {
            items: (a.delta.items + 1) as i128,
            bytes: (a.delta.bytes + u.key_size + size) as i128,
        },
        None => a.delta,
    };
    let cache = a.cache.insert(u.key, (version, u.value_size));
    if a.cache.contains_key(u.key) && a.cache[u.key].1.is_some() {
        Accounting {
            cache,
            delta: UsageDelta {
                items: (written.items - 1) as i128,
                bytes: (written.bytes - u.key_size - a.cache[u.key].1.unwrap()) as i128,
            },
            stale: tombstone.push(
                StaleStateValueIndex {
                    stale_since_version: version,
                    version: a.cache[u.key].0,
                    key: u.key,
                },
            ),
        }
    } else {
        Accounting { cache, delta: written, stale: tombstone }
    }
}

/// Accounts for the updates of one version, from first to last.
pub open spec fn account_updates(a: Accounting, updates: Seq<StateUpdate>, version: u64) -> Accounting
    decreases updates.len(),
{
    if updates.len() == 0 {
        a
    } else {
        account_update(account_updates(a, updates.drop_last(), version), updates.last(), version)
    }
}

/// The bound that keeps the sums of the accounting within their type.
pub open spec fn delta_bounded(d: UsageDelta, n: int) -> bool {
    -n <= d.items <= n && -n * 0x2_0000_0000 <= d.bytes <= n * 0x2_0000_0000
}

/// Accounts for the updates of one version: returns the change of the usage,
/// appends the stale indices to `stale`, and records every update in the
/// cache.
pub fn account_version(
    cache: &mut dashmap::DashMap<u64, (u64, Option<u32>)>,
    updates: &Vec<StateUpdate>,
    version: u64,
    stale: &mut Vec<StaleStateValueIndex>,
) -> (delta: UsageDelta)
    ensures
        ({
            let end = account_updates(
                Accounting {
                    cache: cache_contents(*old(cache)),
                    delta: UsageDelta { items: 0, bytes: 0 },
                    stale: old(stale)@,
                },
                updates@,
                version,
            );
            &&& cache_contents(*final(cache)) == end.cache
            &&& delta == end.delta
            &&& final(stale)@ == end.stale
        }),
        delta_bounded(delta, updates@.len() as int),
{
    let ghost start = Accounting {
        cache: cache_contents(*cache),
        delta: UsageDelta { items: 0, bytes: 0 },
        stale: stale@,
    };
    let mut items: i128 = 0;
    let mut bytes: i128 = 0;
    let mut i: usize = 0;
    assert(updates@.subrange(0, 0) =~= Seq::<StateUpdate>::empty());
    while i < updates.len()
        invariant
            0 <= i <= updates.len(),
            delta_bounded(UsageDelta { items, bytes }, i as int),
            ({
                let now = account_updates(start, updates@.subrange(0, i as int), version);
                &&& cache_contents(*cache) == now.cache
                &&& UsageDelta { items, bytes } == now.delta
                &&& stale@ == now.stale
            }),
        decreases updates.len() - i,
    {
        let u = updates[i];
        proof {
            let next = updates@.subrange(0, i as int + 1);
            assert(next.drop_last() =~= updates@.subrange(0, i as int));
            assert(next.last() == u);
        }
        match u.value_size {
            Some(size) => {
                items = items + 1;
                bytes = bytes + (u.key_size as i128) + (size as i128);
            },
            None => {
                stale.push(
                    StaleStateValueIndex { stale_since_version: version, version, key: u.key },
                );
            },
        }
        match cache_insert(cache, u.key, (version, u.value_size)) {
            Some((old_version, Some(old_size))) => {
                items = items - 1;
                bytes = bytes - (u.key_size as i128) - (old_size as i128);
                stale.push(
                    StaleStateValueIndex {
                        stale_since_version: version,
                        version: old_version,
                        key: u.key,
                    },
                );
            },
            _ => {},
        }
        i += 1;
    }
    assert(updates@.subrange(0, updates@.len() as int) =~= updates@);
    UsageDelta { items, bytes }
}

/// The cache that holds what is known of the keys before the first version.
pub open spec fn seeded(known: Seq<(u64, (u64, Option<u32>))>) -> Map<u64, (u64, Option<u32>)>
    decreases known.len(),
{
    if known.len() == 0 {
        Map::empty()
    } else {
        seeded(known.drop_last()).insert(known.last().0, known.last().1)
    }
}

/// The updates of a list of versions.
pub open spec fn sets_view(sets: Seq<Vec<StateUpdate>>) -> Seq<Seq<StateUpdate>> {
    Seq::new(sets.len(), |i: int| sets[i]@)
}

/// The accounting of a run of versions: the cache at its end, the change of
/// the usage at each version, and all stale indices.
pub struct RunAccounting {
    pub cache: Map<u64, (u64, Option<u32>)>,
    pub deltas: Seq<UsageDelta>,
    pub stale: Seq<StaleStateValueIndex>,
}

/// Accounts for the updates of the versions `first_version`,
/// `first_version + 1` and so on, one list of updates each.
pub open spec fn account_run(
    cache: Map<u64, (u64, Option<u32>)>,
    sets: Seq<Seq<StateUpdate>>,
    first_version: u64,
) -> RunAccounting
    decreases sets.len(),
{
    if sets.len() == 0 {
        RunAccounting { cache, deltas: Seq::empty(), stale: Seq::empty() }
    } else {
        let before = account_run(cache, sets.drop_last(), first_version);
        let last = account_updates(
            Accounting {
                cache: before.cache,
                delta: UsageDelta { items: 0, bytes: 0 },
                stale: before.stale,
            },
            sets.last(),
            (first_version + sets.len() - 1) as u64,
        );
        RunAccounting {
            cache: last.cache,
            deltas: before.deltas.push(last.delta),
            stale: last.stale,
        }
    }
}

/// The usage after each of the changes of `deltas`, applied one after the
/// other to `base`; `None` where one of them leaves the range of a usage.
pub open spec fn running_usage(base: StateStorageUsage, deltas: Seq<UsageDelta>) -> Option<
    Seq<StateStorageUsage>,
>
    decreases deltas.len(),
{
    if deltas.len() == 0 {
        Some(Seq::empty())
    } else {
        match running_usage(base, deltas.drop_last()) {
            None => None,
            Some(usages) => {
                let current = if usages.len() == 0 {
                    base
                } else {
                    usages.last()
                };
                match spec_apply_delta(current, deltas.last()) {
                    None => None,
                    Some(u) => Some(usages.push(u)),
                }
            },
        }
    }
}

/// Why the statistics could not be written.
#[derive(Clone, Copy, Debug, PartialEq, Eq, Structural)]
pub enum UsageError {
    /// The usage calculated for the last version is not the expected one.
    Mismatch { expected: StateStorageUsage, calculated: StateStorageUsage },
    /// The usage of some version would be negative or too large to count.
    OutOfRange,
}

/// The statistics and indices of a run of versions.
#[derive(Debug)]
pub struct StatsAndIndices {
    /// The usage of the state at each version; empty where usage is skipped.
    pub usages: Vec<StateStorageUsage>,
    /// The stale indices of all versions.
    pub stale_indices: Vec<StaleStateValueIndex>,
}

/// What `put_stats_and_indices` returns.
pub open spec fn spec_stats_and_indices(
    sets: Seq<Seq<StateUpdate>>,
    first_version: u64,
    known: Seq<(u64, (u64, Option<u32>))>,
    base_usage: StateStorageUsage,
    expected_usage: Option<StateStorageUsage>,
    skip_usage: bool,
) -> Result<(Seq<StateStorageUsage>, Seq<StaleStateValueIndex>), UsageError> {
    let run = account_run(seeded(known), sets, first_version);
    if skip_usage {
        Ok((Seq::empty(), run.stale))
    } else {
        match running_usage(base_usage, run.deltas) {
            None => Err(UsageError::OutOfRange),
            Some(usages) => {
                let last = if usages.len() == 0 {
                    base_usage
                } else {
                    usages.last()
                };
                if expected_usage.is_some() && expected_usage.unwrap() != last {
                    Err(UsageError::Mismatch { expected: expected_usage.unwrap(), calculated: last })
                } else {
                    Ok((usages, run.stale))
                }
            },
        }
    }
}

/// Computes the usage statistics and the stale indices of a run of
/// versions. `value_state_sets` holds the updates of the versions from
/// `first_version` on, `known` what is known of the updated keys before
/// `first_version`, and `base_usage` the usage before it. Unless usage is
/// skipped, the usage after every version is returned, and where an expected
/// usage is given the usage after the last version has to equal it.
pub fn put_stats_and_indices(
    value_state_sets: &Vec<Vec<StateUpdate>>,
    first_version: u64,
    known: &Vec<(u64, (u64, Option<u32>))>,
    base_usage: StateStorageUsage,
    expected_usage: Option<StateStorageUsage>,
    skip_usage: bool,
) -> (r: Result<StatsAndIndices, UsageError>)
    requires
        first_version + value_state_sets@.len() <= u64::MAX,
    ensures
        match r {
            Ok(s) => spec_stats_and_indices(
                sets_view(value_state_sets@),
                first_version,
                known@,
                base_usage,
                expected_usage,
                skip_usage,
            ) == Ok::<(Seq<StateStorageUsage>, Seq<StaleStateValueIndex>), UsageError>(
                (s.usages@, s.stale_indices@),
            ),
            Err(e) => spec_stats_and_indices(
                sets_view(value_state_sets@),
                first_version,
                known@,
                base_usage,
                expected_usage,
                skip_usage,
            ) == Err::<(Seq<StateStorageUsage>, Seq<StaleStateValueIndex>), UsageError>(e),
        },
{
    let ghost sv = sets_view(value_state_sets@);
    let mut cache = new_cache();
    let mut k: usize = 0;
    assert(known@.subrange(0, 0) =~= Seq::<(u64, (u64, Option<u32>))>::empty());
    while k < known.len()
        invariant
            0 <= k <= known.len(),
            cache_contents(cache) == seeded(known@.subrange(0, k as int)),
        decreases known.len() - k,
    {
        proof {
            let next = known@.subrange(0, k as int + 1);
            assert(next.drop_last() =~= known@.subrange(0, k as int));
            assert(next.last() == known@[k as int]);
        }
        let _ = cache_insert(&mut cache, known[k].0, known[k].1);
        k += 1;
    }
    assert(known@.subrange(0, known@.len() as int) =~= known@);
    let mut stale: Vec<StaleStateValueIndex> = Vec::new();
    let mut deltas: Vec<UsageDelta> = Vec::new();
    let mut i: usize = 0;
    assert(sv.subrange(0, 0) =~= Seq::<Seq<StateUpdate>>::empty());
    while i < value_state_sets.len()
        invariant
            0 <= i <= value_state_sets.len(),
            first_version + value_state_sets@.len() <= u64::MAX,
            sv == sets_view(value_state_sets@),
            deltas@.len() == i,
            forall|j: int|
                0 <= j < i ==> delta_bounded(
                    #[trigger] deltas@[j],
                    0xffff_ffff_ffff_ffff,
                ),
            ({
                let run = account_run(seeded(known@), sv.subrange(0, i as int), first_version);
                &&& cache_contents(cache) == run.cache
                &&& deltas@ == run.deltas
                &&& stale@ == run.stale
            }),
        decreases value_state_sets.len() - i,
    {
        proof {
            let next = sv.subrange(0, i as int + 1);
            assert(next.drop_last() =~= sv.subrange(0, i as int));
            assert(next.last() == value_state_sets@[i as int]@);
        }
        let version = first_version + i as u64;
        let count = value_state_sets[i].len();
        let delta = account_version(&mut cache, &value_state_sets[i], version, &mut stale);
        let ghost before = deltas@;
        deltas.push(delta);
        i += 1;
        proof {
            assert(count <= 0xffff_ffff_ffff_ffff);
            assert(delta_bounded(delta, 0xffff_ffff_ffff_ffff));
            assert forall|j: int| 0 <= j < i implies delta_bounded(
                #[trigger] deltas@[j],
                0xffff_ffff_ffff_ffff,
            ) by {
                if j < i - 1 {
                    assert(deltas@[j] == before[j]);
                }
            }
        }
    }
    assert(sv.subrange(0, sv.len() as int) =~= sv);
    if skip_usage {
        return Ok(StatsAndIndices { usages: Vec::new(), stale_indices: stale });
    }
    let mut usages: Vec<StateStorageUsage> = Vec::new();
    let mut usage = base_usage;
    let mut j: usize = 0;
    assert(deltas@.subrange(0, 0) =~= Seq::<UsageDelta>::empty());
    while j < deltas.len()
        invariant
            0 <= j <= deltas.len(),
            !skip_usage,
            sv == sets_view(value_state_sets@),
            deltas@ == account_run(seeded(known@), sv, first_version).deltas,
            stale@ == account_run(seeded(known@), sv, first_version).stale,
            forall|k: int|
                0 <= k < deltas@.len() ==> delta_bounded(
                    #[trigger] deltas@[k],
                    0xffff_ffff_ffff_ffff,
                ),
            running_usage(base_usage, deltas@.subrange(0, j as int)) == Some(usages@),
            usages@.len() == j,
            usage == if j == 0 {
                base_usage
            } else {
                usages@.last()
            },
        decreases deltas.len() - j,
    {
        proof {
            let next = deltas@.subrange(0, j as int + 1);
            assert(next.drop_last() =~= deltas@.subrange(0, j as int));
            assert(next.last() == deltas@[j as int]);
            assert(delta_bounded(deltas@[j as int], 0xffff_ffff_ffff_ffff));
        }
        match apply_delta(usage, deltas[j]) {
            Some(u) => {
                usage = u;
                usages.push(u);
            },
            None => {
                proof {
                    lemma_running_usage_fails(base_usage, deltas@, j as int + 1);
                }
                return Err(UsageError::OutOfRange);
            },
        }
        j += 1;
    }
    assert(deltas@.subrange(0, deltas@.len() as int) =~= deltas@);
    match expected_usage {
        Some(expected) => {
            if expected.items != usage.items || expected.bytes != usage.bytes {
                return Err(UsageError::Mismatch { expected, calculated: usage });
            }
        },
        None => {},
    }
    Ok(StatsAndIndices { usages, stale_indices: stale })
}

proof fn lemma_running_usage_fails(base: StateStorageUsage, deltas: Seq<UsageDelta>, n: int)
    requires
        0 <= n <= deltas.len(),
        running_usage(base, deltas.subrange(0, n)).is_none(),
    ensures
        running_usage(base, deltas).is_none(),
    decreases deltas.len() - n,
{
    if n < deltas.len() {
        assert(deltas.subrange(0, n + 1).drop_last() =~= deltas.subrange(0, n));
        lemma_running_usage_fails(base, deltas, n + 1);
    } else {
        assert(deltas.subrange(0, n) =~= deltas);
    }
}

/// The usage after a change, or `None` where items or bytes would fall below
/// zero or exceed the largest count.
pub open spec fn spec_apply_delta(usage: StateStorageUsage, delta: UsageDelta) -> Option<
    StateStorageUsage,
> {
    let items = usage.items + delta.items;
    let bytes = usage.bytes + delta.bytes;
    if 0 <= items <= usize::MAX && 0 <= bytes <= usize::MAX {
        Some(StateStorageUsage { items: items as usize, bytes: bytes as usize })
    } else {
        None
    }
}

/// Applies a change to a usage.
pub fn apply_delta(usage: StateStorageUsage, delta: UsageDelta) -> (r: Option<StateStorageUsage>)
    ensures
        r == spec_apply_delta(usage, delta),
{
    let items = match (usage.items as i128).checked_add(delta.items) {
        Some(i) => i,
        None => {
            return None;
        },
    };
    let bytes = match (usage.bytes as i128).checked_add(delta.bytes) {
        Some(b) => b,
        None => {
            return None;
        },
    };
    if items < 0 || bytes < 0 || items > usize::MAX as i128 || bytes > usize::MAX as i128 {
        None
    } else {
        Some(StateStorageUsage { items: items as usize, bytes: bytes as usize })
    }
}

} // verus!
