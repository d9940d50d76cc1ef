use vstd::prelude::*;

verus! {

/// The back pressure that the proof manager reports.
#[derive(Clone, Copy, Debug, PartialEq, Eq, Structural)]
pub struct BackPressure {
    pub txn_count: bool,
    pub proof_count: bool,
}

/// The identity of a batch: a counter and the nonce it started from.
#[derive(Clone, Copy, Debug, PartialEq, Eq, Structural)]
pub struct BatchId {
    pub id: u64,
    pub nonce: u64,
}

impl BatchId {
    /// The first id of a nonce.
    pub fn new(nonce: u64) -> (b: Self)
        ensures
            b == (BatchId { id: 0, nonce }),
    {
        BatchId { id: 0, nonce }
    }

    /// Moves on to the next id.
    pub fn increment(&mut self)
        requires
            old(self).id < u64::MAX,
        ensures
            *final(self) == (BatchId { id: (old(self).id + 1) as u64, nonce: old(self).nonce }),
    {
        self.id = self.id + 1;
    }
}

/// The sender and sequence number of a transaction.
#[derive(Clone, Copy, Debug, PartialEq, Eq)]
pub struct TransactionSummary {
    pub sender: [u8; 32],
    pub sequence_number: u64,
}

/// How the pull rate follows the back pressure.
#[derive(Clone, Copy, Debug, PartialEq, Eq, Structural)]
pub struct BackPressureConfig {
    pub decrease_duration_ms: u64,
    pub increase_duration_ms: u64,
    pub dynamic_min_txn_per_s: u64,
    pub dynamic_max_txn_per_s: u64,
}

/// The settings of the batch generator.
#[derive(Clone, Copy, Debug, PartialEq, Eq, Structural)]
pub struct QuorumStoreConfig {
    pub back_pressure: BackPressureConfig,
    pub batch_generation_min_non_empty_interval_ms: usize,
    pub batch_generation_max_interval_ms: usize,
    pub batch_expiry_gap_when_init_usecs: u64,
    pub mempool_txn_pull_max_bytes: u64,
}

/// A command to the batch generator.
#[derive(Debug)]
pub enum BatchGeneratorCommand {
    /// A block with this timestamp was committed.
    CommitNotification(u64),
    /// The proofs of these batches timed out.
    ProofExpiration(Vec<BatchId>),
    /// Stop.
    Shutdown,
}

/// The pull rate at the start: the middle of its range.
pub fn initial_pull_rate(cfg: &BackPressureConfig) -> (rate: u64)
    requires
        cfg.dynamic_min_txn_per_s + cfg.dynamic_max_txn_per_s <= u64::MAX,
    ensures
        rate == (cfg.dynamic_min_txn_per_s + cfg.dynamic_max_txn_per_s) / 2,
{
    (cfg.dynamic_min_txn_per_s + cfg.dynamic_max_txn_per_s) / 2
}

/// The additive increase of the pull rate: by the smallest rate, up to the
/// largest.
pub fn increased_pull_rate(rate: u64, cfg: &BackPressureConfig) -> (next: u64)
    requires
        rate + cfg.dynamic_min_txn_per_s <= u64::MAX,
    ensures
        next == if rate + cfg.dynamic_min_txn_per_s <= cfg.dynamic_max_txn_per_s {
            (rate + cfg.dynamic_min_txn_per_s) as u64
        } else {
            cfg.dynamic_max_txn_per_s
        },
{
    let raised = rate + cfg.dynamic_min_txn_per_s;
    if raised <= cfg.dynamic_max_txn_per_s {
        raised
    } else {
        cfg.dynamic_max_txn_per_s
    }
}

/// The end of a multiplicative decrease: the scaled rate, but no less than
/// the smallest rate.
pub fn decreased_pull_rate(scaled_rate: u64, cfg: &BackPressureConfig) -> (next: u64)
    ensures
        next == if scaled_rate >= cfg.dynamic_min_txn_per_s {
            scaled_rate
        } else {
            cfg.dynamic_min_txn_per_s
        },
{
    if scaled_rate >= cfg.dynamic_min_txn_per_s {
        scaled_rate
    } else {
        cfg.dynamic_min_txn_per_s
    }
}

/// The time since the last pull that brought transactions, in milliseconds,
/// cut off at the largest interval between two batches.
pub fn since_last_non_empty_pull_ms(elapsed_ms: u128, cfg: &QuorumStoreConfig) -> (ms: usize)
    ensures
        ms == if elapsed_ms <= cfg.batch_generation_max_interval_ms {
            elapsed_ms as usize
        } else {
            cfg.batch_generation_max_interval_ms
        },
{
    if elapsed_ms <= cfg.batch_generation_max_interval_ms as u128 {
        elapsed_ms as usize
    } else {
        cfg.batch_generation_max_interval_ms
    }
}

/// Whether a tick pulls transactions: without back pressure on the proofs as
/// soon as the smallest interval has passed, and in any case when the largest
/// interval has passed.
pub fn should_pull(
    back_pressure: BackPressure,
    since_last_ms: usize,
    cfg: &QuorumStoreConfig,
) -> (pull: bool)
    ensures
        pull == ((!back_pressure.proof_count && since_last_ms
            >= cfg.batch_generation_min_non_empty_interval_ms) || since_last_ms
            == cfg.batch_generation_max_interval_ms),
{
    (!back_pressure.proof_count && since_last_ms >= cfg.batch_generation_min_non_empty_interval_ms)
        || since_last_ms == cfg.batch_generation_max_interval_ms
}

/// The batches that wait for their proof, and when they expire.
#[derive(Debug)]
pub struct BatchGenerator {
    epoch: u64,
    batch_id: BatchId,
    batches_in_progress: Vec<(BatchId, Vec<TransactionSummary>)>,
    batch_expirations: Vec<(u64, BatchId)>,
    latest_block_timestamp: u64,
    back_pressure: BackPressure,
}

/// The batch generator as a mathematical value.
pub struct GeneratorView {
    pub epoch: u64,
    pub batch_id: BatchId,
    pub in_progress: Seq<(BatchId, Seq<TransactionSummary>)>,
    pub expirations: Seq<(u64, BatchId)>,
    pub latest_block_timestamp: u64,
    pub back_pressure: BackPressure,
}

/// The batches of a list with their summaries.
pub open spec fn in_progress_view(b: Seq<(BatchId, Vec<TransactionSummary>)>) -> Seq<
    (BatchId, Seq<TransactionSummary>),
> {
    Seq::new(b.len(), |i: int| (b[i].0, b[i].1@))
}

/// All summaries of a list of batches, batch after batch.
pub open spec fn all_summaries(b: Seq<(BatchId, Seq<TransactionSummary>)>) -> Seq<
    TransactionSummary,
>
    decreases b.len(),
{
    if b.len() == 0 {
        Seq::empty()
    } else {
        all_summaries(b.drop_last()) + b.last().1
    }
}

/// The batches without those of id `id`.
pub open spec fn without_batch(
    b: Seq<(BatchId, Seq<TransactionSummary>)>,
    id: BatchId,
) -> Seq<(BatchId, Seq<TransactionSummary>)> {
    without_batch_of(b, id)
}

/// The batches without those of id `id`, entry by entry.
pub open spec fn without_batch_of(
    b: Seq<(BatchId, Seq<TransactionSummary>)>,
    id: BatchId,
) -> Seq<(BatchId, Seq<TransactionSummary>)>
    decreases b.len(),
{
    if b.len() == 0 {
        Seq::empty()
    } else if b.last().0 != id {
        without_batch_of(b.drop_last(), id).push(b.last())
    } else {
        without_batch_of(b.drop_last(), id)
    }
}

/// The expirations after `time`, in the order of the list.
pub open spec fn later_expirations(expirations: Seq<(u64, BatchId)>, time: u64) -> Seq<
    (u64, BatchId),
>
    decreases expirations.len(),
{
    if expirations.len() == 0 {
        Seq::empty()
    } else if expirations.last().0 > time {
        later_expirations(expirations.drop_last(), time).push(expirations.last())
    } else {
        later_expirations(expirations.drop_last(), time)
    }
}

/// Calls `rand`'s `thread_rng` and `RngCore::next_u64`: a random number, of
/// which the contract says nothing.
#[verifier::external_body]
fn random_nonce() -> (nonce: u64) {
    rand::RngCore::next_u64(&mut rand::thread_rng())
}

impl View for BatchGenerator {
    type V = GeneratorView;

    closed spec fn view(&self) -> GeneratorView {
        GeneratorView {
            epoch: self.epoch,
            batch_id: self.batch_id,
            in_progress: in_progress_view(self.batches_in_progress@),
            expirations: self.batch_expirations@,
            latest_block_timestamp: self.latest_block_timestamp,
            back_pressure: self.back_pressure,
        }
    }
}

impl BatchGenerator {
    /// A generator that starts at `batch_id`, with nothing in progress.
    pub fn with_batch_id(epoch: u64, batch_id: BatchId) -> (g: Self)
        ensures
            g@ == (GeneratorView {
                epoch,
                batch_id,
                in_progress: Seq::empty(),
                expirations: Seq::empty(),
                latest_block_timestamp: 0,
                back_pressure: BackPressure { txn_count: false, proof_count: false },
            }),
    {
        let g = BatchGenerator {
            epoch,
            batch_id,
            batches_in_progress: Vec::new(),
            batch_expirations: Vec::new(),
            latest_block_timestamp: 0,
            back_pressure: BackPressure { txn_count: false, proof_count: false },
        };
        assert(g@.in_progress =~= Seq::empty());
        g
    }

    /// The first batch id of a generator, given the id that the database
    /// holds for the epoch: the id after it, since the node may have stopped in
    /// the middle of a batch, or the first id of the nonce where it holds none.
    pub fn first_batch_id(stored: Option<BatchId>, nonce: u64) -> (id: BatchId)
        requires
            stored.is_some() ==> stored.unwrap().id < u64::MAX,
        ensures
            id == match stored {
                Some(s) => BatchId { id: (s.id + 1) as u64, nonce: s.nonce },
                None => BatchId { id: 0, nonce },
            },
    {
        match stored {
            Some(s) => {
                let mut id = s;
                id.increment();
                id
            },
            None => BatchId::new(nonce),
        }
    }

    /// A generator for an epoch. Where the database holds a batch id for the
    /// epoch the generator goes on after it, and else it starts from a random
    /// nonce. Returns the generator and the id to save: the one after its own.
    pub fn new(epoch: u64, stored: Option<BatchId>) -> (r: (Self, BatchId))
        requires
            stored.is_some() ==> stored.unwrap().id < u64::MAX - 1,
        ensures
            r.0@.epoch == epoch,
            r.0@.in_progress.len() == 0,
            r.0@.expirations.len() == 0,
            r.0@.latest_block_timestamp == 0,
            r.0@.back_pressure == (BackPressure { txn_count: false, proof_count: false }),
            match stored {
                Some(s) => r.0@.batch_id == (BatchId { id: (s.id + 1) as u64, nonce: s.nonce }),
                None => r.0@.batch_id.id == 0,
            },
            r.1 == (BatchId { id: (r.0@.batch_id.id + 1) as u64, nonce: r.0@.batch_id.nonce }),
    {
        let nonce = match stored {
            Some(_) => 0,
            None => random_nonce(),
        };
        let batch_id = Self::first_batch_id(stored, nonce);
        let mut incremented_batch_id = batch_id;
        incremented_batch_id.increment();
        (Self::with_batch_id(epoch, batch_id), incremented_batch_id)
    }

    /// Takes in the back pressure that the proof manager reports.
    pub fn set_back_pressure(&mut self, back_pressure: BackPressure)
        ensures
            final(self)@ == (GeneratorView { back_pressure, ..old(self)@ }),
    {
        self.back_pressure = back_pressure;
    }

    /// The transactions that a pull has to leave out: those of the batches in
    /// progress.
    pub fn exclude_txns(&self) -> (txns: Vec<TransactionSummary>)
        ensures
            txns@ == all_summaries(self@.in_progress),
    {
        let ghost v = in_progress_view(self.batches_in_progress@);
        let mut txns: Vec<TransactionSummary> = Vec::new();
        let mut i: usize = 0;
        assert(v.subrange(0, 0) =~= Seq::empty());
        while i < self.batches_in_progress.len()
            invariant
                0 <= i <= self.batches_in_progress.len(),
                v == in_progress_view(self.batches_in_progress@),
                txns@ == all_summaries(v.subrange(0, i as int)),
            decreases self.batches_in_progress.len() - i,
        {
            let batch = &self.batches_in_progress[i].1;
            let ghost start = txns@;
            proof {
                let next = v.subrange(0, i as int + 1);
                assert(next.drop_last() =~= v.subrange(0, i as int));
                assert(next.last().1 == batch@);
            }
            let mut j: usize = 0;
            while j < batch.len()
                invariant
                    0 <= j <= batch.len(),
                    txns@ == start + batch@.subrange(0, j as int),
                decreases batch.len() - j,
            {
                txns.push(batch[j]);
                j += 1;
                assert(txns@ =~= start + batch@.subrange(0, j as int));
            }
            assert(batch@.subrange(0, batch@.len() as int) =~= batch@);
            i += 1;
        }
        assert(v.subrange(0, v.len() as int) =~= v);
        txns
    }

    /// Makes a batch of the transactions that a pull brought. A pull that
    /// brought none makes no batch. Otherwise the batch gets the current batch
    /// id, which moves on, and expires the configured gap after `now_usecs`;
    /// it is in progress from now on. Returns the id of the batch and its
    /// expiry.
    pub fn handle_scheduled_pull(
        &mut self,
        pulled: Vec<TransactionSummary>,
        now_usecs: u64,
        cfg: &QuorumStoreConfig,
    ) -> (batch: Option<(BatchId, u64)>)
        requires
            old(self)@.batch_id.id < u64::MAX,
            now_usecs + cfg.batch_expiry_gap_when_init_usecs <= u64::MAX,
        ensures
            pulled@.len() == 0 ==> batch.is_none() && final(self)@ == old(self)@,
            pulled@.len() > 0 ==> {
                let id = old(self)@.batch_id;
                let expiry = (now_usecs + cfg.batch_expiry_gap_when_init_usecs) as u64;
                &&& batch == Some((id, expiry))
                &&& final(self)@ == (GeneratorView {
                    batch_id: BatchId { id: (id.id + 1) as u64, nonce: id.nonce },
                    in_progress: spec_insert_batch(old(self)@.in_progress, id, pulled@),
                    expirations: old(self)@.expirations.push((expiry, id)),
                    ..old(self)@
                })
            },
    {
        if pulled.len() == 0 {
            return None;
        }
        let batch_id = self.batch_id;
        self.batch_id.increment();
        let expiry_time = now_usecs + cfg.batch_expiry_gap_when_init_usecs;
        let ghost before = self.batches_in_progress@;
        let mut found: Option<usize> = None;
        let mut i: usize = 0;
        while i < self.batches_in_progress.len() && found.is_none()
            invariant
                0 <= i <= self.batches_in_progress.len(),
                self.batches_in_progress@ == before,
                match found {
                    Some(k) => k < before.len() && before[k as int].0 == batch_id && forall|
                        j: int,
                    |
                        0 <= j < k ==> (#[trigger] before[j]).0 != batch_id,
                    None => forall|j: int| 0 <= j < i ==> (#[trigger] before[j]).0 != batch_id,
                },
            decreases self.batches_in_progress.len() - i + if found.is_none() {
                1int
            } else {
                0int
            },
        {
            if self.batches_in_progress[i].0 == batch_id {
                found = Some(i);
            } else {
                i += 1;
            }
        }
        match found {
            Some(k) => {
                self.batches_in_progress[k] = (batch_id, pulled);
                assert(first_batch(old(self)@.in_progress, batch_id) == Some(k as int)) by {
                    lemma_first_batch(old(self)@.in_progress, batch_id, k as int);
                }
            },
            None => {
                self.batches_in_progress.push((batch_id, pulled));
                assert(first_batch(old(self)@.in_progress, batch_id).is_none()) by {
                    lemma_no_batch(old(self)@.in_progress, batch_id);
                }
            },
        }
        assert(self@.in_progress =~= spec_insert_batch(old(self)@.in_progress, batch_id, pulled@));
        self.batch_expirations.push((expiry_time, batch_id));
        Some((batch_id, expiry_time))
    }

    /// Takes in the timeout of the proofs of `batch_ids`: the batches are no
    /// longer in progress, so that their transactions can be pulled again.
    pub fn handle_proof_expiration(&mut self, batch_ids: &Vec<BatchId>)
        ensures
            final(self)@ == (GeneratorView {
                in_progress: without_batches(old(self)@.in_progress, batch_ids@),
                ..old(self)@
            }),
    {
        let mut k: usize = 0;
        assert(batch_ids@.subrange(0, 0) =~= Seq::<BatchId>::empty());
        while k < batch_ids.len()
            invariant
                0 <= k <= batch_ids.len(),
                self@ == (GeneratorView {
                    in_progress: without_batches(
                        old(self)@.in_progress,
                        batch_ids@.subrange(0, k as int),
                    ),
                    ..old(self)@
                }),
            decreases batch_ids.len() - k,
        {
            proof {
                let next = batch_ids@.subrange(0, k as int + 1);
                assert(next.drop_last() =~= batch_ids@.subrange(0, k as int));
                assert(next.last() == batch_ids@[k as int]);
            }
            self.remove_batch(batch_ids[k]);
            k += 1;
        }
        assert(batch_ids@.subrange(0, batch_ids@.len() as int) =~= batch_ids@);
    }

    fn remove_batch(&mut self, id: BatchId)
        ensures
            final(self)@ == (GeneratorView {
                in_progress: without_batch(old(self)@.in_progress, id),
                ..old(self)@
            }),
    {
        let ghost v = in_progress_view(self.batches_in_progress@);
        let ghost mut done: int = 0;
        let mut i: usize = 0;
        assert(v.subrange(0, 0) =~= Seq::empty());
        assert(in_progress_view(self.batches_in_progress@).subrange(0, 0) =~= without_batch(
            v.subrange(0, 0),
            id,
        ));
        assert(v.subrange(0, v.len() as int) =~= v);
        while i < self.batches_in_progress.len()
            invariant
                0 <= i <= self.batches_in_progress@.len(),
                0 <= done <= v.len(),
                self.batches_in_progress@.len() - i == v.len() - done,
                in_progress_view(self.batches_in_progress@).subrange(0, i as int) == without_batch(
                    v.subrange(0, done),
                    id,
                ),
                in_progress_view(self.batches_in_progress@).subrange(
                    i as int,
                    self.batches_in_progress@.len() as int,
                ) == v.subrange(done, v.len() as int),
                self.epoch == old(self).epoch,
                self.batch_id == old(self).batch_id,
                self.batch_expirations == old(self).batch_expirations,
                self.latest_block_timestamp == old(self).latest_block_timestamp,
                self.back_pressure == old(self).back_pressure,
            decreases v.len() - done,
        {
            let ghost cur = in_progress_view(self.batches_in_progress@);
            proof {
                let next = v.subrange(0, done + 1);
                assert(next.drop_last() =~= v.subrange(0, done));
                assert(cur.subrange(i as int, cur.len() as int)[0] == v.subrange(
                    done,
                    v.len() as int,
                )[0]);
                assert(next.last() == cur[i as int]);
            }
            if self.batches_in_progress[i].0 == id {
                let _ = self.batches_in_progress.remove(i);
                proof {
                    let now = in_progress_view(self.batches_in_progress@);
                    assert(now =~= cur.remove(i as int));
                    assert(now.subrange(0, i as int) =~= cur.subrange(0, i as int));
                    assert(now.subrange(i as int, now.len() as int) =~= cur.subrange(
                        i as int,
                        cur.len() as int,
                    ).drop_first());
                    assert(v.subrange(done, v.len() as int).drop_first() =~= v.subrange(
                        done + 1,
                        v.len() as int,
                    ));
                }
            } else {
                proof {
                    assert(cur.subrange(0, i as int + 1) =~= cur.subrange(0, i as int).push(
                        cur[i as int],
                    ));
                    assert(cur.subrange(i as int + 1, cur.len() as int) =~= cur.subrange(
                        i as int,
                        cur.len() as int,
                    ).drop_first());
                    assert(v.subrange(done, v.len() as int).drop_first() =~= v.subrange(
                        done + 1,
                        v.len() as int,
                    ));
                }
                i += 1;
            }
            proof {
                done = done + 1;
            }
        }
        assert(in_progress_view(self.batches_in_progress@).subrange(
            0,
            self.batches_in_progress@.len() as int,
        ) =~= in_progress_view(self.batches_in_progress@));
    }

    /// Takes in the commit of a block with `block_timestamp`, which is no
    /// earlier than the one before: the batches that expire at or before this
    /// time are no longer in progress, and their expirations are dropped.
    /// Returns the ids of those batches.
    pub fn handle_commit_notification(&mut self, block_timestamp: u64) -> (expired: Vec<BatchId>)
        requires
            old(self)@.latest_block_timestamp <= block_timestamp,
        ensures
            expired@ == expired_ids(old(self)@.expirations, block_timestamp),
            final(self)@ == (GeneratorView {
                latest_block_timestamp: block_timestamp,
                in_progress: without_batches(old(self)@.in_progress, expired@),
                expirations: later_expirations(old(self)@.expirations, block_timestamp),
                ..old(self)@
            }),
    {
        self.latest_block_timestamp = block_timestamp;
        let ghost queue = self.batch_expirations@;
        let mut all: Vec<(u64, BatchId)> = Vec::new();
        core::mem::swap(&mut all, &mut self.batch_expirations);
        let mut kept: Vec<(u64, BatchId)> = Vec::new();
        let mut expired: Vec<BatchId> = Vec::new();
        let mut i: usize = 0;
        assert(queue.subrange(0, 0) =~= Seq::<(u64, BatchId)>::empty());
        while i < all.len()
            invariant
                0 <= i <= all.len(),
                all@ == queue,
                kept@ == later_expirations(queue.subrange(0, i as int), block_timestamp),
                expired@ == expired_ids(queue.subrange(0, i as int), block_timestamp),
            decreases all.len() - i,
        {
            let entry = all[i];
            proof {
                let next = queue.subrange(0, i as int + 1);
                assert(next.drop_last() =~= queue.subrange(0, i as int));
                assert(next.last() == entry);
            }
            if entry.0 > block_timestamp {
                kept.push(entry);
            } else {
                expired.push(entry.1);
            }
            i += 1;
        }
        assert(queue.subrange(0, queue.len() as int) =~= queue);
        self.batch_expirations = kept;
        self.handle_proof_expiration(&expired);
        expired
    }
}

/// The position of the first batch of id `id`.
pub open spec fn first_batch(b: Seq<(BatchId, Seq<TransactionSummary>)>, id: BatchId) -> Option<int>
    decreases b.len(),
{
    if b.len() == 0 {
        None
    } else {
        match first_batch(b.drop_last(), id) {
            Some(i) => Some(i),
            None => if b.last().0 == id {
                Some(b.len() - 1)
            } else {
                None
            },
        }
    }
}

proof fn lemma_first_batch(b: Seq<(BatchId, Seq<TransactionSummary>)>, id: BatchId, k: int)
    requires
        0 <= k < b.len(),
        b[k].0 == id,
        forall|j: int| 0 <= j < k ==> (#[trigger] b[j]).0 != id,
    ensures
        first_batch(b, id) == Some(k),
    decreases b.len(),
{
    if k < b.len() - 1 {
        lemma_first_batch(b.drop_last(), id, k);
    } else {
        lemma_no_batch(b.drop_last(), id);
    }
}

proof fn lemma_no_batch(b: Seq<(BatchId, Seq<TransactionSummary>)>, id: BatchId)
    requires
        forall|j: int| 0 <= j < b.len() ==> (#[trigger] b[j]).0 != id,
    ensures
        first_batch(b, id).is_none(),
    decreases b.len(),
{
    if b.len() > 0 {
        assert(b.last() == b[b.len() - 1]);
        assert forall|j: int| 0 <= j < b.drop_last().len() implies (#[trigger] b.drop_last()[j]).0
            != id by {
            assert(b.drop_last()[j] == b[j]);
        }
        lemma_no_batch(b.drop_last(), id);
    }
}

/// The batches with the summaries of `id` set to `summaries`: in place of
/// its first entry, or as a new last entry if it has none.
pub open spec fn spec_insert_batch(
    b: Seq<(BatchId, Seq<TransactionSummary>)>,
    id: BatchId,
    summaries: Seq<TransactionSummary>,
) -> Seq<(BatchId, Seq<TransactionSummary>)> {
    match first_batch(b, id) {
        Some(i) => b.update(i, (id, summaries)),
        None => b.push((id, summaries)),
    }
}

/// The batches without those of the ids of `ids`.
pub open spec fn without_batches(
    b: Seq<(BatchId, Seq<TransactionSummary>)>,
    ids: Seq<BatchId>,
) -> Seq<(BatchId, Seq<TransactionSummary>)>
    decreases ids.len(),
{
    if ids.len() == 0 {
        b
    } else {
        without_batch(without_batches(b, ids.drop_last()), ids.last())
    }
}

/// The ids of the expirations at or before `time`, in the order of the list.
pub open spec fn expired_ids(expirations: Seq<(u64, BatchId)>, time: u64) -> Seq<BatchId>
    decreases expirations.len(),
{
    if expirations.len() == 0 {
        Seq::empty()
    } else if expirations.last().0 <= time {
        expired_ids(expirations.drop_last(), time).push(expirations.last().1)
    } else {
        expired_ids(expirations.drop_last(), time)
    }
}

} // verus!
