use crate::batch_generator::BatchId;
use crate::types::{bytes32_eq, clone_bytes};
use vstd::prelude::*;

verus! {

/// The identity of a peer.
pub type PeerId = [u8; 32];

/// The digest of a batch.
pub type Digest = [u8; 32];

/// What is known of a batch of transactions.
#[derive(Clone, Copy, Debug, PartialEq, Eq)]
pub struct BatchInfo {
    pub author: PeerId,
    pub batch_id: BatchId,
    pub epoch: u64,
    pub expiration: u64,
    pub digest: Digest,
    pub num_txns: u64,
    pub num_bytes: u64,
}

impl BatchInfo {
    /// Whether two infos describe the same batch in every field.
    pub open spec fn same(self, other: BatchInfo) -> bool {
        &&& self.author@ == other.author@
        &&& self.batch_id == other.batch_id
        &&& self.epoch == other.epoch
        &&& self.expiration == other.expiration
        &&& self.digest@ == other.digest@
        &&& self.num_txns == other.num_txns
        &&& self.num_bytes == other.num_bytes
    }

    /// Whether two infos describe the same batch in every field.
    pub fn is_same(&self, other: &BatchInfo) -> (same: bool)
        ensures
            same == self.same(*other),
    {
        bytes32_eq(&self.author, &other.author) && self.batch_id == other.batch_id && self.epoch
            == other.epoch && self.expiration == other.expiration && bytes32_eq(
            &self.digest,
            &other.digest,
        ) && self.num_txns == other.num_txns && self.num_bytes == other.num_bytes
    }
}

/// A batch info with the signature of one validator.
#[derive(Clone, Debug, PartialEq, Eq)]
pub struct SignedBatchInfo {
    pub info: BatchInfo,
    pub signer: PeerId,
    pub signature: Vec<u8>,
}

/// Why a signed batch info was refused.
#[derive(Clone, Copy, Debug, PartialEq, Eq, Structural)]
pub enum SignedBatchInfoError {
    WrongAuthor,
    WrongInfo,
    DuplicatedSignature,
    InvalidAuthor,
}

/// The validators of an epoch with their voting power, and the power that
/// makes a quorum.
#[derive(Clone, Debug, PartialEq, Eq)]
pub struct ValidatorVerifier {
    pub validators: Vec<(PeerId, u64)>,
    pub quorum_voting_power: u128,
}

/// The voting power of `peer`: that of its first entry in the list.
pub open spec fn spec_voting_power(validators: Seq<(PeerId, u64)>, peer: PeerId) -> Option<u64>
    decreases validators.len(),
{
    if validators.len() == 0 {
        None
    } else if validators[0].0@ == peer@ {
        Some(validators[0].1)
    } else {
        spec_voting_power(validators.drop_first(), peer)
    }
}

/// The sum of the voting power of `signers`, `None` where one of them is no
/// validator.
pub open spec fn spec_total_power(validators: Seq<(PeerId, u64)>, signers: Seq<PeerId>) -> Option<
    nat,
>
    decreases signers.len(),
{
    if signers.len() == 0 {
        Some(0)
    } else {
        match (
            spec_total_power(validators, signers.drop_last()),
            spec_voting_power(validators, signers.last()),
        ) {
            (Some(sum), Some(p)) => Some((sum + p) as nat),
            _ => None,
        }
    }
}

impl ValidatorVerifier {
    /// The voting power of a peer, if it is a validator.
    pub fn get_voting_power(&self, peer: &PeerId) -> (p: Option<u64>)
        ensures
            p == spec_voting_power(self.validators@, *peer),
    {
        let mut i: usize = 0;
        assert(self.validators@.subrange(0, self.validators@.len() as int) =~= self.validators@);
        while i < self.validators.len()
            invariant
                0 <= i <= self.validators.len(),
                spec_voting_power(self.validators@, *peer) == spec_voting_power(
                    self.validators@.subrange(i as int, self.validators@.len() as int),
                    *peer,
                ),
            decreases self.validators.len() - i,
        {
            let ghost rest = self.validators@.subrange(i as int, self.validators@.len() as int);
            assert(rest[0] == self.validators@[i as int]);
            assert(rest.drop_first() =~= self.validators@.subrange(
                i as int + 1,
                self.validators@.len() as int,
            ));
            if bytes32_eq(&self.validators[i].0, peer) {
                return Some(self.validators[i].1);
            }
            i += 1;
        }
        None
    }

    /// The voting power that makes a quorum.
    pub fn quorum_voting_power(&self) -> (q: u128)
        ensures
            q == self.quorum_voting_power,
    {
        self.quorum_voting_power
    }

    /// Whether `signers` are all validators and together have a quorum.
    pub fn check_voting_power(&self, signers: &Vec<PeerId>) -> (ok: bool)
        ensures
            ok == match spec_total_power(self.validators@, signers@) {
                Some(sum) => sum >= self.quorum_voting_power,
                None => false,
            },
    {
        let mut sum: u128 = 0;
        let mut i: usize = 0;
        assert(signers@.subrange(0, 0) =~= Seq::<PeerId>::empty());
        while i < signers.len()
            invariant
                0 <= i <= signers.len(),
                spec_total_power(self.validators@, signers@.subrange(0, i as int)) == Some(
                    sum as nat,
                ),
                sum <= i * 0xffff_ffff_ffff_ffff,
            decreases signers.len() - i,
        {
            proof {
                let next = signers@.subrange(0, i as int + 1);
                assert(next.drop_last() =~= signers@.subrange(0, i as int));
                assert(next.last() == signers@[i as int]);
            }
            match self.get_voting_power(&signers[i]) {
                Some(p) => {
                    sum = sum + p as u128;
                },
                None => {
                    proof {
                        lemma_total_power_fails(self.validators@, signers@, i as int + 1);
                    }
                    return false;
                },
            }
            i += 1;
        }
        assert(signers@.subrange(0, signers@.len() as int) =~= signers@);
        sum >= self.quorum_voting_power
    }
}

proof fn lemma_total_power_fails(validators: Seq<(PeerId, u64)>, signers: Seq<PeerId>, n: int)
    requires
        0 <= n <= signers.len(),
        spec_total_power(validators, signers.subrange(0, n)).is_none(),
    ensures
        spec_total_power(validators, signers).is_none(),
    decreases signers.len() - n,
{
    if n < signers.len() {
        assert(signers.subrange(0, n + 1).drop_last() =~= signers.subrange(0, n));
        lemma_total_power_fails(validators, signers, n + 1);
    } else {
        assert(signers.subrange(0, n) =~= signers);
    }
}

/// The signatures gathered for one batch.
#[derive(Clone, Debug)]
pub struct IncrementalProofState {
    info: BatchInfo,
    aggregated_signature: Vec<(PeerId, Vec<u8>)>,
    aggregated_voting_power: u128,
    completed: bool,
}

/// A proof state as a mathematical value.
pub struct ProofStateView {
    pub info: BatchInfo,
    pub signers: Seq<PeerId>,
    pub signatures: Seq<Seq<u8>>,
    pub voting_power: u128,
    pub completed: bool,
}

/// The signatures that prove that a batch is stored: the batch and, for each
/// signer, its signature. They are yet to be aggregated.
#[derive(Clone, Debug)]
pub struct ProofOfStore {
    pub info: BatchInfo,
    pub signatures: Vec<(PeerId, Vec<u8>)>,
}

/// The signers of a list of signatures.
pub open spec fn signers_of(sigs: Seq<(PeerId, Vec<u8>)>) -> Seq<PeerId> {
    Seq::new(sigs.len(), |i: int| sigs[i].0)
}

/// The signatures of a list of signatures.
pub open spec fn signatures_of(sigs: Seq<(PeerId, Vec<u8>)>) -> Seq<Seq<u8>> {
    Seq::new(sigs.len(), |i: int| sigs[i].1@)
}

/// Whether `peer` is among `signers`.
pub open spec fn has_signed(signers: Seq<PeerId>, peer: PeerId) -> bool {
    exists|i: int| 0 <= i < signers.len() && (#[trigger] signers[i])@ == peer@
}

/// What the addition of a signature does to a proof state.
pub open spec fn spec_add_signature(
    s: ProofStateView,
    signed: SignedBatchInfo,
    validators: Seq<(PeerId, u64)>,
) -> Result<ProofStateView, SignedBatchInfoError> {
    if !signed.info.same(s.info) {
        Err(SignedBatchInfoError::WrongInfo)
    } else if has_signed(s.signers, signed.signer) {
        Err(SignedBatchInfoError::DuplicatedSignature)
    } else {
        match spec_voting_power(validators, signed.signer) {
            Some(p) => Ok(
                ProofStateView {
                    signers: s.signers.push(signed.signer),
                    signatures: s.signatures.push(signed.signature@),
                    voting_power: (s.voting_power + p) as u128,
                    ..s
                },
            ),
            None => Err(SignedBatchInfoError::InvalidAuthor),
        }
    }
}

impl View for IncrementalProofState {
    type V = ProofStateView;

    closed spec fn view(&self) -> ProofStateView {
        ProofStateView {
            info: self.info,
            signers: signers_of(self.aggregated_signature@),
            signatures: signatures_of(self.aggregated_signature@),
            voting_power: self.aggregated_voting_power,
            completed: self.completed,
        }
    }
}

impl IncrementalProofState {
    /// The state's invariant: the gathered power is that of no more than one
    /// validator for each signature.
    pub closed spec fn wf(&self) -> bool {
        self.aggregated_voting_power <= self.aggregated_signature@.len() * 0xffff_ffff_ffff_ffff
    }

    /// The state of a batch without signatures.
    pub fn new(info: BatchInfo) -> (s: Self)
        ensures
            s.wf(),
            s@.info == info,
            s@.signers.len() == 0,
            s@.signatures.len() == 0,
            s@.voting_power == 0,
            !s@.completed,
    {
        IncrementalProofState {
            info,
            aggregated_signature: Vec::new(),
            aggregated_voting_power: 0,
            completed: false,
        }
    }

    fn signed_by(&self, peer: &PeerId) -> (found: bool)
        ensures
            found == has_signed(self@.signers, *peer),
    {
        let mut i: usize = 0;
        while i < self.aggregated_signature.len()
            invariant
                0 <= i <= self.aggregated_signature.len(),
                forall|j: int| 0 <= j < i ==> (#[trigger] self@.signers[j])@ != peer@,
            decreases self.aggregated_signature.len() - i,
        {
            assert(self@.signers[i as int] == self.aggregated_signature@[i as int].0);
            if bytes32_eq(&self.aggregated_signature[i].0, peer) {
                return true;
            }
            i += 1;
        }
        false
    }

    /// Adds the signature of a signed batch info. It is refused where the
    /// info is not that of this batch, where the signer has signed before, and
    /// where the signer is no validator, in this order.
    pub fn add_signature(
        &mut self,
        signed_batch_info: SignedBatchInfo,
        validator_verifier: &ValidatorVerifier,
    ) -> (r: Result<(), SignedBatchInfoError>)
        requires
            old(self).wf(),
        ensures
            final(self).wf(),
            match spec_add_signature(old(self)@, signed_batch_info, validator_verifier.validators@) {
                Ok(next) => r.is_ok() && final(self)@ == next,
                Err(e) => r == Err::<(), SignedBatchInfoError>(e) && final(self)@ == old(self)@,
            },
    {
        if !signed_batch_info.info.is_same(&self.info) {
            return Err(SignedBatchInfoError::WrongInfo);
        }
        if self.signed_by(&signed_batch_info.signer) {
            return Err(SignedBatchInfoError::DuplicatedSignature);
        }
        match validator_verifier.get_voting_power(&signed_batch_info.signer) {
            Some(voting_power) => {
                let count = self.aggregated_signature.len();
                assert(count * 0xffff_ffff_ffff_ffff <= 0xffff_ffff_ffff_ffff
                    * 0xffff_ffff_ffff_ffff) by (nonlinear_arith)
                    requires
                        count <= 0xffff_ffff_ffff_ffff,
                ;
                let SignedBatchInfo { info: _, signer, signature } = signed_batch_info;
                self.aggregated_voting_power = self.aggregated_voting_power + voting_power as u128;
                self.aggregated_signature.push((signer, signature));
                assert(self@.signers =~= old(self)@.signers.push(signer));
                assert(self@.signatures =~= old(self)@.signatures.push(signature@));
            },
            None => {
                return Err(SignedBatchInfoError::InvalidAuthor);
            },
        }
        Ok(())
    }

    /// The signers so far.
    pub fn signers(&self) -> (list: Vec<PeerId>)
        ensures
            list@ == self@.signers,
    {
        let mut list: Vec<PeerId> = Vec::new();
        let mut i: usize = 0;
        while i < self.aggregated_signature.len()
            invariant
                0 <= i <= self.aggregated_signature.len(),
                list@ == self@.signers.subrange(0, i as int),
            decreases self.aggregated_signature.len() - i,
        {
            list.push(self.aggregated_signature[i].0);
            i += 1;
            assert(list@ =~= self@.signers.subrange(0, i as int));
        }
        assert(self@.signers.subrange(0, self@.signers.len() as int) =~= self@.signers);
        list
    }

    /// Whether the signatures make a proof: the power gathered reaches the
    /// quorum, and so does the power of the signers when it is counted again.
    pub fn ready(&self, validator_verifier: &ValidatorVerifier) -> (ready: bool)
        ensures
            ready == (self@.voting_power >= validator_verifier.quorum_voting_power
                && match spec_total_power(validator_verifier.validators@, self@.signers) {
                Some(sum) => sum >= validator_verifier.quorum_voting_power,
                None => false,
            }),
    {
        if self.aggregated_voting_power >= validator_verifier.quorum_voting_power() {
            let signers = self.signers();
            validator_verifier.check_voting_power(&signers)
        } else {
            false
        }
    }

    /// Whether the proof was taken.
    pub fn is_completed(&self) -> (c: bool)
        ensures
            c == self@.completed,
    {
        self.completed
    }

    /// The number of signatures.
    pub fn signature_count(&self) -> (n: usize)
        ensures
            n == self@.signers.len(),
    {
        self.aggregated_signature.len()
    }

    /// Takes the proof. It can be taken once.
    pub fn take(&mut self) -> (proof_of_store: ProofOfStore)
        requires
            old(self).wf(),
            !old(self)@.completed,
        ensures
            final(self).wf(),
            final(self)@ == (ProofStateView { completed: true, ..old(self)@ }),
            proof_of_store.info == old(self)@.info,
            signers_of(proof_of_store.signatures@) == old(self)@.signers,
            signatures_of(proof_of_store.signatures@) == old(self)@.signatures,
    {
        self.completed = true;
        let mut signatures: Vec<(PeerId, Vec<u8>)> = Vec::new();
        let mut i: usize = 0;
        while i < self.aggregated_signature.len()
            invariant
                0 <= i <= self.aggregated_signature.len(),
                signatures@.len() == i,
                forall|j: int|
                    0 <= j < i ==> (#[trigger] signatures@[j]).0
                        == self.aggregated_signature@[j].0 && signatures@[j].1@
                        == self.aggregated_signature@[j].1@,
            decreases self.aggregated_signature.len() - i,
        {
            signatures.push(
                (self.aggregated_signature[i].0, clone_bytes(&self.aggregated_signature[i].1)),
            );
            i += 1;
        }
        assert(signers_of(signatures@) =~= old(self)@.signers);
        assert(signatures_of(signatures@) =~= old(self)@.signatures);
        ProofOfStore { info: self.info, signatures }
    }
}

/// A queue of values with the times at which they expire.
#[derive(Clone, Debug)]
pub struct Timeouts {
    timeouts: Vec<(i64, BatchInfo)>,
}

/// How many entries at the front of the queue have expired at `now`.
pub open spec fn expired_count(queue: Seq<(i64, BatchInfo)>, now: i64) -> nat
    decreases queue.len(),
{
    if queue.len() == 0 || now < queue[0].0 {
        0
    } else {
        1 + expired_count(queue.drop_first(), now)
    }
}

impl View for Timeouts {
    type V = Seq<(i64, BatchInfo)>;

    closed spec fn view(&self) -> Seq<(i64, BatchInfo)> {
        self.timeouts@
    }
}

impl Timeouts {
    pub fn new() -> (t: Self)
        ensures
            t@.len() == 0,
    {
        Timeouts { timeouts: Vec::new() }
    }

    /// Appends a value that expires `timeout` milliseconds after `now`. The
    /// expiry stops at the largest time.
    pub fn add(&mut self, value: BatchInfo, timeout: usize, now: i64)
        ensures
            final(self)@ == old(self)@.push((spec_expiry(now, timeout), value)),
    {
        let sum: i128 = now as i128 + timeout as i128;
        let expiry: i64 = if sum > i64::MAX as i128 {
            i64::MAX
        } else {
            sum as i64
        };
        self.timeouts.push((expiry, value));
    }

    /// Takes from the front of the queue every value that has expired at
    /// `now`, up to the first that has not.
    pub fn expire(&mut self, now: i64) -> (expired: Vec<BatchInfo>)
        ensures
            expired@.len() == expired_count(old(self)@, now),
            forall|i: int| 0 <= i < expired@.len() ==> expired@[i] == (#[trigger] old(self)@[i]).1,
            final(self)@ == old(self)@.subrange(
                expired_count(old(self)@, now) as int,
                old(self)@.len() as int,
            ),
            expired_count(old(self)@, now) <= old(self)@.len(),
    {
        let mut n: usize = 0;
        let ghost queue = self.timeouts@;
        assert(queue.subrange(0, queue.len() as int) =~= queue);
        while n < self.timeouts.len() && now >= self.timeouts[n].0
            invariant
                0 <= n <= self.timeouts.len(),
                queue == self.timeouts@,
                self.timeouts@ == old(self).timeouts@,
                expired_count(queue, now) == n + expired_count(
                    queue.subrange(n as int, queue.len() as int),
                    now,
                ),
            decreases self.timeouts.len() - n,
        {
            let ghost rest = queue.subrange(n as int, queue.len() as int);
            assert(rest[0] == queue[n as int]);
            assert(rest.drop_first() =~= queue.subrange(n as int + 1, queue.len() as int));
            n += 1;
        }
        proof {
            let rest = queue.subrange(n as int, queue.len() as int);
            if n < queue.len() {
                assert(rest[0] == queue[n as int]);
            }
            assert(expired_count(rest, now) == 0);
        }
        let mut expired: Vec<BatchInfo> = Vec::new();
        let mut i: usize = 0;
        while i < n
            invariant
                0 <= i <= n <= self.timeouts.len(),
                queue == self.timeouts@,
                expired@.len() == i,
                forall|j: int| 0 <= j < i ==> expired@[j] == (#[trigger] queue[j]).1,
            decreases n - i,
        {
            expired.push(self.timeouts[i].1);
            i += 1;
        }
        let rest = self.timeouts.split_off(n);
        self.timeouts = rest;
        expired
    }
}

/// The time at which a value added at `now` with `timeout` expires.
pub open spec fn spec_expiry(now: i64, timeout: usize) -> i64 {
    if now + timeout > i64::MAX {
        i64::MAX
    } else {
        (now + timeout) as i64
    }
}

/// A proof that has just been completed, with the time at which its batch
/// was first seen, if that was recorded.
#[derive(Debug)]
pub struct CompletedProof {
    pub proof: ProofOfStore,
    pub created_at_micros: Option<u64>,
}

/// The proof coordinator: it gathers the signatures that validators send for
/// the batches of this node, and makes a proof of each batch that reaches a
/// quorum before its timeout.
#[derive(Debug)]
pub struct ProofCoordinator {
    peer_id: PeerId,
    proof_timeout_ms: usize,
    digest_to_proof: Vec<(Digest, IncrementalProofState)>,
    digest_to_time: Vec<(Digest, u64)>,
    timeouts: Timeouts,
}

/// The coordinator as a mathematical value.
pub struct CoordinatorView {
    pub peer_id: PeerId,
    pub proof_timeout_ms: usize,
    pub proofs: Seq<(Digest, ProofStateView)>,
    pub times: Seq<(Digest, u64)>,
    pub timeouts: Seq<(i64, BatchInfo)>,
}

/// The position of the first entry for `digest`.
pub open spec fn position<T>(entries: Seq<(Digest, T)>, digest: Digest) -> Option<int>
    decreases entries.len(),
{
    if entries.len() == 0 {
        None
    } else if entries[0].0@ == digest@ {
        Some(0)
    } else {
        match position(entries.drop_first(), digest) {
            Some(i) => Some(i + 1),
            None => None,
        }
    }
}

/// What `position` returns is an entry for `digest`.
pub proof fn lemma_position<T>(entries: Seq<(Digest, T)>, digest: Digest)
    ensures
        match position(entries, digest) {
            Some(i) => 0 <= i < entries.len() && entries[i].0@ == digest@,
            None => forall|j: int| 0 <= j < entries.len() ==> (#[trigger] entries[j]).0@ != digest@,
        },
    decreases entries.len(),
{
    if entries.len() > 0 && entries[0].0@ != digest@ {
        lemma_position(entries.drop_first(), digest);
        let rest = entries.drop_first();
        if position(rest, digest).is_none() {
            assert forall|j: int| 0 <= j < entries.len() implies (#[trigger] entries[j]).0@
                != digest@ by {
                if j > 0 {
                    assert(rest[j - 1] == entries[j]);
                }
            }
        }
    }
}

/// The entries with the value for `digest` replaced, or appended where there
/// was none.
pub open spec fn put<T>(entries: Seq<(Digest, T)>, digest: Digest, value: T) -> Seq<(Digest, T)> {
    match position(entries, digest) {
        Some(i) => entries.update(i, (digest, value)),
        None => entries.push((digest, value)),
    }
}

/// The entries without the first entry for `digest`.
pub open spec fn without<T>(entries: Seq<(Digest, T)>, digest: Digest) -> Seq<(Digest, T)> {
    match position(entries, digest) {
        Some(i) => entries.remove(i),
        None => entries,
    }
}

/// The views of a list of proof states.
pub open spec fn proofs_view(entries: Seq<(Digest, IncrementalProofState)>) -> Seq<
    (Digest, ProofStateView),
> {
    Seq::new(entries.len(), |i: int| (entries[i].0, entries[i].1@))
}

/// A proof state without signatures.
pub open spec fn fresh_state(info: BatchInfo) -> ProofStateView {
    ProofStateView {
        info,
        signers: Seq::empty(),
        signatures: Seq::empty(),
        voting_power: 0,
        completed: false,
    }
}

/// Whether the first signature for a batch may start a proof: the batch has
/// to be one of this node, by its info and by the batch store.
pub open spec fn may_init(c: CoordinatorView, signed: SignedBatchInfo, stored_author: Option<PeerId>) -> bool {
    signed.info.author@ == c.peer_id@ && stored_author.is_some() && stored_author.unwrap()@
        == signed.info.author@
}

/// The coordinator after a proof was started for the batch of `signed`.
pub open spec fn spec_init_proof(
    c: CoordinatorView,
    signed: SignedBatchInfo,
    now_micros: u64,
    now_millis: i64,
) -> CoordinatorView {
    CoordinatorView {
        timeouts: c.timeouts.push((spec_expiry(now_millis, c.proof_timeout_ms), signed.info)),
        proofs: put(c.proofs, signed.info.digest, fresh_state(signed.info)),
        times: if position(c.times, signed.info.digest).is_some() {
            c.times
        } else {
            c.times.push((signed.info.digest, now_micros))
        },
        ..c
    }
}

fn find_digest<T>(entries: &Vec<(Digest, T)>, digest: &Digest) -> (r: Option<usize>)
    ensures
        match r {
            Some(i) => position(entries@, *digest) == Some(i as int) && i < entries@.len(),
            None => position(entries@, *digest).is_none(),
        },
{
    let mut i: usize = 0;
    assert(entries@.subrange(0, entries@.len() as int) =~= entries@);
    while i < entries.len()
        invariant
            0 <= i <= entries.len(),
            position(entries@, *digest) == match position(
                entries@.subrange(i as int, entries@.len() as int),
                *digest,
            ) {
                Some(k) => Some(k + i),
                None => None,
            },
        decreases entries.len() - i,
    {
        let ghost rest = entries@.subrange(i as int, entries@.len() as int);
        assert(rest[0] == entries@[i as int]);
        assert(rest.drop_first() =~= entries@.subrange(i as int + 1, entries@.len() as int));
        if bytes32_eq(&entries[i].0, digest) {
            return Some(i);
        }
        i += 1;
    }
    None
}

impl View for ProofCoordinator {
    type V = CoordinatorView;

    closed spec fn view(&self) -> CoordinatorView {
        CoordinatorView {
            peer_id: self.peer_id,
            proof_timeout_ms: self.proof_timeout_ms,
            proofs: proofs_view(self.digest_to_proof@),
            times: self.digest_to_time@,
            timeouts: self.timeouts@,
        }
    }
}

proof fn lemma_position_view(entries: Seq<(Digest, IncrementalProofState)>, digest: Digest)
    ensures
        position(proofs_view(entries), digest) == position(entries, digest),
    decreases entries.len(),
{
    if entries.len() > 0 {
        assert(proofs_view(entries).drop_first() =~= proofs_view(entries.drop_first()));
        lemma_position_view(entries.drop_first(), digest);
    }
}

impl ProofCoordinator {
    /// The coordinator's invariant: every proof state is valid.
    pub closed spec fn wf(&self) -> bool {
        forall|i: int|
            0 <= i < self.digest_to_proof@.len() ==> (#[trigger] self.digest_to_proof@[i]).1.wf()
    }

    /// A coordinator without batches.
    pub fn new(proof_timeout_ms: usize, peer_id: PeerId) -> (c: Self)
        ensures
            c.wf(),
            c@.peer_id == peer_id,
            c@.proof_timeout_ms == proof_timeout_ms,
            c@.proofs.len() == 0,
            c@.times.len() == 0,
            c@.timeouts.len() == 0,
    {
        ProofCoordinator {
            peer_id,
            proof_timeout_ms,
            digest_to_proof: Vec::new(),
            digest_to_time: Vec::new(),
            timeouts: Timeouts::new(),
        }
    }

    /// Starts a proof for the batch of a signed batch info. The batch has to
    /// be one of this node: its author is this node, and `stored_author`, the
    /// author under which the batch store holds its digest, is the same. The
    /// batch gets its timeout, a proof state without signatures, and, unless
    /// it has one, the time at which it was first seen.
    pub fn init_proof(
        &mut self,
        signed_batch_info: &SignedBatchInfo,
        stored_author: Option<PeerId>,
        now_micros: u64,
        now_millis: i64,
    ) -> (r: Result<(), SignedBatchInfoError>)
        requires
            old(self).wf(),
        ensures
            final(self).wf(),
            may_init(old(self)@, *signed_batch_info, stored_author) ==> r.is_ok() && final(self)@
                == spec_init_proof(old(self)@, *signed_batch_info, now_micros, now_millis),
            !may_init(old(self)@, *signed_batch_info, stored_author) ==> r == Err::<
                (),
                SignedBatchInfoError,
            >(SignedBatchInfoError::WrongAuthor) && final(self)@ == old(self)@,
    {
        if !bytes32_eq(&signed_batch_info.info.author, &self.peer_id) {
            return Err(SignedBatchInfoError::WrongAuthor);
        }
        let batch_author = match stored_author {
            Some(a) => a,
            None => {
                return Err(SignedBatchInfoError::WrongAuthor);
            },
        };
        if !bytes32_eq(&batch_author, &signed_batch_info.info.author) {
            return Err(SignedBatchInfoError::WrongAuthor);
        }
        let digest = signed_batch_info.info.digest;
        proof {
            lemma_position_view(self.digest_to_proof@, digest);
        }
        self.timeouts.add(signed_batch_info.info, self.proof_timeout_ms, now_millis);
        let state = IncrementalProofState::new(signed_batch_info.info);
        assert(state@ == fresh_state(signed_batch_info.info)) by {
            assert(state@.signers =~= Seq::<PeerId>::empty());
            assert(state@.signatures =~= Seq::<Seq<u8>>::empty());
        }
        match find_digest(&self.digest_to_proof, &digest) {
            Some(i) => {
                self.digest_to_proof[i] = (digest, state);
            },
            None => {
                self.digest_to_proof.push((digest, state));
            },
        }
        assert(self@.proofs =~= put(old(self)@.proofs, digest, fresh_state(signed_batch_info.info)));
        if find_digest(&self.digest_to_time, &digest).is_none() {
            self.digest_to_time.push((digest, now_micros));
        }
        Ok(())
    }

    /// Whether a proof state is kept for `digest`.
    pub fn has_proof(&self, digest: &Digest) -> (found: bool)
        ensures
            found == position(self@.proofs, *digest).is_some(),
    {
        proof {
            lemma_position_view(self.digest_to_proof@, *digest);
        }
        find_digest(&self.digest_to_proof, digest).is_some()
    }

    /// Takes in the signature of a signed batch info. The first signature for
    /// a batch starts its proof. The signature is added to the proof state of
    /// the batch; once the state is ready and was not taken before, the proof
    /// is taken and returned, and the time at which the batch was first seen
    /// is taken out of the records.
    pub fn add_signature(
        &mut self,
        signed_batch_info: SignedBatchInfo,
        validator_verifier: &ValidatorVerifier,
        stored_author: Option<PeerId>,
        now_micros: u64,
        now_millis: i64,
    ) -> (r: Result<Option<CompletedProof>, SignedBatchInfoError>)
        requires
            old(self).wf(),
        ensures
            final(self).wf(),
            ({
                let digest = signed_batch_info.info.digest;
                let known = position(old(self)@.proofs, digest).is_some();
                if !known && !may_init(old(self)@, signed_batch_info, stored_author) {
                    r == Err::<Option<CompletedProof>, SignedBatchInfoError>(
                        SignedBatchInfoError::WrongAuthor,
                    ) && final(self)@ == old(self)@
                } else {
                    let started = if known {
                        old(self)@
                    } else {
                        spec_init_proof(old(self)@, signed_batch_info, now_micros, now_millis)
                    };
                    let i = position(started.proofs, digest).unwrap();
                    match spec_add_signature(
                        started.proofs[i].1,
                        signed_batch_info,
                        validator_verifier.validators@,
                    ) {
                        Err(e) => r == Err::<Option<CompletedProof>, SignedBatchInfoError>(e)
                            && final(self)@ == started,
                        Ok(added) => {
                            let ready = !added.completed && added.voting_power
                                >= validator_verifier.quorum_voting_power
                                && match spec_total_power(
                                validator_verifier.validators@,
                                added.signers,
                            ) {
                                Some(sum) => sum >= validator_verifier.quorum_voting_power,
                                None => false,
                            };
                            if ready {
                                &&& r.is_ok() && r.unwrap().is_some()
                                &&& r.unwrap().unwrap().proof.info == added.info
                                &&& signers_of(r.unwrap().unwrap().proof.signatures@)
                                    == added.signers
                                &&& signatures_of(r.unwrap().unwrap().proof.signatures@)
                                    == added.signatures
                                &&& r.unwrap().unwrap().created_at_micros == match position(
                                    started.times,
                                    digest,
                                ) {
                                    Some(t) => Some(started.times[t].1),
                                    None => None,
                                }
                                &&& final(self)@ == (CoordinatorView {
                                    proofs: started.proofs.update(
                                        i,
                                        (
                                            started.proofs[i].0,
                                            ProofStateView { completed: true, ..added },
                                        ),
                                    ),
                                    times: without(started.times, digest),
                                    ..started
                                })
                            } else {
                                &&& r.is_ok() && r.unwrap().is_none()
                                &&& final(self)@ == (CoordinatorView {
                                    proofs: started.proofs.update(i, (started.proofs[i].0, added)),
                                    ..started
                                })
                            }
                        },
                    }
                }
            }),
    {
        let digest = signed_batch_info.info.digest;
        if !self.has_proof(&digest) {
            match self.init_proof(&signed_batch_info, stored_author, now_micros, now_millis) {
                Ok(()) => {},
                Err(e) => {
                    return Err(e);
                },
            }
        }
        let ghost started = self@;
        proof {
            lemma_position_view(self.digest_to_proof@, digest);
            lemma_position(old(self)@.proofs, digest);
            lemma_position(started.proofs, digest);
            if position(old(self)@.proofs, digest).is_none() {
                let put_at = put(old(self)@.proofs, digest, fresh_state(signed_batch_info.info));
                assert(put_at[old(self)@.proofs.len() as int].0@ == digest@);
            }
        }
        let i = match find_digest(&self.digest_to_proof, &digest) {
            Some(i) => i,
            None => {
                proof {
                    assert(false);
                }
                return Ok(None);
            },
        };
        let ghost before = self.digest_to_proof@;
        assert(before[i as int].1.wf());
        match self.digest_to_proof[i].1.add_signature(signed_batch_info, validator_verifier) {
            Ok(()) => {},
            Err(e) => {
                assert(self@.proofs =~= started.proofs) by {
                    assert forall|j: int| 0 <= j < self@.proofs.len() implies self@.proofs[j]
                        == started.proofs[j] by {
                        if j != i {
                            assert(self.digest_to_proof@[j] == before[j]);
                        }
                    }
                }
                assert(self.wf()) by {
                    assert forall|j: int| 0 <= j < self.digest_to_proof@.len() implies (
                    #[trigger] self.digest_to_proof@[j]).1.wf() by {
                        if j != i {
                            assert(self.digest_to_proof@[j] == before[j]);
                        }
                    }
                }
                return Err(e);
            },
        }
        let completed = self.digest_to_proof[i].1.is_completed();
        if !completed && self.digest_to_proof[i].1.ready(validator_verifier) {
            let proof_of_store = self.digest_to_proof[i].1.take();
            let created_at_micros = match find_digest(&self.digest_to_time, &digest) {
                Some(t) => {
                    let (_, time) = self.digest_to_time.remove(t);
                    Some(time)
                },
                None => None,
            };
            proof {
                assert forall|j: int| 0 <= j < self.digest_to_proof@.len() implies (
                #[trigger] self.digest_to_proof@[j]).1.wf() by {
                    if j != i {
                        assert(self.digest_to_proof@[j] == before[j]);
                    }
                }
                assert(self@.proofs =~= started.proofs.update(
                    i as int,
                    (
                        started.proofs[i as int].0,
                        ProofStateView { completed: true, ..self.digest_to_proof@[i as int].1@ },
                    ),
                ));
            }
            return Ok(Some(CompletedProof { proof: proof_of_store, created_at_micros }));
        }
        proof {
            assert forall|j: int| 0 <= j < self.digest_to_proof@.len() implies (
            #[trigger] self.digest_to_proof@[j]).1.wf() by {
                if j != i {
                    assert(self.digest_to_proof@[j] == before[j]);
                }
            }
            assert(self@.proofs =~= started.proofs.update(
                i as int,
                (started.proofs[i as int].0, self.digest_to_proof@[i as int].1@),
            ));
        }
        Ok(None)
    }
}

/// The proof states and the batch ids after the states of the batches of
/// `expired` are dropped, one batch after the other: a batch whose proof was
/// not completed adds its id.
pub open spec fn drop_expired(proofs: Seq<(Digest, ProofStateView)>, expired: Seq<BatchInfo>) -> (
    Seq<(Digest, ProofStateView)>,
    Seq<BatchId>,
)
    decreases expired.len(),
{
    if expired.len() == 0 {
        (proofs, Seq::empty())
    } else {
        let (rest, ids) = drop_expired(proofs, expired.drop_last());
        let info = expired.last();
        match position(rest, info.digest) {
            Some(i) => (
                rest.remove(i),
                if rest[i].1.completed {
                    ids
                } else {
                    ids.push(info.batch_id)
                },
            ),
            None => (rest, ids),
        }
    }
}

/// The batches of the first `n` entries of a queue.
pub open spec fn front_infos(queue: Seq<(i64, BatchInfo)>, n: nat) -> Seq<BatchInfo> {
    Seq::new(n, |i: int| queue[i].1)
}

impl ProofCoordinator {
    /// Drops the proof states of the batches whose timeout has passed at
    /// `now_millis`, and returns the ids of those among them whose proof was
    /// not completed, so that their transactions can be pulled again.
    pub fn expire(&mut self, now_millis: i64) -> (batch_ids: Vec<BatchId>)
        requires
            old(self).wf(),
        ensures
            final(self).wf(),
            ({
                let n = expired_count(old(self)@.timeouts, now_millis);
                let (proofs, ids) = drop_expired(
                    old(self)@.proofs,
                    front_infos(old(self)@.timeouts, n),
                );
                &&& n <= old(self)@.timeouts.len()
                &&& batch_ids@ == ids
                &&& final(self)@ == (CoordinatorView {
                    proofs,
                    timeouts: old(self)@.timeouts.subrange(
                        n as int,
                        old(self)@.timeouts.len() as int,
                    ),
                    ..old(self)@
                })
            }),
    {
        let expired = self.timeouts.expire(now_millis);
        let ghost infos = front_infos(old(self)@.timeouts, expired_count(old(self)@.timeouts, now_millis));
        assert(expired@ =~= infos);
        let mut batch_ids: Vec<BatchId> = Vec::new();
        let mut k: usize = 0;
        assert(infos.subrange(0, 0) =~= Seq::<BatchInfo>::empty());
        while k < expired.len()
            invariant
                0 <= k <= expired.len(),
                expired@ == infos,
                self.wf(),
                self.peer_id == old(self).peer_id,
                self.proof_timeout_ms == old(self).proof_timeout_ms,
                self.digest_to_time == old(self).digest_to_time,
                self.timeouts@ == old(self)@.timeouts.subrange(
                    expired_count(old(self)@.timeouts, now_millis) as int,
                    old(self)@.timeouts.len() as int,
                ),
                (proofs_view(self.digest_to_proof@), batch_ids@) == drop_expired(
                    old(self)@.proofs,
                    infos.subrange(0, k as int),
                ),
            decreases expired.len() - k,
        {
            let info = expired[k];
            proof {
                let next = infos.subrange(0, k as int + 1);
                assert(next.drop_last() =~= infos.subrange(0, k as int));
                assert(next.last() == info);
                lemma_position_view(self.digest_to_proof@, info.digest);
            }
            let ghost before = self.digest_to_proof@;
            match find_digest(&self.digest_to_proof, &info.digest) {
                Some(i) => {
                    let (_, state) = self.digest_to_proof.remove(i);
                    if !state.is_completed() {
                        batch_ids.push(info.batch_id);
                    }
                    assert(proofs_view(self.digest_to_proof@) =~= proofs_view(before).remove(
                        i as int,
                    ));
                    assert forall|j: int| 0 <= j < self.digest_to_proof@.len() implies (
                    #[trigger] self.digest_to_proof@[j]).1.wf() by {
                        if j < i {
                            assert(self.digest_to_proof@[j] == before[j]);
                        } else {
                            assert(self.digest_to_proof@[j] == before[j + 1]);
                        }
                    }
                },
                None => {},
            }
            k += 1;
        }
        assert(infos.subrange(0, infos.len() as int) =~= infos);
        batch_ids
    }
}

} // verus!
