use vstd::prelude::*;

verus! {

/// The identity of a peer: an account address.
pub type PeerId = [u8; 32];

/// A load test that adds public fullnodes to a swarm and submits transactions
/// through them, with optional CPU stress and network emulation on all nodes.
#[derive(Clone, Copy, Debug)]
pub struct PFNPerformance {
    add_cpu_chaos: bool,
    add_network_emulation: bool,
    shuffle_rng_seed: [u8; 32],
}

/// The number of public fullnodes that the test adds to the swarm.
pub const NUM_PFNS: u64 = 7;

/// What the test injects into the swarm, or removes from it.
#[derive(Debug)]
pub struct ChaosPlan {
    /// The peers to stress, if the test adds CPU chaos.
    pub cpu_stress: Option<Vec<PeerId>>,
    /// The groups of peers to emulate a network between, if the test adds
    /// network emulation.
    pub network_emulation: Option<Vec<Vec<PeerId>>>,
}

/// Calls `rand`'s `OsRng::try_fill_bytes` on a buffer of 32 bytes. The bytes
/// come from the operating system: the contract says nothing of them, and
/// `None` stands for a system that gave none.
#[verifier::external_body]
fn os_random_seed() -> (seed: Option<[u8; 32]>) {
    let mut seed = [0u8; 32];
    match rand::RngCore::try_fill_bytes(&mut rand::rngs::OsRng, &mut seed) {
        Ok(()) => Some(seed),
        Err(_) => None,
    }
}

/// Calls `rand`'s `SliceRandom::shuffle` with a `StdRng` made from `seed` by
/// `SeedableRng::from_seed`. The shuffle only swaps elements, so the list holds
/// the same peers afterwards; the contract says nothing of their order.
#[verifier::external_body]
fn shuffle_with_seed(ids: &mut Vec<PeerId>, seed: [u8; 32])
    ensures
        final(ids)@.to_multiset() == old(ids)@.to_multiset(),
{
    let mut rng: rand::rngs::StdRng = rand::SeedableRng::from_seed(seed);
    rand::seq::SliceRandom::shuffle(ids.as_mut_slice(), &mut rng);
}

impl PFNPerformance {
    /// A test with a seed for its shuffles drawn from the operating system.
    /// `None` where the system gives no randomness.
    pub fn new(add_cpu_chaos: bool, add_network_emulation: bool) -> (t: Option<Self>)
        ensures
            match t {
                Some(test) => test.adds_cpu_chaos() == add_cpu_chaos
                    && test.adds_network_emulation() == add_network_emulation,
                None => true,
            },
    {
        match os_random_seed() {
            Some(seed) => Some(Self::with_seed(add_cpu_chaos, add_network_emulation, seed)),
            None => None,
        }
    }

    /// A test with the given seed for its shuffles.
    pub fn with_seed(add_cpu_chaos: bool, add_network_emulation: bool, seed: [u8; 32]) -> (t: Self)
        ensures
            t.adds_cpu_chaos() == add_cpu_chaos,
            t.adds_network_emulation() == add_network_emulation,
            t.seed() == seed,
    {
        PFNPerformance { add_cpu_chaos, add_network_emulation, shuffle_rng_seed: seed }
    }

    /// Whether the test adds CPU chaos.
    pub closed spec fn adds_cpu_chaos(&self) -> bool {
        self.add_cpu_chaos
    }

    /// Whether the test adds network emulation.
    pub closed spec fn adds_network_emulation(&self) -> bool {
        self.add_network_emulation
    }

    /// The seed of the shuffles.
    pub closed spec fn seed(&self) -> [u8; 32] {
        self.shuffle_rng_seed
    }

    /// The name of the test.
    pub fn name(&self) -> (n: &'static str)
        ensures
            n@ == "PFNPerformance"@,
    {
        "PFNPerformance"
    }

    /// Gathers the peers of the swarm, validators first, and shuffles them.
    /// The result holds every validator and every fullnode as often as the
    /// swarm does.
    pub fn gather_and_shuffle_peer_ids(
        &self,
        validators: &Vec<PeerId>,
        fullnodes: &Vec<PeerId>,
    ) -> (all: Vec<PeerId>)
        ensures
            all@.to_multiset() == (validators@ + fullnodes@).to_multiset(),
    {
        let mut all: Vec<PeerId> = Vec::new();
        let mut i: usize = 0;
        while i < validators.len()
            invariant
                0 <= i <= validators.len(),
                all@ == validators@.subrange(0, i as int),
            decreases validators.len() - i,
        {
            all.push(validators[i]);
            i += 1;
            assert(all@ =~= validators@.subrange(0, i as int));
        }
        assert(validators@.subrange(0, validators@.len() as int) =~= validators@);
        let mut j: usize = 0;
        while j < fullnodes.len()
            invariant
                0 <= j <= fullnodes.len(),
                all@ == validators@ + fullnodes@.subrange(0, j as int),
            decreases fullnodes.len() - j,
        {
            all.push(fullnodes[j]);
            j += 1;
            assert(all@ =~= validators@ + fullnodes@.subrange(0, j as int));
        }
        assert(fullnodes@.subrange(0, fullnodes@.len() as int) =~= fullnodes@);
        shuffle_with_seed(&mut all, self.shuffle_rng_seed);
        all
    }

    /// What the test injects after it has added its fullnodes, and removes
    /// again at its end: CPU stress on all peers in a shuffled order if it adds
    /// CPU chaos, and network emulation between all peers, each a group of its
    /// own, in a shuffled order if it adds network emulation.
    pub fn chaos_plan(&self, validators: &Vec<PeerId>, fullnodes: &Vec<PeerId>) -> (plan: ChaosPlan)
        ensures
            plan.cpu_stress.is_some() == self.adds_cpu_chaos(),
            plan.network_emulation.is_some() == self.adds_network_emulation(),
            match plan.cpu_stress {
                Some(peers) => peers@.to_multiset() == (validators@ + fullnodes@).to_multiset(),
                None => true,
            },
            match plan.network_emulation {
                Some(groups) => flatten_singletons(groups@).is_some() && flatten_singletons(
                    groups@,
                ).unwrap().to_multiset() == (validators@ + fullnodes@).to_multiset(),
                None => true,
            },
    {
        let cpu_stress = if self.add_cpu_chaos {
            Some(self.gather_and_shuffle_peer_ids(validators, fullnodes))
        } else {
            None
        };
        let network_emulation = if self.add_network_emulation {
            let peers = self.gather_and_shuffle_peer_ids(validators, fullnodes);
            Some(singleton_groups(&peers))
        } else {
            None
        };
        ChaosPlan { cpu_stress, network_emulation }
    }
}

/// The peers of a list of groups of one peer each, in the order of the
/// groups; `None` where a group does not hold exactly one peer.
pub open spec fn flatten_singletons(groups: Seq<Vec<PeerId>>) -> Option<Seq<PeerId>> {
    if forall|i: int| 0 <= i < groups.len() ==> (#[trigger] groups[i])@.len() == 1 {
        Some(Seq::new(groups.len(), |i: int| groups[i]@[0]))
    } else {
        None
    }
}

/// Puts every peer into a group of its own.
pub fn singleton_groups(peers: &Vec<PeerId>) -> (groups: Vec<Vec<PeerId>>)
    ensures
        flatten_singletons(groups@) == Some(peers@),
{
    let mut groups: Vec<Vec<PeerId>> = Vec::new();
    let mut i: usize = 0;
    while i < peers.len()
        invariant
            0 <= i <= peers.len(),
            groups@.len() == i,
            forall|k: int| 0 <= k < i ==> (#[trigger] groups@[k])@ == seq![peers@[k]],
        decreases peers.len() - i,
    {
        let mut group: Vec<PeerId> = Vec::new();
        group.push(peers[i]);
        assert(group@ =~= seq![peers@[i as int]]);
        groups.push(group);
        i += 1;
    }
    assert(forall|k: int| 0 <= k < groups@.len() ==> (#[trigger] groups@[k])@.len() == 1);
    assert(flatten_singletons(groups@).unwrap() =~= peers@);
    groups
}

} // verus!
