use vstd::prelude::*;

verus! {

/// The largest application message that the network carries, in bytes.
pub const MAX_APPLICATION_MESSAGE_SIZE: usize = 64880640;

/// The kind of node that a configuration is for.
#[derive(Clone, Copy, Debug, PartialEq, Eq, Structural)]
pub enum NodeType {
    Validator,
    ValidatorFullnode,
    PublicFullnode,
}

impl NodeType {
    pub fn is_validator(self) -> (b: bool)
        ensures
            b == (self == NodeType::Validator),
    {
        match self {
            NodeType::Validator => true,
            _ => false,
        }
    }

    pub fn is_validator_fullnode(self) -> (b: bool)
        ensures
            b == (self == NodeType::ValidatorFullnode),
    {
        match self {
            NodeType::ValidatorFullnode => true,
            _ => false,
        }
    }
}

/// The number of a chain.
#[derive(Clone, Copy, Debug, PartialEq, Eq, Structural)]
pub struct ChainId {
    pub id: u8,
}

impl ChainId {
    pub fn new(id: u8) -> (c: Self)
        ensures
            c.id == id,
    {
        ChainId { id }
    }

    /// The main network: chain 1.
    pub fn mainnet() -> (c: Self)
        ensures
            c.id == 1,
    {
        ChainId { id: 1 }
    }

    /// The test network: chain 2.
    pub fn testnet() -> (c: Self)
        ensures
            c.id == 2,
    {
        ChainId { id: 2 }
    }

    pub fn id(&self) -> (id: u8)
        ensures
            id == self.id,
    {
        self.id
    }

    pub fn is_mainnet(&self) -> (b: bool)
        ensures
            b == (self.id == 1),
    {
        self.id == 1
    }

    pub fn is_testnet(&self) -> (b: bool)
        ensures
            b == (self.id == 2),
    {
        self.id == 2
    }
}

/// Why a configuration was refused.
#[derive(Clone, Debug, PartialEq, Eq)]
pub enum ConfigError {
    /// A sanitizer found the configuration inconsistent: its name and what
    /// it found.
    ConfigSanitizerFailed(String, String),
}

/// The settings of the mempool.
#[derive(Clone, Debug, PartialEq, Eq)]
pub struct MempoolConfig {
    /// Maximum number of transactions allowed in the mempool.
    pub capacity: usize,
    /// Maximum number of bytes allowed in the mempool.
    pub capacity_bytes: usize,
    /// Maximum number of transactions allowed in the mempool per user.
    pub capacity_per_user: usize,
    /// Number of failover peers to broadcast to when the primary network is
    /// alive.
    pub default_failovers: usize,
    /// The maximum number of broadcasts sent to a single peer that are pending
    /// a response at any point.
    pub max_broadcasts_per_peer: usize,
    /// Maximum number of inbound network messages to the mempool.
    pub max_network_channel_size: usize,
    /// The interval to take a snapshot of the mempool to logs.
    pub mempool_snapshot_interval_secs: u64,
    /// The maximum amount of time to wait for the acknowledgement of a
    /// submission to an upstream node.
    pub shared_mempool_ack_timeout_ms: u64,
    /// The amount of time to back off between retries of a submission to an
    /// upstream node.
    pub shared_mempool_backoff_interval_ms: u64,
    /// Maximum number of transactions to batch for a submission to an
    /// upstream node.
    pub shared_mempool_batch_size: usize,
    /// Maximum number of bytes to batch for a submission to an upstream node.
    pub shared_mempool_max_batch_bytes: u64,
    /// Maximum number of inbound message workers.
    pub shared_mempool_max_concurrent_inbound_syncs: usize,
    /// Interval to broadcast to upstream nodes.
    pub shared_mempool_tick_interval_ms: u64,
    pub shared_mempool_peer_update_interval_ms: u64,
    /// Number of seconds until a transaction is removed from the mempool
    /// whether or not it has expired.
    pub system_transaction_timeout_secs: u64,
    /// Interval to collect the transactions that have expired.
    pub system_transaction_gc_interval_ms: u64,
    /// Gas unit price buckets for broadcasting to upstream nodes.
    pub broadcast_buckets: Vec<u64>,
    pub eager_expire_threshold_ms: Option<u64>,
    pub eager_expire_time_ms: u64,
}

/// The gas unit price buckets of a default configuration.
pub open spec fn default_buckets() -> Seq<u64> {
    seq![0u64, 150u64, 300u64, 500u64, 1000u64, 3000u64, 5000u64, 10000u64, 100000u64, 1000000u64]
}

impl MempoolConfig {
    /// Whether every setting but the gas price buckets has its default.
    pub open spec fn has_default_scalars(self) -> bool {
        &&& self.shared_mempool_tick_interval_ms == 50
        &&& self.shared_mempool_backoff_interval_ms == 30_000
        &&& self.shared_mempool_batch_size == 200
        &&& self.shared_mempool_max_batch_bytes == MAX_APPLICATION_MESSAGE_SIZE as u64
        &&& self.shared_mempool_ack_timeout_ms == 2_000
        &&& self.shared_mempool_max_concurrent_inbound_syncs == 4
        &&& self.max_broadcasts_per_peer == 2
        &&& self.max_network_channel_size == 1024
        &&& self.mempool_snapshot_interval_secs == 180
        &&& self.capacity == 2_000_000
        &&& self.capacity_bytes == 2147483648
        &&& self.capacity_per_user == 100
        &&& self.default_failovers == 1
        &&& self.shared_mempool_peer_update_interval_ms == 1_000
        &&& self.system_transaction_timeout_secs == 600
        &&& self.system_transaction_gc_interval_ms == 60_000
        &&& self.eager_expire_threshold_ms == Some(10_000u64)
        &&& self.eager_expire_time_ms == 3_000
    }
}

impl Default for MempoolConfig {
    fn default() -> (c: MempoolConfig)
        ensures
            c.has_default_scalars(),
            c.broadcast_buckets@ == default_buckets(),
    {
        let mut buckets: Vec<u64> = Vec::new();
        buckets.push(0);
        buckets.push(150);
        buckets.push(300);
        buckets.push(500);
        buckets.push(1000);
        buckets.push(3000);
        buckets.push(5000);
        buckets.push(10000);
        buckets.push(100000);
        buckets.push(1000000);
        assert(buckets@ =~= default_buckets());
        MempoolConfig {
            shared_mempool_tick_interval_ms: 50,
            shared_mempool_backoff_interval_ms: 30_000,
            shared_mempool_batch_size: 200,
            shared_mempool_max_batch_bytes: MAX_APPLICATION_MESSAGE_SIZE as u64,
            shared_mempool_ack_timeout_ms: 2_000,
            shared_mempool_max_concurrent_inbound_syncs: 4,
            max_broadcasts_per_peer: 2,
            max_network_channel_size: 1024,
            mempool_snapshot_interval_secs: 180,
            capacity: 2_000_000,
            capacity_bytes: 2147483648,
            capacity_per_user: 100,
            default_failovers: 1,
            shared_mempool_peer_update_interval_ms: 1_000,
            system_transaction_timeout_secs: 600,
            system_transaction_gc_interval_ms: 60_000,
            broadcast_buckets: buckets,
            eager_expire_threshold_ms: Some(10_000),
            eager_expire_time_ms: 3_000,
        }
    }
}

/// The configuration of a node, as far as the mempool reads it.
#[derive(Clone, Debug, PartialEq, Eq)]
pub struct NodeConfig {
    pub mempool: MempoolConfig,
}

impl NodeConfig {
    /// The default configuration of a validator.
    pub fn get_default_validator_config() -> (c: Self)
        ensures
            c.mempool.has_default_scalars(),
            c.mempool.broadcast_buckets@ == default_buckets(),
    {
        NodeConfig { mempool: MempoolConfig::default() }
    }

    /// The default configuration of a validator fullnode.
    pub fn get_default_vfn_config() -> (c: Self)
        ensures
            c.mempool.has_default_scalars(),
            c.mempool.broadcast_buckets@ == default_buckets(),
    {
        NodeConfig { mempool: MempoolConfig::default() }
    }
}

/// Declares `serde_yaml::Value`, a YAML document, as a type whose inside the
/// library does not look at.
#[verifier::external_type_specification]
#[verifier::external_body]
pub struct ExYamlValue(serde_yaml::Value);

/// The entries that a YAML document lacks: the pairs of a section and a key
/// for which the document, indexed by the section and then by the key, holds
/// null.
pub uninterp spec fn yaml_null_entries(doc: serde_yaml::Value) -> Set<(Seq<char>, Seq<char>)>;

/// Calls `serde_yaml`'s indexing of a `Value` by a string, twice, and
/// `Value::is_null` on what it finds. Indexing never fails: where the value is
/// no mapping or lacks the key, it gives null. The contract names the answer.
#[verifier::external_body]
fn yaml_entry_is_null(doc: &serde_yaml::Value, section: &str, key: &str) -> (missing: bool)
    ensures
        missing == yaml_null_entries(*doc).contains((section@, key@)),
{
    doc[section][key].is_null()
}

/// Which mempool settings the local configuration file leaves open.
#[derive(Clone, Copy, Debug, PartialEq, Eq, Structural)]
pub struct LocalGaps {
    pub max_concurrent_inbound_syncs: bool,
    pub max_broadcasts_per_peer: bool,
    pub default_failovers: bool,
    pub tick_interval_ms: bool,
}

/// The mempool settings after optimisation for the kind of node: on a
/// validator fullnode every setting that the local file leaves open gets its
/// fullnode value; on any other node nothing changes.
pub open spec fn spec_optimized(c: MempoolConfig, gaps: LocalGaps, node_type: NodeType) -> MempoolConfig {
    if node_type == NodeType::ValidatorFullnode {
        MempoolConfig {
            shared_mempool_max_concurrent_inbound_syncs: if gaps.max_concurrent_inbound_syncs {
                16
            } else {
                c.shared_mempool_max_concurrent_inbound_syncs
            },
            max_broadcasts_per_peer: if gaps.max_broadcasts_per_peer {
                4
            } else {
                c.max_broadcasts_per_peer
            },
            default_failovers: if gaps.default_failovers {
                0
            } else {
                c.default_failovers
            },
            shared_mempool_tick_interval_ms: if gaps.tick_interval_ms {
                10
            } else {
                c.shared_mempool_tick_interval_ms
            },
            ..c
        }
    } else {
        c
    }
}

/// Whether optimisation changes anything: on a validator fullnode, as soon
/// as the local file leaves one of the four settings open.
pub open spec fn spec_modifies(gaps: LocalGaps, node_type: NodeType) -> bool {
    node_type == NodeType::ValidatorFullnode && (gaps.max_concurrent_inbound_syncs
        || gaps.max_broadcasts_per_peer || gaps.default_failovers || gaps.tick_interval_ms)
}

/// The gaps of a local configuration file.
pub open spec fn spec_local_gaps(doc: serde_yaml::Value) -> LocalGaps {
    let nulls = yaml_null_entries(doc);
    LocalGaps {
        max_concurrent_inbound_syncs: nulls.contains(
            ("mempool"@, "shared_mempool_max_concurrent_inbound_syncs"@),
        ),
        max_broadcasts_per_peer: nulls.contains(("mempool"@, "max_broadcasts_per_peer"@)),
        default_failovers: nulls.contains(("mempool"@, "default_failovers"@)),
        tick_interval_ms: nulls.contains(("mempool"@, "shared_mempool_tick_interval_ms"@)),
    }
}

impl MempoolConfig {
    /// Checks the mempool settings of a node configuration. There is nothing
    /// to check yet: every configuration passes.
    pub fn sanitize(_node_config: &mut NodeConfig, _node_type: NodeType, _chain_id: ChainId) -> (r:
        Result<(), ConfigError>)
        ensures
            r.is_ok(),
            *final(_node_config) == *old(_node_config),
    {
        Ok(())
    }

    /// Optimises the mempool settings for the kind of node, given which
    /// settings the local file leaves open, and says whether anything changed.
    pub fn optimize_with_gaps(&mut self, gaps: LocalGaps, node_type: NodeType) -> (modified: bool)
        ensures
            *final(self) == spec_optimized(*old(self), gaps, node_type),
            modified == spec_modifies(gaps, node_type),
    {
        let mut modified_config = false;
        if node_type.is_validator_fullnode() {
            if gaps.max_concurrent_inbound_syncs {
                self.shared_mempool_max_concurrent_inbound_syncs = 16;
                modified_config = true;
            }
            if gaps.max_broadcasts_per_peer {
                self.max_broadcasts_per_peer = 4;
                modified_config = true;
            }
            if gaps.default_failovers {
                self.default_failovers = 0;
                modified_config = true;
            }
            if gaps.tick_interval_ms {
                self.shared_mempool_tick_interval_ms = 10;
                modified_config = true;
            }
        }
        modified_config
    }

    /// Reads from the local configuration file which mempool settings it
    /// leaves open.
    pub fn local_gaps(local_config_yaml: &serde_yaml::Value) -> (gaps: LocalGaps)
        ensures
            gaps == spec_local_gaps(*local_config_yaml),
    {
        LocalGaps {
            max_concurrent_inbound_syncs: yaml_entry_is_null(
                local_config_yaml,
                "mempool",
                "shared_mempool_max_concurrent_inbound_syncs",
            ),
            max_broadcasts_per_peer: yaml_entry_is_null(
                local_config_yaml,
                "mempool",
                "max_broadcasts_per_peer",
            ),
            default_failovers: yaml_entry_is_null(local_config_yaml, "mempool", "default_failovers"),
            tick_interval_ms: yaml_entry_is_null(
                local_config_yaml,
                "mempool",
                "shared_mempool_tick_interval_ms",
            ),
        }
    }

    /// Optimises the mempool settings of a node configuration for the kind of
    /// node. The settings that the local configuration file sets are left
    /// alone. Returns whether anything changed; it never fails.
    pub fn optimize(
        node_config: &mut NodeConfig,
        local_config_yaml: &serde_yaml::Value,
        node_type: NodeType,
        _chain_id: ChainId,
    ) -> (r: Result<bool, ConfigError>)
        ensures
            r == Ok::<bool, ConfigError>(
                spec_modifies(spec_local_gaps(*local_config_yaml), node_type),
            ),
            final(node_config).mempool == spec_optimized(
                old(node_config).mempool,
                spec_local_gaps(*local_config_yaml),
                node_type,
            ),
    {
        let gaps = Self::local_gaps(local_config_yaml);
        let modified = node_config.mempool.optimize_with_gaps(gaps, node_type);
        Ok(modified)
    }
}

} // verus!
