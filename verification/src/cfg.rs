//! Where a shard is stored, and the tunable knobs of its clients.

use vstd::prelude::*;

verus! {

/// A location in durable storage: where the blobs of the shards are, and where
/// the pointer to the state of each shard is. One location can hold any number
/// of shards.
#[derive(Debug, Clone, PartialEq, Eq, PartialOrd, Ord, Hash)]
pub struct PersistLocation {
    /// Uri string that identifies the blob store.
    pub blob_uri: String,
    /// Uri string that identifies the consensus system.
    pub consensus_uri: String,
}

/// One mebibyte, in bytes.
pub const MB: usize = 1024 * 1024;

/// The tunable knobs of a client. Times are in milliseconds.
#[derive(Debug, Clone, PartialEq, Eq)]
pub struct PersistConfig {
    /// A target maximum size of blob payloads in bytes. A batch that is bigger
    /// is broken up into parts.
    pub blob_target_size: usize,
    /// The number of parts that a batch builder writes at a time before it holds
    /// back further ones.
    pub batch_builder_max_outstanding_parts: usize,
    /// Whether batches in blob storage are compacted.
    pub compaction_enabled: bool,
    /// The upper bound on the memory that a compaction takes. At least four
    /// times `blob_target_size`.
    pub compaction_memory_bound_bytes: usize,
    /// A compaction runs if it has at least this many inputs.
    pub compaction_heuristic_min_inputs: usize,
    /// A compaction runs if its inputs have at least this many parts.
    pub compaction_heuristic_min_parts: usize,
    /// A compaction runs if its inputs have at least this many updates.
    pub compaction_heuristic_min_updates: usize,
    /// The number of compactions of one shard that run at a time.
    pub compaction_concurrency_limit: usize,
    /// The number of requests for compaction that wait at a time.
    pub compaction_queue_size: usize,
    /// The least time that a compaction is given before it is timed out.
    pub compaction_minimum_timeout: u64,
    /// The size of the pool of connections to the consensus system.
    pub consensus_connection_pool_max_size: usize,
    /// The time after the last sign of life of a writer after which it may be expired.
    pub writer_lease_duration: u64,
    /// The time after the last sign of life of a reader after which it may be expired.
    pub reader_lease_duration: u64,
    /// The time between two downgrades of a critical handle.
    pub critical_downgrade_interval: u64,
}

impl PersistConfig {
    /// The lease of a reader, where nothing else is configured: fifteen minutes.
    pub const DEFAULT_READ_LEASE_DURATION: u64 = 900_000;

    /// The knobs fit together: a compaction has room for four parts.
    pub open spec fn valid(&self) -> bool {
        self.compaction_memory_bound_bytes >= 4 * self.blob_target_size
    }

    /// The default tuning. Compaction is on unless `compaction_disabled`.
    pub fn new(compaction_disabled: bool) -> (cfg: PersistConfig)
        ensures
            cfg.valid(),
            cfg.blob_target_size == 128 * 1024 * 1024,
            cfg.batch_builder_max_outstanding_parts == 2,
            cfg.compaction_enabled == !compaction_disabled,
            cfg.compaction_memory_bound_bytes == 1024 * 1024 * 1024,
            cfg.compaction_heuristic_min_inputs == 8,
            cfg.compaction_heuristic_min_parts == 8,
            cfg.compaction_heuristic_min_updates == 1024,
            cfg.compaction_concurrency_limit == 5,
            cfg.compaction_queue_size == 20,
            cfg.compaction_minimum_timeout == 90_000,
            cfg.consensus_connection_pool_max_size == 50,
            cfg.writer_lease_duration == 3_600_000,
            cfg.reader_lease_duration == 900_000,
            cfg.critical_downgrade_interval == 30_000,
    {
        PersistConfig {
            blob_target_size: 128 * MB,
            batch_builder_max_outstanding_parts: 2,
            compaction_enabled: !compaction_disabled,
            compaction_memory_bound_bytes: 1024 * MB,
            compaction_heuristic_min_inputs: 8,
            compaction_heuristic_min_parts: 8,
            compaction_heuristic_min_updates: 1024,
            compaction_concurrency_limit: 5,
            compaction_queue_size: 20,
            compaction_minimum_timeout: 90 * 1000,
            consensus_connection_pool_max_size: 50,
            writer_lease_duration: 60 * 60 * 1000,
            reader_lease_duration: PersistConfig::DEFAULT_READ_LEASE_DURATION,
            critical_downgrade_interval: 30 * 1000,
        }
    }

    /// Whether the knobs fit together.
    pub fn is_valid(&self) -> (valid: bool)
        ensures
            valid == self.valid(),
    {
        self.blob_target_size <= usize::MAX / 4 && self.compaction_memory_bound_bytes >= 4
            * self.blob_target_size
    }
}

} // verus!
