//! Retention subsystem of a multi-version, index-backed document database,
//! modelled as a verified state machine over plain values.
//!
//! The database keeps historical revisions of documents and index entries so
//! that snapshot reads at past timestamps stay valid; retention is the
//! garbage collector that reclaims revisions older than a configurable
//! window. This crate holds the verified core: boundary advancement, the
//! expired-index-entry discovery pipeline, chunked sharded deletion with its
//! confirmed-deleted checkpoint, index-set accumulation, and the snapshot
//! validators for leader and follower processes. Storage, channels and task
//! scheduling live outside; they hand the core plain values and apply the
//! cell writes the core prescribes.

use vstd::prelude::*;

pub mod bounds;
pub mod deleter;
pub mod expired;
pub mod index_set;
pub mod keys;
pub mod manager;
pub mod store;
pub mod validate;

verus! {

/// A timestamp: totally ordered and monotone. `TS_MIN` means "no retention
/// yet". Values always fit in the signed 64-bit persisted cells.
pub type Ts = u64;

/// The smallest timestamp; a boundary that has never advanced sits here.
pub const TS_MIN: Ts = 0;

/// The largest timestamp a persisted cell can hold.
pub const TS_MAX: Ts = 0x7fff_ffff_ffff_ffff;

/// Selects which retention boundary (and which persisted cell) is in play.
#[derive(Debug, Clone, Copy, PartialEq, Eq, Structural)]
pub enum RetentionType {
    Document,
    Index,
}

/// The three global cells retention persists; each stores a signed 64-bit
/// timestamp.
#[derive(Debug, Clone, Copy, PartialEq, Eq, Structural)]
pub enum PersistenceGlobalKey {
    /// The index retention boundary.
    RetentionMinSnapshotTimestamp,
    /// The document retention boundary.
    DocumentRetentionMinSnapshotTimestamp,
    /// The deleter's confirmed-deleted checkpoint.
    RetentionConfirmedDeletedTimestamp,
}

/// The persisted cell that holds the boundary of the given retention class.
pub fn global_key_for(retention_type: RetentionType) -> (key: PersistenceGlobalKey)
    ensures
        key == (match retention_type {
            RetentionType::Document => PersistenceGlobalKey::DocumentRetentionMinSnapshotTimestamp,
            RetentionType::Index => PersistenceGlobalKey::RetentionMinSnapshotTimestamp,
        }),
{
    match retention_type {
        RetentionType::Document => PersistenceGlobalKey::DocumentRetentionMinSnapshotTimestamp,
        RetentionType::Index => PersistenceGlobalKey::RetentionMinSnapshotTimestamp,
    }
}

/// Everything that can go wrong inside the retention core.
#[derive(Debug, Clone, Copy, PartialEq, Eq, Structural)]
pub enum RetentionError {
    /// A snapshot read was attempted below the current retention boundary.
    OutOfRetention { retention_type: RetentionType, ts: Ts, min_snapshot_ts: Ts },
    /// The non-awaiting bounds check failed on a hot path.
    BoundsCheckFailed { ts: Ts, min_snapshot_ts: Ts },
    /// A persisted global cell held a value no timestamp corresponds to.
    InvalidPersistedValue { value: i64 },
    /// The latest committed timestamp is still inside the retention delay,
    /// so no candidate boundary exists yet.
    NoCandidateTimestamp,
    /// The startup scan of the index metadata table saw no index at all.
    NoIndexes,
    /// Overload shedding rejected the write because deletion fell behind.
    TooManyWritesInTimePeriod,
}

/// Tunable configuration, injected once at construction.
#[derive(Debug, Clone, Copy, PartialEq, Eq, Structural)]
pub struct RetentionConfig {
    /// How far behind the latest committed timestamp the index boundary sits.
    pub index_retention_delay: u64,
    /// Same for the document boundary.
    pub document_retention_delay: u64,
    /// Master kill switch for actual deletions.
    pub retention_deletes_enabled: bool,
    /// Size of the groups the expired-entry stream is re-chunked into.
    pub retention_delete_chunk: usize,
    /// Number of shards each group is partitioned into for deletion.
    pub retention_delete_parallel: usize,
    /// Early-return threshold per deletion pass.
    pub retention_delete_batch: usize,
    /// Enable overload shedding.
    pub retention_fail_enabled: bool,
    /// Lower bound of the failure ramp, in multiples of the index delay.
    pub retention_fail_start_multiplier: u64,
    /// Upper bound of the failure ramp, in multiples of the index delay.
    pub retention_fail_all_multiplier: u64,
}

impl RetentionConfig {
    /// Machine limits the shedding arithmetic needs; every realistic
    /// configuration meets them.
    pub open spec fn wf(self) -> bool {
        &&& self.retention_delete_parallel >= 1
        &&& self.retention_delete_chunk >= 1
        &&& self.index_retention_delay * self.retention_fail_start_multiplier <= u64::MAX
        &&& self.index_retention_delay * self.retention_fail_all_multiplier <= u64::MAX
    }
}

} // verus!
