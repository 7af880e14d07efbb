//! The in-memory retention bounds and checkpoint, and the three persisted
//! cells they mirror.

use vstd::prelude::*;
use crate::{RetentionError, Ts, TS_MIN, TS_MAX};

verus! {

/// In-memory pair of retention boundaries, guarded for concurrent readers in
/// the surrounding process; a single writer advances it.
#[derive(Debug, Clone, Copy, PartialEq, Eq, Structural)]
pub struct SnapshotBounds {
    /// The earliest snapshot at which no index data has been deleted.
    pub min_snapshot_ts: Ts,
    /// The earliest snapshot at which no view of the write-ahead log has
    /// been deleted.
    pub min_document_snapshot_ts: Ts,
}

impl SnapshotBounds {
    /// Advance the index boundary; it never moves backwards.
    pub fn advance_min_snapshot_ts(&mut self, candidate: Ts)
        ensures
            final(self).min_snapshot_ts == (if candidate > old(self).min_snapshot_ts {
                candidate
            } else {
                old(self).min_snapshot_ts
            }),
            final(self).min_snapshot_ts >= old(self).min_snapshot_ts,
            final(self).min_document_snapshot_ts == old(self).min_document_snapshot_ts,
    {
        if candidate > self.min_snapshot_ts {
            self.min_snapshot_ts = candidate;
        }
    }

    /// Advance the document boundary; it never moves backwards.
    pub fn advance_min_document_snapshot_ts(&mut self, candidate: Ts)
        ensures
            final(self).min_document_snapshot_ts == (if candidate
                > old(self).min_document_snapshot_ts {
                candidate
            } else {
                old(self).min_document_snapshot_ts
            }),
            final(self).min_document_snapshot_ts >= old(self).min_document_snapshot_ts,
            final(self).min_snapshot_ts == old(self).min_snapshot_ts,
    {
        if candidate > self.min_document_snapshot_ts {
            self.min_document_snapshot_ts = candidate;
        }
    }
}

/// The in-memory confirmed-deleted timestamp; `None` until the deleter's
/// first successful pass of this process.
#[derive(Debug, Clone, Copy)]
pub struct Checkpoint {
    pub checkpoint: Option<Ts>,
}

impl Checkpoint {
    /// The timestamp this checkpoint stands at, with `None` reading as the
    /// minimum.
    pub open spec fn ts_or_min(self) -> Ts {
        match self.checkpoint {
            Some(ts) => ts,
            None => TS_MIN,
        }
    }

    /// Advance the checkpoint; once set it never moves backwards.
    pub fn advance_checkpoint(&mut self, candidate: Ts)
        ensures
            final(self).checkpoint == Some(
                if candidate > old(self).ts_or_min() {
                    candidate
                } else {
                    old(self).ts_or_min()
                },
            ),
            final(self).ts_or_min() >= old(self).ts_or_min(),
    {
        let base: Ts = match self.checkpoint {
            Some(ts) => ts,
            None => TS_MIN,
        };
        self.checkpoint = Some(if candidate > base {
            candidate
        } else {
            base
        });
    }
}

/// Mirror of the three persisted global cells. Each holds a signed 64-bit
/// value in storage; absence means retention has never run.
#[derive(Debug, Clone, Copy)]
pub struct PersistedCells {
    /// Index retention boundary cell.
    pub retention_min: Option<i64>,
    /// Document retention boundary cell.
    pub document_retention_min: Option<i64>,
    /// Confirmed-deleted checkpoint cell.
    pub confirmed_deleted: Option<i64>,
}

/// A cell is valid when the value it holds is a timestamp.
pub open spec fn valid_cell(cell: Option<i64>) -> bool {
    match cell {
        Some(v) => v >= 0,
        None => true,
    }
}

/// The timestamp a valid cell denotes; an absent cell reads as the minimum.
pub open spec fn cell_ts(cell: Option<i64>) -> Ts
    recommends
        valid_cell(cell),
{
    match cell {
        Some(v) => v as u64,
        None => TS_MIN,
    }
}

/// Interpret the raw content of a boundary or checkpoint cell: an absent
/// cell means "no retention yet", a negative value is invalid persisted
/// data.
pub fn latest_retention_min_snapshot_ts(cell: Option<i64>) -> (r: Result<Ts, RetentionError>)
    ensures
        valid_cell(cell) ==> r == Ok::<Ts, RetentionError>(cell_ts(cell)),
        !valid_cell(cell) ==> r == Err::<Ts, RetentionError>(
            RetentionError::InvalidPersistedValue { value: cell->Some_0 },
        ),
        r is Ok ==> r->Ok_0 <= TS_MAX,
{
    match cell {
        Some(v) => {
            if v < 0 {
                Err(RetentionError::InvalidPersistedValue { value: v })
            } else {
                Ok(v as u64)
            }
        },
        None => Ok(TS_MIN),
    }
}

} // verus!
