//! The retention validator contract: reject snapshot reads below the
//! current boundary, on the leader and on followers, and the leader's
//! overload shedding when deletion falls behind.

use vstd::prelude::*;
use crate::{RetentionError, RetentionType, Ts};
use crate::bounds::{SnapshotBounds, valid_cell, cell_ts, latest_retention_min_snapshot_ts};
use crate::manager::LeaderRetentionManager;

verus! {

/// The scale the random shedding draw is taken at: a draw is a value in
/// `[0, DIE_DENOM)`, standing for the fraction draw/DIE_DENOM of one.
pub const DIE_DENOM: u64 = 0x1_0000_0000;

/// The canonical out-of-retention error for a read at `ts` against the
/// boundary `min_snapshot_ts` of the given class.
pub fn snapshot_invalid_error(
    ts: Ts,
    min_snapshot_ts: Ts,
    retention_type: RetentionType,
) -> (e: RetentionError)
    ensures
        e == (RetentionError::OutOfRetention { retention_type, ts, min_snapshot_ts }),
{
    RetentionError::OutOfRetention { retention_type, ts, min_snapshot_ts }
}

/// Relies on rand's `random_range` over `0..n`: a draw below `n`, nothing
/// more assumed of it; `n >= 1` keeps the range non-empty.
#[verifier::external_body]
fn draw_below(n: u64) -> (r: u64)
    requires
        n >= 1,
    ensures
        r < n,
{
    rand::random_range(0..n)
}

/// Whether a write is shed, given the checkpoint's age, the two failure
/// bounds, and the random draw: never below `min_failure`; above it, shed
/// when draw/denom falls under age/max_failure, so the failure rate ramps
/// from zero at `min_failure` to everything at `max_failure` and beyond.
pub open spec fn shedding_spec(
    age: u64,
    min_failure: u64,
    max_failure: u64,
    die: u64,
    die_denom: u64,
) -> bool {
    if age < min_failure {
        false
    } else if max_failure == 0 {
        age > 0
    } else {
        die * max_failure < age * die_denom
    }
}

/// Decide shedding from the drawn die; exactly the ramp `shedding_spec`
/// describes.
pub fn shedding_decision(
    age: u64,
    min_failure: u64,
    max_failure: u64,
    die: u64,
    die_denom: u64,
) -> (fail: bool)
    ensures
        fail == shedding_spec(age, min_failure, max_failure, die, die_denom),
{
    if age < min_failure {
        false
    } else if max_failure == 0 {
        age > 0
    } else {
        proof {
            assert((die as int) * (max_failure as int) <= (u64::MAX as int) * (u64::MAX as int))
                by (nonlinear_arith)
                requires
                    die <= u64::MAX,
                    max_failure <= u64::MAX,
            ;
            assert((age as int) * (die_denom as int) <= (u64::MAX as int) * (u64::MAX as int))
                by (nonlinear_arith)
                requires
                    age <= u64::MAX,
                    die_denom <= u64::MAX,
            ;
        }
        let lhs: u128 = (die as u128) * (max_failure as u128);
        let rhs: u128 = (age as u128) * (die_denom as u128);
        lhs < rhs
    }
}

impl LeaderRetentionManager {
    /// A snapshot read at `ts` is legal exactly when `ts` has not fallen
    /// below the index retention boundary.
    pub fn validate_snapshot(&self, ts: Ts) -> (r: Result<(), RetentionError>)
        ensures
            r == (if ts >= self.bounds.min_snapshot_ts {
                Ok::<(), RetentionError>(())
            } else {
                Err::<(), RetentionError>(
                    RetentionError::OutOfRetention {
                        retention_type: RetentionType::Index,
                        ts,
                        min_snapshot_ts: self.bounds.min_snapshot_ts,
                    },
                )
            }),
    {
        let min_snapshot_ts = self.bounds.min_snapshot_ts;
        if ts < min_snapshot_ts {
            Err(snapshot_invalid_error(ts, min_snapshot_ts, RetentionType::Index))
        } else {
            Ok(())
        }
    }

    /// A document snapshot read at `ts` is legal exactly when `ts` has not
    /// fallen below the document retention boundary.
    pub fn validate_document_snapshot(&self, ts: Ts) -> (r: Result<(), RetentionError>)
        ensures
            r == (if ts >= self.bounds.min_document_snapshot_ts {
                Ok::<(), RetentionError>(())
            } else {
                Err::<(), RetentionError>(
                    RetentionError::OutOfRetention {
                        retention_type: RetentionType::Document,
                        ts,
                        min_snapshot_ts: self.bounds.min_document_snapshot_ts,
                    },
                )
            }),
    {
        let min_snapshot_ts = self.bounds.min_document_snapshot_ts;
        if ts < min_snapshot_ts {
            Err(snapshot_invalid_error(ts, min_snapshot_ts, RetentionType::Document))
        } else {
            Ok(())
        }
    }

    /// The same comparison for hot paths that cannot afford to wait; it
    /// fails with a plain bounds-check error rather than the canonical
    /// out-of-retention one.
    pub fn optimistic_validate_snapshot(&self, ts: Ts) -> (r: Result<(), RetentionError>)
        ensures
            r == (if ts >= self.bounds.min_snapshot_ts {
                Ok::<(), RetentionError>(())
            } else {
                Err::<(), RetentionError>(
                    RetentionError::BoundsCheckFailed {
                        ts,
                        min_snapshot_ts: self.bounds.min_snapshot_ts,
                    },
                )
            }),
    {
        let min_snapshot_ts = self.bounds.min_snapshot_ts;
        if ts >= min_snapshot_ts {
            Ok(())
        } else {
            Err(RetentionError::BoundsCheckFailed { ts, min_snapshot_ts })
        }
    }

    /// The current in-memory index boundary.
    pub fn min_snapshot_ts(&self) -> (r: Ts)
        ensures
            r == self.bounds.min_snapshot_ts,
    {
        self.bounds.min_snapshot_ts
    }

    /// The current in-memory document boundary.
    pub fn min_document_snapshot_ts(&self) -> (r: Ts)
        ensures
            r == self.bounds.min_document_snapshot_ts,
    {
        self.bounds.min_document_snapshot_ts
    }

    /// Overload shedding: when enabled and a checkpoint exists, shed the
    /// write with a probability that ramps from zero once the checkpoint's
    /// age passes `INDEX_RETENTION_DELAY` times the start multiplier, to
    /// certainty at the all multiplier. A write is never shed while the
    /// checkpoint is fresh, and always shed once it is too old.
    pub fn fail_if_falling_behind(&self, now: Ts) -> (r: Result<(), RetentionError>)
        requires
            self.config.wf(),
        ensures
            r is Err ==> r == Err::<(), RetentionError>(
                RetentionError::TooManyWritesInTimePeriod,
            ),
            !self.config.retention_fail_enabled ==> r is Ok,
            self.checkpoint.checkpoint is None ==> r is Ok,
            (self.config.retention_fail_enabled && self.checkpoint.checkpoint is Some) ==> ({
                let c = self.checkpoint.checkpoint->Some_0;
                let age = if now >= c {
                    (now - c) as u64
                } else {
                    0u64
                };
                let min_failure = self.config.index_retention_delay
                    * self.config.retention_fail_start_multiplier;
                let max_failure = self.config.index_retention_delay
                    * self.config.retention_fail_all_multiplier;
                &&& (age < min_failure ==> r is Ok)
                &&& (age >= max_failure && age >= min_failure && age > 0 ==> r is Err)
            }),
    {
        if !self.config.retention_fail_enabled {
            return Ok(());
        }
        let checkpoint = match self.checkpoint.checkpoint {
            Some(c) => c,
            None => {
                return Ok(());
            },
        };
        let age: u64 = if now >= checkpoint {
            now - checkpoint
        } else {
            0
        };
        let min_failure = self.config.index_retention_delay
            * self.config.retention_fail_start_multiplier;
        let max_failure = self.config.index_retention_delay
            * self.config.retention_fail_all_multiplier;
        let die = draw_below(DIE_DENOM);
        let is_failure = shedding_decision(age, min_failure, max_failure, die, DIE_DENOM);
        if is_failure {
            proof {
                assert(age >= min_failure);
            }
            Err(RetentionError::TooManyWritesInTimePeriod)
        } else {
            proof {
                if max_failure > 0 && age >= max_failure && age > 0 {
                    assert(die * max_failure < DIE_DENOM * max_failure) by (nonlinear_arith)
                        requires
                            die < DIE_DENOM,
                            max_failure > 0,
                    ;
                    assert(DIE_DENOM * max_failure <= age * DIE_DENOM) by (nonlinear_arith)
                        requires
                            max_failure <= age,
                            DIE_DENOM > 0,
                    ;
                }
            }
            Ok(())
        }
    }
}

/// A follower's view of retention: a cached copy of the bounds, advanced
/// monotonically from the cells the leader persists; followers never own
/// an advancer or a deleter.
pub struct FollowerRetentionManager {
    pub snapshot_bounds: SnapshotBounds,
}

impl FollowerRetentionManager {
    /// Build a follower from the two persisted boundary cells.
    pub fn new(retention_min: Option<i64>, document_retention_min: Option<i64>) -> (r: Result<
        FollowerRetentionManager,
        RetentionError,
    >)
        ensures
            (valid_cell(retention_min) && valid_cell(document_retention_min)) ==> r
                == Ok::<FollowerRetentionManager, RetentionError>(
                FollowerRetentionManager {
                    snapshot_bounds: SnapshotBounds {
                        min_snapshot_ts: cell_ts(retention_min),
                        min_document_snapshot_ts: cell_ts(document_retention_min),
                    },
                },
            ),
            r is Err ==> (!valid_cell(retention_min) || !valid_cell(document_retention_min)),
    {
        let min_snapshot_ts = match latest_retention_min_snapshot_ts(retention_min) {
            Ok(ts) => ts,
            Err(e) => {
                return Err(e);
            },
        };
        let min_document_snapshot_ts = match latest_retention_min_snapshot_ts(
            document_retention_min,
        ) {
            Ok(ts) => ts,
            Err(e) => {
                return Err(e);
            },
        };
        Ok(
            FollowerRetentionManager {
                snapshot_bounds: SnapshotBounds { min_snapshot_ts, min_document_snapshot_ts },
            },
        )
    }

    /// Re-read the index boundary from the freshly fetched cell, advance
    /// the cache monotonically, and return the fetched value.
    pub fn min_snapshot_ts(&mut self, fresh_cell: Option<i64>) -> (r: Result<Ts, RetentionError>)
        ensures
            valid_cell(fresh_cell) ==> (r == Ok::<Ts, RetentionError>(cell_ts(fresh_cell)) && final(self).snapshot_bounds.min_snapshot_ts == (if cell_ts(fresh_cell) > old(self).snapshot_bounds.min_snapshot_ts {
                cell_ts(fresh_cell)
            } else {
                old(self).snapshot_bounds.min_snapshot_ts
            })),
            !valid_cell(fresh_cell) ==> (r is Err && *final(self) == *old(self)),
            final(self).snapshot_bounds.min_snapshot_ts >= old(self).snapshot_bounds.min_snapshot_ts,
            final(self).snapshot_bounds.min_document_snapshot_ts == old(self).snapshot_bounds.min_document_snapshot_ts,
    {
        let latest = match latest_retention_min_snapshot_ts(fresh_cell) {
            Ok(ts) => ts,
            Err(e) => {
                return Err(e);
            },
        };
        self.snapshot_bounds.advance_min_snapshot_ts(latest);
        Ok(latest)
    }

    /// Re-read the document boundary from the freshly fetched cell,
    /// advance the cache monotonically, and return the fetched value.
    pub fn min_document_snapshot_ts(&mut self, fresh_cell: Option<i64>) -> (r: Result<
        Ts,
        RetentionError,
    >)
        ensures
            valid_cell(fresh_cell) ==> (r == Ok::<Ts, RetentionError>(cell_ts(fresh_cell)) && final(self).snapshot_bounds.min_document_snapshot_ts == (if cell_ts(fresh_cell) > old(self).snapshot_bounds.min_document_snapshot_ts {
                cell_ts(fresh_cell)
            } else {
                old(self).snapshot_bounds.min_document_snapshot_ts
            })),
            !valid_cell(fresh_cell) ==> (r is Err && *final(self) == *old(self)),
            final(self).snapshot_bounds.min_document_snapshot_ts >= old(self).snapshot_bounds.min_document_snapshot_ts,
            final(self).snapshot_bounds.min_snapshot_ts == old(self).snapshot_bounds.min_snapshot_ts,
    {
        let latest = match latest_retention_min_snapshot_ts(fresh_cell) {
            Ok(ts) => ts,
            Err(e) => {
                return Err(e);
            },
        };
        self.snapshot_bounds.advance_min_document_snapshot_ts(latest);
        Ok(latest)
    }

    /// Validate a snapshot read against the boundary the leader last
    /// persisted, advancing the cache along the way.
    pub fn validate_snapshot(&mut self, ts: Ts, fresh_cell: Option<i64>) -> (r: Result<
        (),
        RetentionError,
    >)
        ensures
            valid_cell(fresh_cell) ==> r == (if ts >= cell_ts(fresh_cell) {
                Ok::<(), RetentionError>(())
            } else {
                Err::<(), RetentionError>(
                    RetentionError::OutOfRetention {
                        retention_type: RetentionType::Index,
                        ts,
                        min_snapshot_ts: cell_ts(fresh_cell),
                    },
                )
            }),
            !valid_cell(fresh_cell) ==> (r is Err && *final(self) == *old(self)),
            valid_cell(fresh_cell) ==> final(self).snapshot_bounds.min_snapshot_ts == (if cell_ts(
                fresh_cell,
            ) > old(self).snapshot_bounds.min_snapshot_ts {
                cell_ts(fresh_cell)
            } else {
                old(self).snapshot_bounds.min_snapshot_ts
            }),
            final(self).snapshot_bounds.min_snapshot_ts >= old(self).snapshot_bounds.min_snapshot_ts,
            final(self).snapshot_bounds.min_document_snapshot_ts == old(
                self,
            ).snapshot_bounds.min_document_snapshot_ts,
    {
        let min_snapshot_ts = match self.min_snapshot_ts(fresh_cell) {
            Ok(ts2) => ts2,
            Err(e) => {
                return Err(e);
            },
        };
        if ts < min_snapshot_ts {
            Err(snapshot_invalid_error(ts, min_snapshot_ts, RetentionType::Index))
        } else {
            Ok(())
        }
    }

    /// Validate a document snapshot read against the boundary the leader
    /// last persisted, advancing the cache along the way.
    pub fn validate_document_snapshot(&mut self, ts: Ts, fresh_cell: Option<i64>) -> (r: Result<
        (),
        RetentionError,
    >)
        ensures
            valid_cell(fresh_cell) ==> r == (if ts >= cell_ts(fresh_cell) {
                Ok::<(), RetentionError>(())
            } else {
                Err::<(), RetentionError>(
                    RetentionError::OutOfRetention {
                        retention_type: RetentionType::Document,
                        ts,
                        min_snapshot_ts: cell_ts(fresh_cell),
                    },
                )
            }),
            !valid_cell(fresh_cell) ==> r is Err,
            final(self).snapshot_bounds.min_document_snapshot_ts >= old(self).snapshot_bounds.min_document_snapshot_ts,
    {
        let min_snapshot_ts = match self.min_document_snapshot_ts(fresh_cell) {
            Ok(ts2) => ts2,
            Err(e) => {
                return Err(e);
            },
        };
        if ts < min_snapshot_ts {
            Err(snapshot_invalid_error(ts, min_snapshot_ts, RetentionType::Document))
        } else {
            Ok(())
        }
    }

    /// The non-awaiting check against the cached bounds, without touching
    /// persistence.
    pub fn optimistic_validate_snapshot(&self, ts: Ts) -> (r: Result<(), RetentionError>)
        ensures
            r == (if ts >= self.snapshot_bounds.min_snapshot_ts {
                Ok::<(), RetentionError>(())
            } else {
                Err::<(), RetentionError>(
                    RetentionError::BoundsCheckFailed {
                        ts,
                        min_snapshot_ts: self.snapshot_bounds.min_snapshot_ts,
                    },
                )
            }),
    {
        let min_snapshot_ts = self.snapshot_bounds.min_snapshot_ts;
        if ts >= min_snapshot_ts {
            Ok(())
        } else {
            Err(RetentionError::BoundsCheckFailed { ts, min_snapshot_ts })
        }
    }

    /// Followers never shed writes; only the leader's deleter can fall
    /// behind.
    pub fn fail_if_falling_behind(&self) -> (r: Result<(), RetentionError>)
        ensures
            r is Ok,
    {
        Ok(())
    }
}

} // verus!
