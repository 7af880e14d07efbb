//! The leader retention manager, modelled as a state machine: the in-memory
//! bounds and checkpoint, the mirror of the three persisted cells, and the
//! accumulated index set. The surrounding process owns the clocks, channels
//! and storage; it drives these transitions and applies each prescribed
//! cell write to its durable backend before exposing the new state.

use vstd::prelude::*;
use crate::{RetentionConfig, RetentionError, RetentionType, Ts, TS_MIN, TS_MAX};
use crate::bounds::{
    SnapshotBounds, Checkpoint, PersistedCells, valid_cell, cell_ts,
    latest_retention_min_snapshot_ts,
};
use crate::index_set::{IndexMap, IndexInfo, IndexInfoModel, insert_sorted, seq_has_key};
use crate::keys::{IndexEntry, EntryModel, entry_models, rev_models, Revision};
use crate::deleter::delete;
use crate::expired::{expired_entries, lemma_expired_ts_below};

verus! {

/// The on-disk state of a database index; a backfilling index is excluded
/// from retention until its backfill completes.
#[derive(Debug, Clone, Copy, PartialEq, Eq, Structural)]
pub enum OnDiskState {
    Backfilling,
    Backfilled,
    Enabled,
}

/// The parsed configuration of an index metadata document.
#[derive(Debug, Clone)]
pub enum IndexConfigInfo {
    /// A database index over `table_id`, indexing `fields`.
    Database { on_disk_state: OnDiskState, table_id: u64, fields: Vec<u64> },
    /// Some other kind of index; retention does not touch it.
    Other,
}

/// An index metadata document, parsed: the table the document itself lives
/// in, the index's id, and its configuration.
#[derive(Debug, Clone)]
pub struct IndexMetaDoc {
    pub doc_table: u64,
    pub index_id: u64,
    pub config: IndexConfigInfo,
}

/// Spec-level mirror of `IndexConfigInfo`.
pub ghost enum IndexConfigModel {
    Database { on_disk_state: OnDiskState, table_id: u64, fields: Seq<u64> },
    Other,
}

/// Spec-level mirror of `IndexMetaDoc`.
pub ghost struct IndexMetaDocModel {
    pub doc_table: u64,
    pub index_id: u64,
    pub config: IndexConfigModel,
}

impl View for IndexMetaDoc {
    type V = IndexMetaDocModel;

    open spec fn view(&self) -> IndexMetaDocModel {
        IndexMetaDocModel {
            doc_table: self.doc_table,
            index_id: self.index_id,
            config: match self.config {
                IndexConfigInfo::Database { on_disk_state, table_id, ref fields } =>
                    IndexConfigModel::Database { on_disk_state, table_id, fields: fields@ },
                IndexConfigInfo::Other => IndexConfigModel::Other,
            },
        }
    }
}

/// The index the accumulator takes from a metadata document, if any: the
/// document must live in the index metadata table, describe a database
/// index, and that index must not be backfilling.
pub open spec fn accepted_index(doc: IndexMetaDocModel, index_table_id: u64) -> Option<
    (u64, IndexInfoModel),
> {
    if doc.doc_table != index_table_id {
        None
    } else {
        match doc.config {
            IndexConfigModel::Database { on_disk_state, table_id, fields } => {
                if on_disk_state is Backfilling {
                    None
                } else {
                    Some((doc.index_id, IndexInfoModel { table_id, fields }))
                }
            },
            IndexConfigModel::Other => None,
        }
    }
}

/// What a stream element contributes, if anything.
pub open spec fn accepted_of(doc: Option<IndexMetaDocModel>, index_table_id: u64) -> Option<
    (u64, IndexInfoModel),
> {
    match doc {
        Some(d) => accepted_index(d, index_table_id),
        None => None,
    }
}

/// The models of a metadata stream.
pub open spec fn meta_models(s: Seq<(Ts, Option<IndexMetaDoc>)>) -> Seq<
    (Ts, Option<IndexMetaDocModel>),
> {
    s.map_values(
        |p: (Ts, Option<IndexMetaDoc>)|
            (
                p.0,
                match p.1 {
                    Some(d) => Some(d@),
                    None => None,
                },
            ),
    )
}

/// The last description a stream accepts for the index `key`, if any: a
/// later metadata document overwrites an earlier one.
pub open spec fn last_accepted(
    stream: Seq<(Ts, Option<IndexMetaDocModel>)>,
    index_table_id: u64,
    key: u64,
) -> Option<IndexInfoModel>
    decreases stream.len(),
{
    if stream.len() == 0 {
        None
    } else {
        match accepted_of(stream.last().1, index_table_id) {
            Some(p) => if p.0 == key {
                Some(p.1)
            } else {
                last_accepted(stream.drop_last(), index_table_id, key)
            },
            None => last_accepted(stream.drop_last(), index_table_id, key),
        }
    }
}

/// One stream element folded into a key-sorted index run.
pub open spec fn accumulate_step(
    s: Seq<(u64, IndexInfoModel)>,
    doc: Option<IndexMetaDocModel>,
    index_table_id: u64,
) -> Seq<(u64, IndexInfoModel)> {
    match accepted_of(doc, index_table_id) {
        Some(p) => insert_sorted(s, p.0, p.1),
        None => s,
    }
}

/// The index run a page of the metadata stream leaves behind, folded in
/// stream order.
pub open spec fn accumulated(
    s: Seq<(u64, IndexInfoModel)>,
    stream: Seq<(Ts, Option<IndexMetaDocModel>)>,
    index_table_id: u64,
) -> Seq<(u64, IndexInfoModel)>
    decreases stream.len(),
{
    if stream.len() == 0 {
        s
    } else {
        accumulated(
            accumulate_step(s, stream[0].1, index_table_id),
            stream.drop_first(),
            index_table_id,
        )
    }
}

/// The models of the startup snapshot's documents.
pub open spec fn doc_models(s: Seq<IndexMetaDoc>) -> Seq<IndexMetaDocModel> {
    s.map_values(|d: IndexMetaDoc| d@)
}

/// The index run the startup snapshot scan leaves behind: each document is
/// folded with its own table as the metadata table.
pub open spec fn snapshot_accumulated(
    s: Seq<(u64, IndexInfoModel)>,
    docs: Seq<IndexMetaDocModel>,
) -> Seq<(u64, IndexInfoModel)>
    decreases docs.len(),
{
    if docs.len() == 0 {
        s
    } else {
        snapshot_accumulated(
            accumulate_step(s, Some(docs[0]), docs[0].doc_table),
            docs.drop_first(),
        )
    }
}

/// Fold one metadata document into the index set. Indexes are only ever
/// added or overwritten, never removed: rows of a dropped index may still
/// await reclamation.
pub fn accumulate_index_document(
    maybe_doc: Option<&IndexMetaDoc>,
    all_indexes: &mut IndexMap,
    index_table_id: u64,
)
    requires
        old(all_indexes).wf(),
    ensures
        final(all_indexes).wf(),
        final(all_indexes).models() == accumulate_step(
            old(all_indexes).models(),
            match maybe_doc {
                Some(d) => Some(d@),
                None => None,
            },
            index_table_id,
        ),
        ({
            let doc_model = match maybe_doc {
                Some(d) => Some(d@),
                None => None,
            };
            match accepted_of(doc_model, index_table_id) {
                None => *final(all_indexes) == *old(all_indexes),
                Some(p) => {
                    &&& final(all_indexes).has_key(p.0)
                    &&& forall|k: u64|
                        old(all_indexes).has_key(k) ==> final(all_indexes).has_key(k)
                    &&& forall|k: u64|
                        final(all_indexes).has_key(k) ==> (old(all_indexes).has_key(k) || k == p.0)
                    &&& forall|i: int|
                        0 <= i < final(all_indexes).models().len()
                            && final(all_indexes).models()[i].0 == p.0
                            ==> final(all_indexes).models()[i].1 == p.1
                    &&& forall|i: int|
                        0 <= i < final(all_indexes).models().len()
                            && final(all_indexes).models()[i].0 != p.0
                            ==> old(all_indexes).models().contains(final(all_indexes).models()[i])
                    &&& final(all_indexes).models().len() == old(all_indexes).models().len() + (
                    if old(all_indexes).has_key(p.0) {
                        0int
                    } else {
                        1int
                    })
                },
            }
        }),
{
    let doc = match maybe_doc {
        Some(d) => d,
        None => {
            return ;
        },
    };
    if doc.doc_table != index_table_id {
        return ;
    }
    match &doc.config {
        IndexConfigInfo::Database { on_disk_state, table_id, fields } => {
            match on_disk_state {
                OnDiskState::Backfilling => {
                    // A backfilling index interacts badly with retention;
                    // it is taken up once the backfill completes. The set
                    // only grows, so an index that later falls back to
                    // backfilling keeps being cleaned.
                },
                _ => {
                    let mut fields_copy: Vec<u64> = Vec::new();
                    let flen: usize = fields.len();
                    let mut fi: usize = 0;
                    while fi < flen
                        invariant
                            fi <= flen,
                            flen == fields@.len(),
                            fields_copy@ == fields@.take(fi as int),
                        decreases flen - fi,
                    {
                        fields_copy.push(fields[fi]);
                        proof {
                            assert(fields_copy@ =~= fields@.take(fi + 1));
                        }
                        fi = fi + 1;
                    }
                    proof {
                        assert(fields@.take(flen as int) =~= fields@);
                    }
                    let info = IndexInfo { table_id: *table_id, fields: fields_copy };
                    all_indexes.insert(doc.index_id, info);
                },
            }
        },
        IndexConfigInfo::Other => {},
    }
}

/// Fold a page of the index metadata table into the index set, advancing
/// the accumulation cursor to the last timestamp seen. The set never
/// shrinks; the description an index ends with is the last one the page
/// accepted for it.
pub fn accumulate_indexes(
    stream: &Vec<(Ts, Option<IndexMetaDoc>)>,
    all_indexes: &mut IndexMap,
    cursor: &mut Ts,
    index_table_id: u64,
)
    requires
        old(all_indexes).wf(),
    ensures
        final(all_indexes).wf(),
        final(all_indexes).models() == accumulated(
            old(all_indexes).models(),
            meta_models(stream@),
            index_table_id,
        ),
        final(all_indexes).models().len() >= old(all_indexes).models().len(),
        (final(all_indexes).models().len() == old(all_indexes).models().len()) <==> (forall|k: u64|
            #[trigger] last_accepted(meta_models(stream@), index_table_id, k) is Some ==> old(
                all_indexes,
            ).has_key(k)),
        forall|k: u64| old(all_indexes).has_key(k) ==> final(all_indexes).has_key(k),
        forall|k: u64|
            final(all_indexes).has_key(k) <==> (old(all_indexes).has_key(k) || last_accepted(
                meta_models(stream@),
                index_table_id,
                k,
            ) is Some),
        forall|i: int|
            #![trigger final(all_indexes).models()[i]]
            0 <= i < final(all_indexes).models().len() ==> ({
                let k = final(all_indexes).models()[i].0;
                match last_accepted(meta_models(stream@), index_table_id, k) {
                    Some(im) => final(all_indexes).models()[i].1 == im,
                    None => old(all_indexes).models().contains(final(all_indexes).models()[i]),
                }
            }),
        *final(cursor) == (if stream@.len() > 0 {
            stream@.last().0
        } else {
            *old(cursor)
        }),
{
    let ghost sm = meta_models(stream@);
    let n: usize = stream.len();
    let mut i: usize = 0;
    proof {
        assert(sm.take(0) =~= Seq::<(Ts, Option<IndexMetaDocModel>)>::empty());
        assert(sm.skip(0) =~= sm);
    }
    while i < n
        invariant
            i <= n,
            n == stream@.len(),
            sm == meta_models(stream@),
            all_indexes.wf(),
            accumulated(old(all_indexes).models(), sm, index_table_id) == accumulated(
                all_indexes.models(),
                sm.skip(i as int),
                index_table_id,
            ),
            all_indexes.models().len() >= old(all_indexes).models().len(),
            (all_indexes.models().len() == old(all_indexes).models().len()) <==> (forall|k: u64|
                #[trigger] last_accepted(sm.take(i as int), index_table_id, k) is Some ==> old(
                    all_indexes,
                ).has_key(k)),
            forall|k: u64| old(all_indexes).has_key(k) ==> all_indexes.has_key(k),
            forall|k: u64|
                all_indexes.has_key(k) <==> (old(all_indexes).has_key(k) || last_accepted(
                    sm.take(i as int),
                    index_table_id,
                    k,
                ) is Some),
            forall|t: int|
                #![trigger all_indexes.models()[t]]
                0 <= t < all_indexes.models().len() ==> ({
                    let k = all_indexes.models()[t].0;
                    match last_accepted(sm.take(i as int), index_table_id, k) {
                        Some(im) => all_indexes.models()[t].1 == im,
                        None => old(all_indexes).models().contains(all_indexes.models()[t]),
                    }
                }),
            *cursor == (if i > 0 {
                stream@[i - 1].0
            } else {
                *old(cursor)
            }),
        decreases n - i,
    {
        let ghost mapped = all_indexes;
        proof {
            assert(sm.take(i + 1).last() == sm[i as int]);
            assert(sm.take(i + 1).drop_last() =~= sm.take(i as int));
            assert(sm.skip(i as int)[0] == sm[i as int]);
            assert(sm.skip(i as int).drop_first() =~= sm.skip(i + 1));
        }
        match &stream[i].1 {
            Some(doc) => {
                accumulate_index_document(Some(doc), all_indexes, index_table_id);
            },
            None => {
                accumulate_index_document(None, all_indexes, index_table_id);
            },
        }
        proof {
            assert(accumulated(old(all_indexes).models(), sm, index_table_id) == accumulated(
                all_indexes.models(),
                sm.skip(i + 1),
                index_table_id,
            )) by {
                assert(all_indexes.models() == accumulate_step(
                    mapped.models(),
                    sm[i as int].1,
                    index_table_id,
                ));
            }
            let oldlen = old(all_indexes).models().len();
            assert forall|k: u64|
                #[trigger] last_accepted(sm.take(i + 1), index_table_id, k) is Some implies (
            all_indexes.models().len() == oldlen ==> old(all_indexes).has_key(k)) by {
                match accepted_of(sm[i as int].1, index_table_id) {
                    Some(p) => {
                        if p.0 != k {
                            assert(last_accepted(sm.take(i as int), index_table_id, k) is Some);
                        } else {
                            if all_indexes.models().len() == oldlen {
                                assert(mapped.models().len() == oldlen);
                                assert(mapped.has_key(p.0));
                            }
                        }
                    },
                    None => {
                        assert(last_accepted(sm.take(i as int), index_table_id, k) is Some);
                    },
                }
            }
            if all_indexes.models().len() != oldlen {
                if mapped.models().len() == oldlen {
                    let k0 = (match accepted_of(sm[i as int].1, index_table_id) {
                        Some(p) => p.0,
                        None => 0u64,
                    });
                    assert(last_accepted(sm.take(i + 1), index_table_id, k0) is Some
                        && !old(all_indexes).has_key(k0)) by {
                        assert(!mapped.has_key(k0));
                    }
                } else {
                    let k0 = choose|k0: u64|
                        #[trigger] last_accepted(sm.take(i as int), index_table_id, k0) is Some
                            && !old(all_indexes).has_key(k0);
                    assert(last_accepted(sm.take(i + 1), index_table_id, k0) is Some) by {
                        match accepted_of(sm[i as int].1, index_table_id) {
                            Some(p) => {},
                            None => {},
                        }
                    }
                }
            }
        }
        *cursor = stream[i].0;
        i = i + 1;
    }
    proof {
        assert(sm.take(n as int) =~= sm);
        assert(sm.skip(n as int) =~= Seq::<(Ts, Option<IndexMetaDocModel>)>::empty());
        if n > 0 {
            assert(stream@.last().0 == stream@[n - 1].0);
        }
    }
}

/// The leader's retention state: the two in-memory boundaries, the
/// in-memory confirmed-deleted checkpoint, the mirror of the three
/// persisted cells, and the deleter's index set with its accumulation
/// cursor.
pub struct LeaderRetentionManager {
    pub bounds: SnapshotBounds,
    pub checkpoint: Checkpoint,
    pub persisted: PersistedCells,
    pub all_indexes: IndexMap,
    pub index_cursor: Ts,
    pub index_table_id: u64,
    pub config: RetentionConfig,
}

impl LeaderRetentionManager {
    /// The state invariant. The in-memory boundaries mirror the persisted
    /// cells (persistence is written first, so an external observer never
    /// sees memory ahead of it); the checkpoint never trails the in-memory
    /// record; the document boundary stays at or below the confirmed
    /// deleted timestamp, which stays below the index boundary.
    pub open spec fn wf(self) -> bool {
        &&& self.config.wf()
        &&& valid_cell(self.persisted.retention_min)
        &&& valid_cell(self.persisted.document_retention_min)
        &&& valid_cell(self.persisted.confirmed_deleted)
        &&& self.bounds.min_snapshot_ts == cell_ts(self.persisted.retention_min)
        &&& self.bounds.min_document_snapshot_ts == cell_ts(self.persisted.document_retention_min)
        &&& (self.checkpoint.checkpoint matches Some(c) ==> self.persisted.confirmed_deleted
            is Some && c <= cell_ts(self.persisted.confirmed_deleted))
        &&& cell_ts(self.persisted.document_retention_min) <= cell_ts(
            self.persisted.confirmed_deleted,
        )
        &&& cell_ts(self.persisted.confirmed_deleted) <= cell_ts(self.persisted.retention_min)
        &&& self.all_indexes.wf()
    }

    /// Law: the in-memory boundaries never run ahead of the persisted
    /// cells. Readers that go through persistence therefore never reach
    /// into a range the deleter may already be reclaiming.
    pub proof fn lemma_memory_never_ahead_of_persistence(self)
        requires
            self.wf(),
        ensures
            self.bounds.min_snapshot_ts <= cell_ts(self.persisted.retention_min),
            self.bounds.min_document_snapshot_ts <= cell_ts(self.persisted.document_retention_min),
    {
    }

    /// Law: the document boundary trails the confirmed-deleted checkpoint,
    /// which trails the index boundary: documents are reclaimed only from
    /// within the already-index-reclaimed range, and the checkpoint never
    /// leaps ahead of the window being closed.
    pub proof fn lemma_boundary_order(self)
        requires
            self.wf(),
        ensures
            self.bounds.min_document_snapshot_ts <= cell_ts(self.persisted.confirmed_deleted),
            cell_ts(self.persisted.confirmed_deleted) <= self.bounds.min_snapshot_ts,
    {
    }

    /// Build the leader's state from the persisted cells and the one-shot
    /// snapshot scan of the index metadata table. Fails on invalid
    /// persisted data, or when the scan saw no index at all.
    pub fn new(
        cells: PersistedCells,
        config: RetentionConfig,
        snapshot_docs: &Vec<IndexMetaDoc>,
    ) -> (r: Result<LeaderRetentionManager, RetentionError>)
        requires
            config.wf(),
            valid_cell(cells.retention_min) && valid_cell(cells.document_retention_min)
                && valid_cell(cells.confirmed_deleted) ==> (cell_ts(cells.document_retention_min)
                <= cell_ts(cells.confirmed_deleted) && cell_ts(cells.confirmed_deleted) <= cell_ts(
                cells.retention_min,
            )),
        ensures
            match r {
                Ok(m) => {
                    &&& m.wf()
                    &&& m.bounds.min_snapshot_ts == cell_ts(cells.retention_min)
                    &&& m.bounds.min_document_snapshot_ts == cell_ts(cells.document_retention_min)
                    &&& m.checkpoint.checkpoint is None
                    &&& m.persisted == cells
                    &&& m.config == config
                    &&& m.index_cursor == cell_ts(cells.retention_min)
                    &&& snapshot_docs@.len() > 0
                    &&& m.index_table_id == snapshot_docs@.last()@.doc_table
                    &&& m.all_indexes.models() == snapshot_accumulated(
                        Seq::<(u64, IndexInfoModel)>::empty(),
                        doc_models(snapshot_docs@),
                    )
                },
                Err(e) => {
                    ||| (e matches RetentionError::InvalidPersistedValue { .. } && (!valid_cell(
                        cells.retention_min,
                    ) || !valid_cell(cells.document_retention_min) || !valid_cell(
                        cells.confirmed_deleted,
                    )))
                    ||| (e == RetentionError::NoIndexes && snapshot_docs@.len() == 0)
                },
            },
            r is Err <==> (!valid_cell(cells.retention_min) || !valid_cell(
                cells.document_retention_min,
            ) || !valid_cell(cells.confirmed_deleted) || snapshot_docs@.len() == 0),
    {
        let min_snapshot_ts = match latest_retention_min_snapshot_ts(cells.retention_min) {
            Ok(ts) => ts,
            Err(e) => {
                return Err(e);
            },
        };
        let min_document_snapshot_ts = match latest_retention_min_snapshot_ts(
            cells.document_retention_min,
        ) {
            Ok(ts) => ts,
            Err(e) => {
                return Err(e);
            },
        };
        match latest_retention_min_snapshot_ts(cells.confirmed_deleted) {
            Ok(_) => {},
            Err(e) => {
                return Err(e);
            },
        }
        if snapshot_docs.len() == 0 {
            return Err(RetentionError::NoIndexes);
        }
        let mut all_indexes = IndexMap::new();
        let mut index_table_id: u64 = 0;
        let ghost dm = doc_models(snapshot_docs@);
        let n: usize = snapshot_docs.len();
        let mut i: usize = 0;
        proof {
            assert(dm.skip(0) =~= dm);
        }
        while i < n
            invariant
                i <= n,
                n == snapshot_docs@.len(),
                dm == doc_models(snapshot_docs@),
                all_indexes.wf(),
                snapshot_accumulated(Seq::<(u64, IndexInfoModel)>::empty(), dm)
                    == snapshot_accumulated(all_indexes.models(), dm.skip(i as int)),
                i > 0 ==> index_table_id == snapshot_docs@[i - 1]@.doc_table,
            decreases n - i,
        {
            let ghost mapped = all_indexes;
            proof {
                assert(dm.skip(i as int)[0] == dm[i as int]);
                assert(dm.skip(i as int).drop_first() =~= dm.skip(i + 1));
            }
            let doc = &snapshot_docs[i];
            index_table_id = doc.doc_table;
            accumulate_index_document(Some(doc), &mut all_indexes, index_table_id);
            proof {
                assert(all_indexes.models() == accumulate_step(
                    mapped.models(),
                    Some(dm[i as int]),
                    dm[i as int].doc_table,
                ));
            }
            i = i + 1;
        }
        proof {
            assert(dm.skip(n as int) =~= Seq::<IndexMetaDocModel>::empty());
        }
        Ok(
            LeaderRetentionManager {
                bounds: SnapshotBounds { min_snapshot_ts, min_document_snapshot_ts },
                checkpoint: Checkpoint { checkpoint: None },
                persisted: cells,
                all_indexes,
                index_cursor: min_snapshot_ts,
                index_table_id,
                config,
            },
        )
    }

    /// The boundary the given class would like to advance to: the latest
    /// committed timestamp minus the class's retention delay, and for the
    /// document class additionally clamped to the confirmed-deleted
    /// checkpoint, so that index deletion always leads document deletion.
    pub open spec fn candidate_spec(self, latest_ts: Ts, retention_type: RetentionType) -> Option<
        Ts,
    > {
        let delay = match retention_type {
            RetentionType::Document => self.config.document_retention_delay,
            RetentionType::Index => self.config.index_retention_delay,
        };
        if latest_ts < delay {
            None
        } else {
            let c = (latest_ts - delay) as Ts;
            match retention_type {
                RetentionType::Document => Some(
                    if c <= self.checkpoint.ts_or_min() {
                        c
                    } else {
                        self.checkpoint.ts_or_min()
                    },
                ),
                RetentionType::Index => Some(c),
            }
        }
    }

    /// Compute the candidate boundary; fails while the latest committed
    /// timestamp is still inside the retention delay.
    pub fn candidate_min_snapshot_ts(&self, latest_ts: Ts, retention_type: RetentionType) -> (r:
        Result<Ts, RetentionError>)
        ensures
            r == (match self.candidate_spec(latest_ts, retention_type) {
                Some(c) => Ok::<Ts, RetentionError>(c),
                None => Err::<Ts, RetentionError>(RetentionError::NoCandidateTimestamp),
            }),
    {
        let delay = match retention_type {
            RetentionType::Document => self.config.document_retention_delay,
            RetentionType::Index => self.config.index_retention_delay,
        };
        if latest_ts < delay {
            return Err(RetentionError::NoCandidateTimestamp);
        }
        let mut candidate = latest_ts - delay;
        if let RetentionType::Document = retention_type {
            let index_confirmed_deleted = match self.checkpoint.checkpoint {
                Some(val) => val,
                None => TS_MIN,
            };
            if index_confirmed_deleted < candidate {
                candidate = index_confirmed_deleted;
            }
        }
        Ok(candidate)
    }

    /// Advance one boundary if its candidate moved past it: write the new
    /// value to the class's persisted cell, then advance the in-memory
    /// boundary to match. Returns the advanced-to timestamp for the signal
    /// channel, or `None` when nothing moved.
    pub fn advance_timestamp(&mut self, latest_ts: Ts, retention_type: RetentionType) -> (r:
        Result<Option<Ts>, RetentionError>)
        requires
            old(self).wf(),
            latest_ts <= TS_MAX,
        ensures
            final(self).wf(),
            final(self).checkpoint == old(self).checkpoint,
            final(self).all_indexes == old(self).all_indexes,
            final(self).index_cursor == old(self).index_cursor,
            final(self).index_table_id == old(self).index_table_id,
            final(self).config == old(self).config,
            final(self).persisted.confirmed_deleted == old(self).persisted.confirmed_deleted,
            final(self).bounds.min_snapshot_ts >= old(self).bounds.min_snapshot_ts,
            final(self).bounds.min_document_snapshot_ts
                >= old(self).bounds.min_document_snapshot_ts,
            r == (match old(self).candidate_spec(latest_ts, retention_type) {
                None => Err::<Option<Ts>, RetentionError>(RetentionError::NoCandidateTimestamp),
                Some(c) => {
                    let current = match retention_type {
                        RetentionType::Document => old(self).bounds.min_document_snapshot_ts,
                        RetentionType::Index => old(self).bounds.min_snapshot_ts,
                    };
                    if c <= current {
                        Ok::<Option<Ts>, RetentionError>(None)
                    } else {
                        Ok::<Option<Ts>, RetentionError>(Some(c))
                    }
                },
            }),
            (match r {
                Ok(Some(c)) => (match retention_type {
                    RetentionType::Document => final(self).bounds
                        == SnapshotBounds {
                        min_document_snapshot_ts: c,
                        ..old(self).bounds
                    } && final(self).persisted
                        == PersistedCells {
                        document_retention_min: Some(c as i64),
                        ..old(self).persisted
                    },
                    RetentionType::Index => final(self).bounds
                        == SnapshotBounds {
                        min_snapshot_ts: c,
                        ..old(self).bounds
                    } && final(self).persisted
                        == PersistedCells {
                        retention_min: Some(c as i64),
                        ..old(self).persisted
                    },
                }),
                _ => final(self).bounds == old(self).bounds
                    && final(self).persisted == old(self).persisted,
            }),
    {
        let candidate = match self.candidate_min_snapshot_ts(latest_ts, retention_type) {
            Ok(c) => c,
            Err(e) => {
                return Err(e);
            },
        };
        let min_snapshot_ts = match retention_type {
            RetentionType::Document => self.bounds.min_document_snapshot_ts,
            RetentionType::Index => self.bounds.min_snapshot_ts,
        };
        if candidate <= min_snapshot_ts {
            return Ok(None);
        }
        // Persistence before memory: followers and restarts read the cell,
        // while deletion is gated by memory, so the cell must never trail
        // the in-memory boundary.
        match retention_type {
            RetentionType::Document => {
                self.persisted.document_retention_min = Some(candidate as i64);
                self.bounds.advance_min_document_snapshot_ts(candidate);
            },
            RetentionType::Index => {
                self.persisted.retention_min = Some(candidate as i64);
                self.bounds.advance_min_snapshot_ts(candidate);
            },
        }
        Ok(Some(candidate))
    }

    /// The deleter's cursor as persistence records it: the authoritative
    /// confirmed-deleted timestamp across restarts.
    pub fn get_checkpoint(&self) -> (r: Ts)
        requires
            self.wf(),
        ensures
            r == cell_ts(self.persisted.confirmed_deleted),
    {
        match self.persisted.confirmed_deleted {
            Some(v) => v as u64,
            None => TS_MIN,
        }
    }

    /// Record that everything at `new_cursor` and below is reclaimed:
    /// write the confirmed-deleted cell, then advance the in-memory
    /// checkpoint. The checkpoint never moves backwards.
    pub fn write_checkpoint(&mut self, new_cursor: Ts)
        requires
            old(self).wf(),
            cell_ts(old(self).persisted.confirmed_deleted) <= new_cursor,
            new_cursor <= old(self).bounds.min_snapshot_ts,
        ensures
            final(self).wf(),
            final(self).persisted == (PersistedCells {
                confirmed_deleted: Some(new_cursor as i64),
                ..old(self).persisted
            }),
            final(self).checkpoint.checkpoint == Some(
                if new_cursor > old(self).checkpoint.ts_or_min() {
                    new_cursor
                } else {
                    old(self).checkpoint.ts_or_min()
                },
            ),
            final(self).checkpoint.ts_or_min() >= old(self).checkpoint.ts_or_min(),
            cell_ts(final(self).persisted.confirmed_deleted) >= cell_ts(
                old(self).persisted.confirmed_deleted,
            ),
            final(self).bounds == old(self).bounds,
            final(self).all_indexes == old(self).all_indexes,
            final(self).index_cursor == old(self).index_cursor,
            final(self).index_table_id == old(self).index_table_id,
            final(self).config == old(self).config,
    {
        self.persisted.confirmed_deleted = Some(new_cursor as i64);
        self.checkpoint.advance_checkpoint(new_cursor);
    }
}

/// What one deleter iteration reports back.
pub struct DeleterPassResult {
    /// Whether the iteration processed a full batch and wants to run again
    /// at once instead of waiting for the next boundary signal.
    pub working: bool,
    /// How many expired rows the deletion pass processed.
    pub expired_processed: usize,
    /// Whether the deletion pass drained the whole range, or returned
    /// early past a full batch.
    pub finished: bool,
    /// The checkpoint written this iteration, if one was.
    pub checkpointed: Option<Ts>,
}

impl LeaderRetentionManager {
    /// One deleter iteration for a freshly signalled boundary: load the
    /// checkpoint from the persisted cell, accumulate indexes, delete over
    /// `[checkpoint, boundary)`, accumulate again, and advance the
    /// checkpoint only if the second accumulation found no new index — a
    /// new index may have rows in the range just processed that this pass
    /// did not cover.
    pub fn deleter_pass(
        &mut self,
        boundary: Ts,
        store: &mut Vec<IndexEntry>,
        log: &Vec<Revision>,
        meta_before: &Vec<(Ts, Option<IndexMetaDoc>)>,
        meta_after: &Vec<(Ts, Option<IndexMetaDoc>)>,
    ) -> (r: DeleterPassResult)
        requires
            old(self).wf(),
            boundary <= old(self).bounds.min_snapshot_ts,
            (old(self).config.retention_deletes_enabled && boundary != TS_MIN) ==> cell_ts(
                old(self).persisted.confirmed_deleted,
            ) < boundary,
        ensures
            final(self).wf(),
            final(self).bounds == old(self).bounds,
            final(self).config == old(self).config,
            final(self).index_table_id == old(self).index_table_id,
            forall|m: EntryModel| #[trigger]
                entry_models(final(store)@).contains(m) ==> entry_models(old(store)@).contains(m),
            forall|m: EntryModel|
                entry_models(old(store)@).contains(m) && m.ts >= boundary ==> #[trigger]
                    entry_models(final(store)@).contains(m),
            cell_ts(final(self).persisted.confirmed_deleted) >= cell_ts(
                old(self).persisted.confirmed_deleted,
            ),
            final(self).checkpoint.ts_or_min() >= old(self).checkpoint.ts_or_min(),
            forall|k: u64|
                old(self).all_indexes.has_key(k) ==> final(self).all_indexes.has_key(k),
            final(self).all_indexes.models() == accumulated(
                accumulated(
                    old(self).all_indexes.models(),
                    meta_models(meta_before@),
                    old(self).index_table_id,
                ),
                meta_models(meta_after@),
                old(self).index_table_id,
            ),
            final(self).index_cursor == (if meta_after@.len() > 0 {
                meta_after@.last().0
            } else if meta_before@.len() > 0 {
                meta_before@.last().0
            } else {
                old(self).index_cursor
            }),
            r.working == (r.expired_processed >= old(self).config.retention_delete_batch),
            !r.finished ==> r.expired_processed >= old(self).config.retention_delete_batch,
            (r.checkpointed is Some) <==> (forall|k: u64|
                #[trigger] last_accepted(
                    meta_models(meta_after@),
                    old(self).index_table_id,
                    k,
                ) is Some ==> seq_has_key(
                    accumulated(
                        old(self).all_indexes.models(),
                        meta_models(meta_before@),
                        old(self).index_table_id,
                    ),
                    k,
                )),
            (match r.checkpointed {
                Some(c) => final(self).persisted == (PersistedCells {
                    confirmed_deleted: Some(c as i64),
                    ..old(self).persisted
                }) && c >= cell_ts(old(self).persisted.confirmed_deleted) && c <= old(
                    self,
                ).bounds.min_snapshot_ts && ((old(self).config.retention_deletes_enabled
                    && boundary != TS_MIN) ==> (r.finished <==> c == boundary - 1)),
                None => final(self).persisted == old(self).persisted && final(self).checkpoint
                    == old(self).checkpoint,
            }),
            (old(self).config.retention_deletes_enabled && boundary != TS_MIN && r.finished)
                ==> ((forall|m: EntryModel| #[trigger]
                entry_models(final(store)@).contains(m) <==> (entry_models(old(store)@).contains(
                    m,
                ) && !expired_entries(
                    rev_models(log@),
                    cell_ts(old(self).persisted.confirmed_deleted),
                    boundary,
                    accumulated(
                        old(self).all_indexes.models(),
                        meta_models(meta_before@),
                        old(self).index_table_id,
                    ),
                ).contains(m))) && r.expired_processed == expired_entries(
                    rev_models(log@),
                    cell_ts(old(self).persisted.confirmed_deleted),
                    boundary,
                    accumulated(
                        old(self).all_indexes.models(),
                        meta_models(meta_before@),
                        old(self).index_table_id,
                    ),
                ).len()),
            (!old(self).config.retention_deletes_enabled || boundary == TS_MIN) ==> (r.finished
                && r.expired_processed == 0 && final(store)@ == old(store)@),
    {
        let cursor = self.get_checkpoint();
        let mut index_cursor = self.index_cursor;
        accumulate_indexes(meta_before, &mut self.all_indexes, &mut index_cursor, self.index_table_id);
        self.index_cursor = index_cursor;
        let count_before = self.all_indexes.len();
        proof {
            // Rows at or above the boundary are outside every expired set
            // of the range, so the pass below cannot touch them.
            lemma_expired_ts_below(rev_models(log@), cursor, boundary, self.all_indexes.models());
        }
        let dres = delete(boundary, store, cursor, &self.all_indexes, log, &self.config);
        let mut index_cursor_after = self.index_cursor;
        accumulate_indexes(
            meta_after,
            &mut self.all_indexes,
            &mut index_cursor_after,
            self.index_table_id,
        );
        self.index_cursor = index_cursor_after;
        let count_after = self.all_indexes.len();
        let checkpointed: Option<Ts>;
        if count_after == count_before {
            // No index appeared while deleting, so the pass covered every
            // index row up to the new cursor.
            self.write_checkpoint(dres.new_cursor);
            checkpointed = Some(dres.new_cursor);
        } else {
            checkpointed = None;
        }
        let working = dres.total_expired >= self.config.retention_delete_batch;
        DeleterPassResult {
            working,
            expired_processed: dres.total_expired,
            finished: dres.finished,
            checkpointed,
        }
    }
}

} // verus!
