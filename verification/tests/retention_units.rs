//! Unit tests: cell parsing, boundary advancement ordering, checkpointing,
//! index accumulation, validators, overload shedding, sharding and hashing.

use retention::bounds::{latest_retention_min_snapshot_ts, PersistedCells};
use retention::deleter::partition_chunk;
use retention::index_set::{IndexInfo, IndexMap};
use retention::keys::{make_index_entry, Doc, DocId};
use retention::manager::{
    accumulate_indexes, IndexConfigInfo, IndexMetaDoc, LeaderRetentionManager, OnDiskState,
};
use retention::validate::{shedding_decision, FollowerRetentionManager, DIE_DENOM};
use retention::{
    global_key_for, PersistenceGlobalKey, RetentionConfig, RetentionError, RetentionType,
};

fn config() -> RetentionConfig {
    RetentionConfig {
        index_retention_delay: 10,
        document_retention_delay: 20,
        retention_deletes_enabled: true,
        retention_delete_chunk: 2,
        retention_delete_parallel: 4,
        retention_delete_batch: 100,
        retention_fail_enabled: false,
        retention_fail_start_multiplier: 2,
        retention_fail_all_multiplier: 4,
    }
}

fn empty_cells() -> PersistedCells {
    PersistedCells { retention_min: None, document_retention_min: None, confirmed_deleted: None }
}

fn meta_doc(index_id: u64, state: OnDiskState) -> IndexMetaDoc {
    IndexMetaDoc {
        doc_table: 50,
        index_id,
        config: IndexConfigInfo::Database { on_disk_state: state, table_id: 77, fields: vec![1] },
    }
}

fn leader() -> LeaderRetentionManager {
    let docs = vec![meta_doc(1, OnDiskState::Enabled)];
    LeaderRetentionManager::new(empty_cells(), config(), &docs).unwrap()
}

#[test]
fn cell_parsing() {
    assert_eq!(latest_retention_min_snapshot_ts(None), Ok(0));
    assert_eq!(latest_retention_min_snapshot_ts(Some(42)), Ok(42));
    assert_eq!(
        latest_retention_min_snapshot_ts(Some(-3)),
        Err(RetentionError::InvalidPersistedValue { value: -3 })
    );
}

#[test]
fn each_class_has_its_cell() {
    assert_eq!(
        global_key_for(RetentionType::Index),
        PersistenceGlobalKey::RetentionMinSnapshotTimestamp
    );
    assert_eq!(
        global_key_for(RetentionType::Document),
        PersistenceGlobalKey::DocumentRetentionMinSnapshotTimestamp
    );
}

#[test]
fn startup_needs_an_index() {
    let none: Vec<IndexMetaDoc> = vec![];
    let r = LeaderRetentionManager::new(empty_cells(), config(), &none);
    assert!(matches!(r, Err(RetentionError::NoIndexes)));
}

#[test]
fn startup_rejects_invalid_cells() {
    let cells = PersistedCells {
        retention_min: Some(-1),
        document_retention_min: None,
        confirmed_deleted: None,
    };
    let docs = vec![meta_doc(1, OnDiskState::Enabled)];
    let r = LeaderRetentionManager::new(cells, config(), &docs);
    assert!(matches!(r, Err(RetentionError::InvalidPersistedValue { value: -1 })));
}

#[test]
fn advance_persists_before_memory_and_never_regresses() {
    let mut m = leader();
    let advanced = m.advance_timestamp(100, RetentionType::Index).unwrap();
    assert_eq!(advanced, Some(90));
    // Memory never runs ahead of the persisted cell.
    assert_eq!(m.persisted.retention_min, Some(90));
    assert_eq!(m.bounds.min_snapshot_ts, 90);
    // A stale latest timestamp moves nothing.
    let again = m.advance_timestamp(90, RetentionType::Index).unwrap();
    assert_eq!(again, None);
    assert_eq!(m.bounds.min_snapshot_ts, 90);
    // Below the delay there is no candidate at all.
    let mut fresh = leader();
    assert_eq!(
        fresh.advance_timestamp(5, RetentionType::Index),
        Err(RetentionError::NoCandidateTimestamp)
    );
}

#[test]
fn document_boundary_waits_for_the_first_checkpoint() {
    let mut m = leader();
    m.advance_timestamp(100, RetentionType::Index).unwrap();
    // No checkpoint yet: the document boundary is clamped to the minimum
    // and cannot advance.
    assert_eq!(m.advance_timestamp(100, RetentionType::Document).unwrap(), None);
    assert_eq!(m.bounds.min_document_snapshot_ts, 0);
    // Once the deleter has confirmed deletions, the boundary follows,
    // clamped to the checkpoint.
    m.write_checkpoint(30);
    assert_eq!(m.advance_timestamp(100, RetentionType::Document).unwrap(), Some(30));
    assert_eq!(m.persisted.document_retention_min, Some(30));
    assert_eq!(m.bounds.min_document_snapshot_ts, 30);
}

#[test]
fn checkpoint_is_monotone() {
    let mut m = leader();
    m.advance_timestamp(100, RetentionType::Index).unwrap();
    m.write_checkpoint(5);
    assert_eq!(m.persisted.confirmed_deleted, Some(5));
    assert_eq!(m.checkpoint.checkpoint, Some(5));
    m.write_checkpoint(9);
    assert_eq!(m.persisted.confirmed_deleted, Some(9));
    assert_eq!(m.checkpoint.checkpoint, Some(9));
}

#[test]
fn accumulation_filters_and_never_removes() {
    let mut map = IndexMap::new();
    let mut cursor: u64 = 0;
    let stream: Vec<(u64, Option<IndexMetaDoc>)> = vec![
        (1, Some(meta_doc(7, OnDiskState::Enabled))),
        (2, Some(meta_doc(8, OnDiskState::Backfilling))),  // skipped
        (3, None),                                         // skipped
        (
            4,
            Some(IndexMetaDoc {
                doc_table: 50,
                index_id: 9,
                config: IndexConfigInfo::Other,
            }),
        ),                                                 // skipped
        (
            5,
            Some(IndexMetaDoc {
                doc_table: 51,                             // wrong table: skipped
                index_id: 10,
                config: IndexConfigInfo::Database {
                    on_disk_state: OnDiskState::Enabled,
                    table_id: 77,
                    fields: vec![1],
                },
            }),
        ),
        (6, Some(meta_doc(11, OnDiskState::Backfilled))),
    ];
    accumulate_indexes(&stream, &mut map, &mut cursor, 50);
    assert_eq!(cursor, 6);
    assert_eq!(map.len(), 2);
    assert_eq!(map.entries[0].0, 7);
    assert_eq!(map.entries[1].0, 11);

    // A later document overwrites the description; nothing is removed.
    let update = IndexMetaDoc {
        doc_table: 50,
        index_id: 7,
        config: IndexConfigInfo::Database {
            on_disk_state: OnDiskState::Enabled,
            table_id: 78,
            fields: vec![2, 3],
        },
    };
    let stream2: Vec<(u64, Option<IndexMetaDoc>)> = vec![(9, Some(update))];
    accumulate_indexes(&stream2, &mut map, &mut cursor, 50);
    assert_eq!(cursor, 9);
    assert_eq!(map.len(), 2);
    assert_eq!(map.entries[0].1.table_id, 78);
    assert_eq!(map.entries[0].1.fields, vec![2, 3]);
}

#[test]
fn leader_validators_compare_against_bounds() {
    let mut m = leader();
    m.advance_timestamp(100, RetentionType::Index).unwrap();
    assert_eq!(m.validate_snapshot(90), Ok(()));
    assert_eq!(
        m.validate_snapshot(89),
        Err(RetentionError::OutOfRetention {
            retention_type: RetentionType::Index,
            ts: 89,
            min_snapshot_ts: 90,
        })
    );
    assert_eq!(m.optimistic_validate_snapshot(90), Ok(()));
    assert_eq!(
        m.optimistic_validate_snapshot(89),
        Err(RetentionError::BoundsCheckFailed { ts: 89, min_snapshot_ts: 90 })
    );
    assert_eq!(m.validate_document_snapshot(0), Ok(()));
    assert_eq!(m.min_snapshot_ts(), 90);
    assert_eq!(m.min_document_snapshot_ts(), 0);
}

#[test]
fn follower_advances_its_cache_monotonically() {
    let mut f = FollowerRetentionManager::new(Some(10), Some(4)).unwrap();
    assert_eq!(f.snapshot_bounds.min_snapshot_ts, 10);
    assert_eq!(f.snapshot_bounds.min_document_snapshot_ts, 4);
    // A fresh read advances the cache and returns the fetched value.
    assert_eq!(f.min_snapshot_ts(Some(15)), Ok(15));
    assert_eq!(f.snapshot_bounds.min_snapshot_ts, 15);
    // A stale read is returned but the cache never regresses.
    assert_eq!(f.min_snapshot_ts(Some(7)), Ok(7));
    assert_eq!(f.snapshot_bounds.min_snapshot_ts, 15);
    assert_eq!(f.optimistic_validate_snapshot(14).is_err(), true);
    assert_eq!(f.optimistic_validate_snapshot(15), Ok(()));
    assert_eq!(f.validate_snapshot(20, Some(16)), Ok(()));
    assert_eq!(
        f.validate_snapshot(3, Some(16)),
        Err(RetentionError::OutOfRetention {
            retention_type: RetentionType::Index,
            ts: 3,
            min_snapshot_ts: 16,
        })
    );
    assert_eq!(f.validate_document_snapshot(4, Some(4)), Ok(()));
    assert_eq!(f.fail_if_falling_behind(), Ok(()));
}

#[test]
fn shedding_ramps_between_the_two_multipliers() {
    // delay 10, start 2, all 4: the ramp runs from age 20 to age 40.
    let min_failure = 20;
    let max_failure = 40;
    // Fresh checkpoint: never shed, whatever the draw.
    assert!(!shedding_decision(19, min_failure, max_failure, 0, DIE_DENOM));
    // age 30 is three quarters of the way to max: a draw under 3/4 sheds,
    // a draw above it does not.
    assert!(shedding_decision(30, min_failure, max_failure, DIE_DENOM / 2, DIE_DENOM));
    assert!(!shedding_decision(30, min_failure, max_failure, DIE_DENOM - 1, DIE_DENOM));
    // Past max every draw sheds.
    assert!(shedding_decision(40, min_failure, max_failure, DIE_DENOM - 1, DIE_DENOM));
    assert!(shedding_decision(1000, min_failure, max_failure, DIE_DENOM - 1, DIE_DENOM));
}

#[test]
fn leader_sheds_only_when_enabled_and_behind() {
    let mut m = leader();
    m.advance_timestamp(100, RetentionType::Index).unwrap();
    // Shedding disabled: always fine.
    assert_eq!(m.fail_if_falling_behind(1000), Ok(()));
    let docs = vec![meta_doc(1, OnDiskState::Enabled)];
    let mut cfg = config();
    cfg.retention_fail_enabled = true;
    let mut m2 = LeaderRetentionManager::new(empty_cells(), cfg, &docs).unwrap();
    // No checkpoint yet: always fine.
    assert_eq!(m2.fail_if_falling_behind(1000), Ok(()));
    m2.advance_timestamp(100, RetentionType::Index).unwrap();
    m2.write_checkpoint(60);
    // Fresh checkpoint (age below delay * start multiplier): fine.
    assert_eq!(m2.fail_if_falling_behind(70), Ok(()));
    // Hopelessly old checkpoint (age past delay * all multiplier): shed.
    assert_eq!(
        m2.fail_if_falling_behind(200),
        Err(RetentionError::TooManyWritesInTimePeriod)
    );
}

#[test]
fn deleter_pass_skips_checkpoint_when_an_index_appears() {
    let cells = PersistedCells {
        retention_min: Some(8),
        document_retention_min: None,
        confirmed_deleted: None,
    };
    let docs = vec![meta_doc(1, OnDiskState::Enabled)];
    let log: Vec<retention::keys::Revision> = vec![];
    let mut store: Vec<retention::keys::IndexEntry> = vec![];
    let none: Vec<(u64, Option<IndexMetaDoc>)> = vec![];

    // A new index shows up between the two accumulations: no checkpoint.
    let mut m = LeaderRetentionManager::new(cells, config(), &docs).unwrap();
    let appeared: Vec<(u64, Option<IndexMetaDoc>)> =
        vec![(9, Some(meta_doc(2, OnDiskState::Enabled)))];
    let r = m.deleter_pass(8, &mut store, &log, &none, &appeared);
    assert_eq!(r.checkpointed, None);
    assert_eq!(m.persisted.confirmed_deleted, None);

    // A quiet pass checkpoints the fully reclaimed range.
    let mut m2 = LeaderRetentionManager::new(cells, config(), &docs).unwrap();
    let r2 = m2.deleter_pass(8, &mut store, &log, &none, &none);
    assert!(r2.finished);
    assert_eq!(r2.checkpointed, Some(7));
    assert_eq!(m2.persisted.confirmed_deleted, Some(7));
    assert_eq!(m2.checkpoint.checkpoint, Some(7));
    assert!(!r2.working);
}

#[test]
fn partition_sends_equal_keys_to_one_shard() {
    let d = Doc { fields: vec![(1, 5)] };
    let key_a = d.index_key(&vec![1], DocId { table: 7, internal_id: 1 });
    let key_b = d.index_key(&vec![1], DocId { table: 7, internal_id: 2 });
    let chunk = vec![
        make_index_entry(1, &key_a, 3, false),
        make_index_entry(1, &key_b, 4, false),
        make_index_entry(1, &key_a, 9, true),
        make_index_entry(1, &key_b, 11, true),
    ];
    let parts = partition_chunk(&chunk, 3);
    assert_eq!(parts.len(), 3);
    let total: usize = parts.iter().map(|p| p.len()).sum();
    assert_eq!(total, chunk.len());
    // Rows of one key always land in one shard.
    let shards_with_a: Vec<usize> = parts
        .iter()
        .enumerate()
        .filter(|(_, p)| p.iter().any(|e| e.key_sha256 == chunk[0].key_sha256))
        .map(|(i, _)| i)
        .collect();
    assert_eq!(shards_with_a.len(), 1);
    let shards_with_b: Vec<usize> = parts
        .iter()
        .enumerate()
        .filter(|(_, p)| p.iter().any(|e| e.key_sha256 == chunk[1].key_sha256))
        .map(|(i, _)| i)
        .collect();
    assert_eq!(shards_with_b.len(), 1);
}

#[test]
fn index_entry_carries_the_real_digest() {
    let d = Doc { fields: vec![(1, 5)] };
    let key = d.index_key(&vec![1], DocId { table: 7, internal_id: 1 });
    let e = make_index_entry(2, &key, 3, false);
    assert_eq!(e.key_prefix, key);
    assert_eq!(e.key_suffix, Vec::<u8>::new());
    assert_eq!(e.key_sha256.len(), 32);
    assert_ne!(e.key_sha256, key);
    let expected = <sha2::Sha256 as sha2::Digest>::digest(key.as_slice());
    assert_eq!(e.key_sha256, AsRef::<[u8]>::as_ref(&expected).to_vec());
}

#[test]
fn index_keys_encode_fields_and_identity() {
    let d5 = Doc { fields: vec![(1, 5)] };
    let d6 = Doc { fields: vec![(1, 6)] };
    let id1 = DocId { table: 7, internal_id: 1 };
    let id2 = DocId { table: 7, internal_id: 2 };
    // Same value, different documents: different keys.
    assert_ne!(d5.index_key(&vec![1], id1), d5.index_key(&vec![1], id2));
    // Same document, different values: different keys.
    assert_ne!(d5.index_key(&vec![1], id1), d6.index_key(&vec![1], id1));
    // The identity index ignores the fields entirely.
    assert_eq!(d5.index_key(&vec![], id1), d6.index_key(&vec![], id1));
    // A missing field still encodes, distinctly from any present value.
    let empty = Doc { fields: vec![] };
    assert_ne!(empty.index_key(&vec![1], id1), d5.index_key(&vec![1], id1));
}

#[test]
fn entry_equality_is_by_content() {
    let d = Doc { fields: vec![(1, 5)] };
    let key = d.index_key(&vec![1], DocId { table: 7, internal_id: 1 });
    let a = make_index_entry(2, &key, 3, false);
    let b = retention::keys::copy_entry(&a);
    assert!(retention::keys::entry_eq(&a, &b));
    let c = make_index_entry(2, &key, 4, false);
    assert!(!retention::keys::entry_eq(&a, &c));
    let d2 = make_index_entry(2, &key, 3, true);
    assert!(!retention::keys::entry_eq(&a, &d2));
}

#[test]
fn store_queries_report_only_existing_rows() {
    let d = Doc { fields: vec![(1, 5)] };
    let key_a = d.index_key(&vec![1], DocId { table: 7, internal_id: 1 });
    let key_b = d.index_key(&vec![1], DocId { table: 7, internal_id: 2 });
    let a = make_index_entry(2, &key_a, 3, false);
    let b = make_index_entry(2, &key_b, 4, false);
    let mut store = vec![retention::keys::copy_entry(&a)];
    let candidates = vec![
        retention::keys::copy_entry(&a),
        retention::keys::copy_entry(&b),
    ];
    let existing = retention::store::index_entries_to_delete(&store, &candidates);
    assert_eq!(existing.len(), 1);
    assert!(retention::keys::entry_eq(&existing[0], &a));
    let deleted = retention::store::delete_index_entries(&mut store, &existing);
    assert_eq!(deleted, 1);
    assert!(store.is_empty());
}
