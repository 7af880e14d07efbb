//! The seeded end-to-end scenario: two indexes over one table, eleven
//! revisions, a boundary at 8; the expired stream yields exactly seven
//! rows, deleting them leaves every snapshot at the boundary intact, and a
//! second pass deletes nothing.

use retention::deleter::delete;
use retention::expired::expired_index_entries;
use retention::index_set::{IndexInfo, IndexMap};
use retention::keys::{Doc, DocId, IndexEntry, Revision};
use retention::RetentionConfig;

const TABLE: u64 = 77;
const BY_ID: u64 = 1;
const BY_VAL: u64 = 2;
const VALUE_FIELD: u64 = 1;

fn doc_id(n: u64) -> DocId {
    DocId { table: TABLE, internal_id: n }
}

fn doc(val: i64) -> Doc {
    Doc { fields: vec![(VALUE_FIELD, val)] }
}

fn rev(ts: u64, id: u64, val: Option<i64>) -> Revision {
    Revision { ts, id: doc_id(id), doc: val.map(doc) }
}

fn indexes() -> IndexMap {
    let mut m = IndexMap::new();
    m.insert(BY_ID, IndexInfo { table_id: TABLE, fields: vec![] });
    m.insert(BY_VAL, IndexInfo { table_id: TABLE, fields: vec![VALUE_FIELD] });
    m
}

fn config() -> RetentionConfig {
    RetentionConfig {
        index_retention_delay: 10,
        document_retention_delay: 20,
        retention_deletes_enabled: true,
        retention_delete_chunk: 2,
        retention_delete_parallel: 4,
        retention_delete_batch: 100,
        retention_fail_enabled: false,
        retention_fail_start_multiplier: 2,
        retention_fail_all_multiplier: 4,
    }
}

fn the_log() -> Vec<Revision> {
    vec![
        rev(1, 1, Some(5)),  // expired because overwritten
        rev(2, 2, Some(5)),  // expired because overwritten
        rev(3, 1, Some(6)),  // latest
        rev(4, 2, None),     // expired because tombstone
        rev(5, 3, Some(5)),  // latest
        rev(6, 4, Some(5)),  // visible at the boundary
        rev(7, 5, Some(5)),  // visible at the boundary
        // boundary: 8
        rev(9, 4, None),
        rev(10, 5, Some(6)),
        rev(11, 5, Some(5)),
    ]
}

fn by_id_row(id: u64, ts: u64, deleted: bool) -> IndexEntry {
    let d = doc(0);
    let key = d.index_key(&vec![], doc_id(id));
    retention::keys::make_index_entry(BY_ID, &key, ts, deleted)
}

fn by_val_row(id: u64, ts: u64, val: i64, deleted: bool) -> IndexEntry {
    let d = doc(val);
    let key = d.index_key(&vec![VALUE_FIELD], doc_id(id));
    retention::keys::make_index_entry(BY_VAL, &key, ts, deleted)
}

/// The index rows the revision log wrote, as the storage holds them.
fn the_store() -> Vec<IndexEntry> {
    vec![
        by_id_row(1, 1, false),
        by_val_row(1, 1, 5, false),
        by_id_row(2, 2, false),
        by_val_row(2, 2, 5, false),
        by_id_row(1, 3, false),
        by_val_row(1, 3, 5, true),
        by_val_row(1, 3, 6, false),
        by_id_row(2, 4, true),
        by_val_row(2, 4, 5, true),
        by_id_row(3, 5, false),
        by_val_row(3, 5, 5, false),
        by_id_row(4, 6, false),
        by_val_row(4, 6, 5, false),
        by_id_row(5, 7, false),
        by_val_row(5, 7, 5, false),
        by_id_row(4, 9, true),
        by_val_row(4, 9, 5, true),
        by_id_row(5, 10, false),
        by_val_row(5, 10, 5, true),
        by_val_row(5, 10, 6, false),
        by_id_row(5, 11, false),
        by_val_row(5, 11, 6, true),
        by_val_row(5, 11, 5, false),
    ]
}

fn entry_eq_test(a: &IndexEntry, b: &IndexEntry) -> bool {
    a.index_id == b.index_id && a.key_prefix == b.key_prefix && a.key_suffix == b.key_suffix
        && a.key_sha256 == b.key_sha256 && a.ts == b.ts && a.deleted == b.deleted
}

fn store_contains(store: &[IndexEntry], e: &IndexEntry) -> bool {
    store.iter().any(|s| entry_eq_test(s, e))
}

/// The rows of one index visible at a snapshot: for each key, the latest
/// row at or below the snapshot, kept if it is not a tombstone. Returned
/// in ascending key order as `(key, ts)`.
fn index_scan_at(store: &[IndexEntry], index_id: u64, snapshot: u64) -> Vec<(Vec<u8>, u64)> {
    let mut keys: Vec<Vec<u8>> = Vec::new();
    for e in store.iter().filter(|e| e.index_id == index_id) {
        let mut key = e.key_prefix.clone();
        key.extend_from_slice(&e.key_suffix);
        if !keys.contains(&key) {
            keys.push(key);
        }
    }
    keys.sort();
    let mut out = Vec::new();
    for key in keys {
        let mut best: Option<(u64, bool)> = None;
        for e in store.iter().filter(|e| e.index_id == index_id) {
            let mut k = e.key_prefix.clone();
            k.extend_from_slice(&e.key_suffix);
            if k == key && e.ts <= snapshot {
                match best {
                    Some((ts, _)) if ts >= e.ts => {},
                    _ => best = Some((e.ts, e.deleted)),
                }
            }
        }
        if let Some((ts, deleted)) = best {
            if !deleted {
                out.push((key, ts));
            }
        }
    }
    out
}

#[test]
fn expired_stream_yields_seven_rows() {
    let log = the_log();
    let idx = indexes();
    let scan = expired_index_entries(&log, 0, 8, &idx);
    assert_eq!(scan.entries.len(), 7);
    assert_eq!(scan.inconsistencies, 0);
    let expected = vec![
        by_id_row(1, 1, false),
        by_val_row(1, 1, 5, false),
        by_val_row(1, 3, 5, true),
        by_id_row(2, 2, false),
        by_id_row(2, 4, true),
        by_val_row(2, 2, 5, false),
        by_val_row(2, 4, 5, true),
    ];
    for e in &expected {
        assert!(store_contains(&scan.entries, e));
    }
}

#[test]
fn delete_reclaims_the_range_and_keeps_the_boundary_snapshot() {
    let log = the_log();
    let idx = indexes();
    let mut store = the_store();
    let cfg = config();
    let r = delete(8, &mut store, 0, &idx, &log, &cfg);
    assert!(r.finished);
    assert_eq!(r.new_cursor, 7);
    assert_eq!(r.total_expired, 7);
    assert_eq!(r.deleted_rows, 7);
    assert_eq!(store.len(), 16);

    // Every document is still visible at the boundary snapshot.
    let visible = index_scan_at(&store, BY_VAL, 8);
    let ts_list: Vec<u64> = visible.iter().map(|(_, ts)| *ts).collect();
    assert_eq!(ts_list, vec![5, 6, 7, 3]);

    // Old versions below the boundary are gone.
    let old_visible = index_scan_at(&store, BY_VAL, 2);
    assert_eq!(old_visible, vec![]);
}

#[test]
fn no_expired_row_remains_after_a_full_pass() {
    let log = the_log();
    let idx = indexes();
    let mut store = the_store();
    let cfg = config();
    let r = delete(8, &mut store, 0, &idx, &log, &cfg);
    assert!(r.finished);
    let scan = expired_index_entries(&log, 0, 8, &idx);
    for e in &scan.entries {
        assert!(!store_contains(&store, e));
    }
}

#[test]
fn delete_twice_deletes_nothing_the_second_time() {
    let log = the_log();
    let idx = indexes();
    let mut store = the_store();
    let cfg = config();
    let first = delete(8, &mut store, 0, &idx, &log, &cfg);
    assert!(first.finished);
    let len_after_first = store.len();
    let second = delete(8, &mut store, 0, &idx, &log, &cfg);
    assert!(second.finished);
    assert_eq!(second.deleted_rows, 0);
    assert_eq!(second.new_cursor, first.new_cursor);
    assert_eq!(store.len(), len_after_first);
}

#[test]
fn unchanged_key_keeps_the_live_row() {
    // Over [8, 12): id5 moves 5 -> 6 -> 5; the id of the document never
    // changes, so its identity index key is the same at every revision and
    // no tombstone for that index is ever emitted.
    let log = the_log();
    let idx = indexes();
    let scan = expired_index_entries(&log, 8, 12, &idx);
    // The identity tombstones for id5's overwrites at 10 and 11 are
    // suppressed; only id4's genuine deletion at 9 leaves one.
    for e in &scan.entries {
        assert!(!(e.index_id == BY_ID && e.deleted && e.ts != 9));
    }
    // In particular nothing targets the live identity row at ts 11.
    for e in &scan.entries {
        assert!(!(e.index_id == BY_ID && e.ts == 11));
    }
}

#[test]
fn created_and_deleted_in_one_transaction_leaves_no_rows() {
    let log = vec![rev(3, 9, None)];
    let idx = indexes();
    let scan = expired_index_entries(&log, 0, 8, &idx);
    assert_eq!(scan.entries.len(), 0);
    assert_eq!(scan.inconsistencies, 0);
}

#[test]
fn tombstone_with_later_revision_is_reported_and_skipped() {
    let log = vec![rev(1, 9, None), rev(2, 9, Some(5))];
    let idx = indexes();
    let scan = expired_index_entries(&log, 0, 8, &idx);
    assert_eq!(scan.entries.len(), 0);
    assert_eq!(scan.inconsistencies, 1);
}

#[test]
fn disabled_deletes_do_no_work() {
    let log = the_log();
    let idx = indexes();
    let mut store = the_store();
    let mut cfg = config();
    cfg.retention_deletes_enabled = false;
    let r = delete(8, &mut store, 3, &idx, &log, &cfg);
    assert_eq!(r.new_cursor, 3);
    assert_eq!(r.total_expired, 0);
    assert_eq!(r.deleted_rows, 0);
    assert!(r.finished);
    assert_eq!(store.len(), the_store().len());
    // The short circuit takes any cursor, even past the boundary.
    let r2 = delete(8, &mut store, 9, &idx, &log, &cfg);
    assert_eq!(r2.new_cursor, 9);
    assert_eq!(r2.total_expired, 0);
    assert_eq!(store.len(), the_store().len());
}

#[test]
fn small_batch_returns_early_with_a_cursor() {
    let log = the_log();
    let idx = indexes();
    let mut store = the_store();
    let mut cfg = config();
    cfg.retention_delete_batch = 1;
    let r = delete(8, &mut store, 0, &idx, &log, &cfg);
    assert!(!r.finished);
    assert!(r.new_cursor > 0);
    assert!(r.new_cursor < 8);
    assert!(r.total_expired >= 2);
}
