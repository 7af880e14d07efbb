//! Discovery of expired index entries.
//!
//! A revision of a document that moved forward (it was overwritten or
//! deleted) leaves up to two reclaimable index rows per matching index: the
//! row written at the previous revision's timestamp, and the tombstone or
//! obsolete row written at the revision's own timestamp. The tombstone is
//! suppressed when the two revisions share the index key, because then the
//! row at the revision's timestamp is the live one and was overwritten in
//! place.

use vstd::prelude::*;
use crate::Ts;
use crate::keys::{
    Revision, RevModel, IndexEntry, EntryModel, DocId, index_key, entry_of, entry_models,
    rev_models, make_index_entry, bytes_eq, split_prefix, split_suffix,
};
use crate::index_set::{IndexMap, IndexInfoModel};

verus! {

/// The revision log is ordered by timestamp and never holds two revisions
/// of one document at one timestamp.
pub open spec fn log_wf(log: Seq<RevModel>) -> bool {
    &&& forall|i: int, j: int| 0 <= i < j < log.len() ==> log[i].ts <= log[j].ts
    &&& forall|i: int, j: int|
        0 <= i < j < log.len() ==> !(log[i].id == log[j].id && log[i].ts == log[j].ts)
}

/// The previous revision of document `id` before `ts`: the latest revision
/// of `id` strictly older than `ts`.
pub open spec fn prev_rev(log: Seq<RevModel>, id: DocId, ts: Ts) -> Option<RevModel>
    decreases log.len(),
{
    if log.len() == 0 {
        None
    } else if log.last().id == id && log.last().ts < ts {
        Some(log.last())
    } else {
        prev_rev(log.drop_last(), id, ts)
    }
}

/// What the previous revision returns, when it returns: a revision of the
/// same document, strictly older.
pub proof fn lemma_prev_rev_some(log: Seq<RevModel>, id: DocId, ts: Ts)
    requires
        prev_rev(log, id, ts) is Some,
    ensures
        log.contains(prev_rev(log, id, ts)->Some_0),
        prev_rev(log, id, ts)->Some_0.id == id,
        prev_rev(log, id, ts)->Some_0.ts < ts,
    decreases log.len(),
{
    let p = prev_rev(log, id, ts)->Some_0;
    if log.last().id == id && log.last().ts < ts {
        assert(log.contains(log.last())) by {
            assert(log[log.len() - 1] == log.last());
        }
    } else {
        lemma_prev_rev_some(log.drop_last(), id, ts);
        assert(log.drop_last().contains(p));
        let i = choose|i: int| 0 <= i < log.drop_last().len() && log.drop_last()[i] == p;
        assert(log[i] == p);
    }
}

/// The rows the pair (previous revision, revision) makes reclaimable for
/// one index.
pub open spec fn entries_for_rev_index(
    prev: RevModel,
    rev: RevModel,
    index_id: u64,
    info: IndexInfoModel,
) -> Seq<EntryModel>
    recommends
        prev.doc is Some,
{
    if info.table_id != rev.id.table {
        Seq::empty()
    } else {
        let prev_key = index_key(prev.doc->Some_0, info.fields, rev.id);
        let prev_entry = entry_of(index_id, prev_key, prev.ts, false);
        if rev.doc is Some && index_key(rev.doc->Some_0, info.fields, rev.id) == prev_key {
            seq![prev_entry]
        } else {
            seq![prev_entry, entry_of(index_id, prev_key, rev.ts, true)]
        }
    }
}

/// The rows the pair makes reclaimable across a run of indexes, in order.
pub open spec fn entries_for_rev_indexes(
    prev: RevModel,
    rev: RevModel,
    indexes: Seq<(u64, IndexInfoModel)>,
) -> Seq<EntryModel>
    decreases indexes.len(),
{
    if indexes.len() == 0 {
        Seq::empty()
    } else {
        entries_for_rev_index(prev, rev, indexes[0].0, indexes[0].1) + entries_for_rev_indexes(
            prev,
            rev,
            indexes.drop_first(),
        )
    }
}

/// The rows one revision makes reclaimable. A revision without a previous
/// revision contributes nothing (it is a fresh create, or a tombstone of a
/// document created and deleted in one transaction). A revision whose
/// previous revision is itself a tombstone is an inconsistency: it is
/// skipped, and counted by `inconsistency_count`.
pub open spec fn entries_for_rev(
    log: Seq<RevModel>,
    rev: RevModel,
    indexes: Seq<(u64, IndexInfoModel)>,
) -> Seq<EntryModel> {
    match prev_rev(log, rev.id, rev.ts) {
        Some(p) => if p.doc is Some {
            entries_for_rev_indexes(p, rev, indexes)
        } else {
            Seq::empty()
        },
        None => Seq::empty(),
    }
}

/// A revision that has a previous revision, but that previous revision is a
/// tombstone: inconsistent data, reported and skipped.
pub open spec fn rev_inconsistent(log: Seq<RevModel>, rev: RevModel) -> bool {
    match prev_rev(log, rev.id, rev.ts) {
        Some(p) => p.doc is None,
        None => false,
    }
}

/// The rows a run of revisions makes reclaimable, in revision order.
pub open spec fn expired_for_revs(
    log: Seq<RevModel>,
    revs: Seq<RevModel>,
    indexes: Seq<(u64, IndexInfoModel)>,
) -> Seq<EntryModel>
    decreases revs.len(),
{
    if revs.len() == 0 {
        Seq::empty()
    } else {
        entries_for_rev(log, revs[0], indexes) + expired_for_revs(log, revs.drop_first(), indexes)
    }
}

/// How many revisions of a run are skipped as inconsistent.
pub open spec fn inconsistency_count(log: Seq<RevModel>, revs: Seq<RevModel>) -> int
    decreases revs.len(),
{
    if revs.len() == 0 {
        0
    } else {
        (if rev_inconsistent(log, revs[0]) {
            1int
        } else {
            0int
        }) + inconsistency_count(log, revs.drop_first())
    }
}

/// The revisions whose timestamp lies in `[cursor, boundary)`.
pub open spec fn range_pred(cursor: Ts, boundary: Ts) -> spec_fn(RevModel) -> bool {
    |r: RevModel| cursor <= r.ts < boundary
}

/// The revisions of the log inside the range, in log order.
pub open spec fn revs_in_range(log: Seq<RevModel>, cursor: Ts, boundary: Ts) -> Seq<RevModel> {
    log.filter(range_pred(cursor, boundary))
}

/// Every row the range `[cursor, boundary)` makes reclaimable, in order:
/// revisions ascending, indexes ascending by id, the previous-revision row
/// before the tombstone.
pub open spec fn expired_entries(
    log: Seq<RevModel>,
    cursor: Ts,
    boundary: Ts,
    indexes: Seq<(u64, IndexInfoModel)>,
) -> Seq<EntryModel> {
    expired_for_revs(log, revs_in_range(log, cursor, boundary), indexes)
}

/// How many inconsistent revisions the range holds.
pub open spec fn expired_inconsistencies(log: Seq<RevModel>, cursor: Ts, boundary: Ts) -> int {
    inconsistency_count(log, revs_in_range(log, cursor, boundary))
}

/// The rows a pair makes reclaimable sit at the pair's two timestamps.
proof fn lemma_entries_for_rev_indexes_ts(
    prev: RevModel,
    rev: RevModel,
    indexes: Seq<(u64, IndexInfoModel)>,
)
    ensures
        forall|m: EntryModel| #[trigger]
            entries_for_rev_indexes(prev, rev, indexes).contains(m) ==> m.ts == prev.ts || m.ts
                == rev.ts,
    decreases indexes.len(),
{
    if indexes.len() > 0 {
        lemma_entries_for_rev_indexes_ts(prev, rev, indexes.drop_first());
        let head = entries_for_rev_index(prev, rev, indexes[0].0, indexes[0].1);
        let tail = entries_for_rev_indexes(prev, rev, indexes.drop_first());
        assert forall|m: EntryModel| #[trigger]
            entries_for_rev_indexes(prev, rev, indexes).contains(m) implies m.ts == prev.ts || m.ts
            == rev.ts by {
            let t = choose|t: int|
                0 <= t < (head + tail).len() && (head + tail)[t] == m;
            if t < head.len() {
                assert(head[t] == m);
            } else {
                assert(tail[t - head.len()] == m);
                assert(tail.contains(m));
            }
        }
    }
}

/// Every row a run of revisions makes reclaimable sits strictly below any
/// bound the revisions sit below.
proof fn lemma_expired_for_revs_ts(
    log: Seq<RevModel>,
    revs: Seq<RevModel>,
    indexes: Seq<(u64, IndexInfoModel)>,
    bound: Ts,
)
    requires
        forall|k: int| 0 <= k < revs.len() ==> #[trigger] revs[k].ts < bound,
    ensures
        forall|m: EntryModel| #[trigger]
            expired_for_revs(log, revs, indexes).contains(m) ==> m.ts < bound,
    decreases revs.len(),
{
    if revs.len() > 0 {
        let r = revs[0];
        let head = entries_for_rev(log, r, indexes);
        let tail = expired_for_revs(log, revs.drop_first(), indexes);
        assert(forall|k: int|
            0 <= k < revs.drop_first().len() ==> #[trigger] revs.drop_first()[k].ts < bound) by {
            assert(forall|k: int|
                0 <= k < revs.drop_first().len() ==> revs.drop_first()[k] == revs[k + 1]);
        }
        lemma_expired_for_revs_ts(log, revs.drop_first(), indexes, bound);
        if prev_rev(log, r.id, r.ts) is Some {
            lemma_prev_rev_some(log, r.id, r.ts);
        }
        lemma_entries_for_rev_indexes_ts(
            prev_rev(log, r.id, r.ts)->Some_0,
            r,
            indexes,
        );
        assert(revs[0].ts < bound);
        assert forall|m: EntryModel| #[trigger]
            expired_for_revs(log, revs, indexes).contains(m) implies m.ts < bound by {
            let t = choose|t: int|
                0 <= t < (head + tail).len() && (head + tail)[t] == m;
            if t < head.len() {
                assert(head[t] == m);
                assert(head.contains(m));
            } else {
                assert(tail[t - head.len()] == m);
                assert(tail.contains(m));
            }
        }
    }
}

/// Every expired row of the range `[cursor, boundary)` sits strictly below
/// the boundary: reclamation never touches a row at or above it.
pub proof fn lemma_expired_ts_below(
    log: Seq<RevModel>,
    cursor: Ts,
    boundary: Ts,
    indexes: Seq<(u64, IndexInfoModel)>,
)
    ensures
        forall|m: EntryModel| #[trigger]
            expired_entries(log, cursor, boundary, indexes).contains(m) ==> m.ts < boundary,
{
    let revs = revs_in_range(log, cursor, boundary);
    assert forall|k: int| 0 <= k < revs.len() implies #[trigger] revs[k].ts < boundary by {
        log.lemma_filter_pred(range_pred(cursor, boundary), k);
    }
    lemma_expired_for_revs_ts(log, revs, indexes, boundary);
}

/// Law: when two consecutive revisions of a document share the index key,
/// the pair's processing reclaims only the row at the previous revision's
/// timestamp; nothing it emits sits at the newer revision's timestamp, so
/// the live row written there survives.
pub proof fn lemma_same_key_keeps_entry(
    prev: RevModel,
    rev: RevModel,
    index_id: u64,
    info: IndexInfoModel,
)
    requires
        prev.doc is Some,
        rev.doc is Some,
        index_key(rev.doc->Some_0, info.fields, rev.id) == index_key(
            prev.doc->Some_0,
            info.fields,
            rev.id,
        ),
        prev.ts < rev.ts,
    ensures
        info.table_id == rev.id.table ==> entries_for_rev_index(prev, rev, index_id, info)
            == seq![
            entry_of(
                index_id,
                index_key(prev.doc->Some_0, info.fields, rev.id),
                prev.ts,
                false,
            ),
        ],
        forall|m: EntryModel| #[trigger]
            entries_for_rev_index(prev, rev, index_id, info).contains(m) ==> m.ts != rev.ts,
{
    if info.table_id == rev.id.table {
        let only = entries_for_rev_index(prev, rev, index_id, info);
        assert(forall|t: int| 0 <= t < only.len() ==> only[t].ts == prev.ts);
    }
}

/// Everything an element of a filtered run satisfies: it came from the
/// run, and it satisfies the predicate.
proof fn lemma_filter_subset(s: Seq<RevModel>, pred: spec_fn(RevModel) -> bool)
    ensures
        forall|m: RevModel| #[trigger]
            s.filter(pred).contains(m) ==> s.contains(m) && pred(m),
    decreases s.len(),
{
    reveal(Seq::filter);
    if s.len() > 0 {
        lemma_filter_subset(s.drop_last(), pred);
        assert forall|m: RevModel| #[trigger]
            s.filter(pred).contains(m) implies s.contains(m) && pred(m) by {
            let f = s.filter(pred);
            let t = choose|t: int| 0 <= t < f.len() && f[t] == m;
            if pred(s.last()) && t == f.len() - 1 {
                assert(s[s.len() - 1] == m);
            } else {
                assert(s.drop_last().filter(pred).contains(m));
                let u = choose|u: int|
                    0 <= u < s.drop_last().len() && s.drop_last()[u] == m;
                assert(s[u] == m);
            }
        }
    }
}

/// A row of the expired run comes from some revision of the run.
proof fn lemma_expired_for_revs_inversion(
    log: Seq<RevModel>,
    revs: Seq<RevModel>,
    indexes: Seq<(u64, IndexInfoModel)>,
    m: EntryModel,
)
    requires
        expired_for_revs(log, revs, indexes).contains(m),
    ensures
        exists|k: int|
            0 <= k < revs.len() && #[trigger] entries_for_rev(log, revs[k], indexes).contains(m),
    decreases revs.len(),
{
    let head = entries_for_rev(log, revs[0], indexes);
    let tail = expired_for_revs(log, revs.drop_first(), indexes);
    let t = choose|t: int| 0 <= t < (head + tail).len() && (head + tail)[t] == m;
    if t < head.len() {
        assert(head[t] == m);
        assert(entries_for_rev(log, revs[0], indexes).contains(m));
    } else {
        assert(tail[t - head.len()] == m);
        lemma_expired_for_revs_inversion(log, revs.drop_first(), indexes, m);
        let k = choose|k: int|
            0 <= k < revs.drop_first().len() && #[trigger] entries_for_rev(
                log,
                revs.drop_first()[k],
                indexes,
            ).contains(m);
        assert(revs[k + 1] == revs.drop_first()[k]);
        assert(entries_for_rev(log, revs[k + 1], indexes).contains(m));
    }
}

/// A row of a pair's run comes from some index of the run.
proof fn lemma_entries_for_rev_indexes_inversion(
    prev: RevModel,
    rev: RevModel,
    indexes: Seq<(u64, IndexInfoModel)>,
    m: EntryModel,
)
    requires
        entries_for_rev_indexes(prev, rev, indexes).contains(m),
    ensures
        exists|t: int|
            0 <= t < indexes.len() && #[trigger] entries_for_rev_index(
                prev,
                rev,
                indexes[t].0,
                indexes[t].1,
            ).contains(m),
    decreases indexes.len(),
{
    let head = entries_for_rev_index(prev, rev, indexes[0].0, indexes[0].1);
    let tail = entries_for_rev_indexes(prev, rev, indexes.drop_first());
    let t = choose|t: int| 0 <= t < (head + tail).len() && (head + tail)[t] == m;
    if t < head.len() {
        assert(head[t] == m);
        assert(entries_for_rev_index(prev, rev, indexes[0].0, indexes[0].1).contains(m));
    } else {
        assert(tail[t - head.len()] == m);
        lemma_entries_for_rev_indexes_inversion(prev, rev, indexes.drop_first(), m);
        let u = choose|u: int|
            0 <= u < indexes.drop_first().len() && #[trigger] entries_for_rev_index(
                prev,
                rev,
                indexes.drop_first()[u].0,
                indexes.drop_first()[u].1,
            ).contains(m);
        assert(indexes[u + 1] == indexes.drop_first()[u]);
        assert(entries_for_rev_index(prev, rev, indexes[u + 1].0, indexes[u + 1].1).contains(m));
    }
}

/// Law: a live row whose key did not change is never reclaimed. If a
/// revision is the newest one of its document below the boundary, and its
/// predecessor produced the same key for an index, then nothing in the
/// whole expired run of the range names that index, that key and that
/// revision's timestamp: the row the revision wrote stays, and every
/// snapshot at or above the boundary still sees the document.
pub proof fn lemma_unchanged_key_row_survives(
    log: Seq<RevModel>,
    cursor: Ts,
    boundary: Ts,
    indexes: Seq<(u64, IndexInfoModel)>,
    i: int,
    index_id: u64,
    info: IndexInfoModel,
)
    requires
        log_wf(log),
        0 <= i < log.len(),
        log[i].doc is Some,
        log[i].ts < boundary,
        forall|j: int|
            0 <= j < log.len() && log[j].id == log[i].id && #[trigger] log[j].ts < boundary
                ==> log[j].ts <= log[i].ts,
        prev_rev(log, log[i].id, log[i].ts) is Some,
        prev_rev(log, log[i].id, log[i].ts)->Some_0.doc is Some,
        index_key(log[i].doc->Some_0, info.fields, log[i].id) == index_key(
            prev_rev(log, log[i].id, log[i].ts)->Some_0.doc->Some_0,
            info.fields,
            log[i].id,
        ),
        forall|t1: int, t2: int|
            0 <= t1 < t2 < indexes.len() ==> indexes[t1].0 != indexes[t2].0,
        indexes.contains((index_id, info)),
    ensures
        forall|m: EntryModel| #[trigger]
            expired_entries(log, cursor, boundary, indexes).contains(m) ==> !(m.index_id
                == index_id && m.ts == log[i].ts && m.key_prefix == split_prefix(
                index_key(log[i].doc->Some_0, info.fields, log[i].id),
            ) && m.key_suffix == split_suffix(
                index_key(log[i].doc->Some_0, info.fields, log[i].id),
            )),
{
    let r = log[i];
    let key = index_key(r.doc->Some_0, info.fields, r.id);
    let pred = range_pred(cursor, boundary);
    let revs = revs_in_range(log, cursor, boundary);
    assert forall|m: EntryModel| #[trigger]
        expired_entries(log, cursor, boundary, indexes).contains(m) implies !(m.index_id
        == index_id && m.ts == r.ts && m.key_prefix == split_prefix(key) && m.key_suffix
        == split_suffix(key)) by {
        if m.index_id == index_id && m.ts == r.ts && m.key_prefix == split_prefix(key)
            && m.key_suffix == split_suffix(key) {
            lemma_expired_for_revs_inversion(log, revs, indexes, m);
            let k = choose|k: int|
                0 <= k < revs.len() && #[trigger] entries_for_rev(log, revs[k], indexes).contains(
                    m,
                );
            let r2 = revs[k];
            lemma_filter_subset(log, pred);
            assert(revs.contains(r2));
            assert(log.contains(r2) && pred(r2));
            let p2 = prev_rev(log, r2.id, r2.ts)->Some_0;
            assert(prev_rev(log, r2.id, r2.ts) is Some && p2.doc is Some);
            lemma_prev_rev_some(log, r2.id, r2.ts);
            lemma_entries_for_rev_indexes_inversion(p2, r2, indexes, m);
            let t = choose|t: int|
                0 <= t < indexes.len() && #[trigger] entries_for_rev_index(
                    p2,
                    r2,
                    indexes[t].0,
                    indexes[t].1,
                ).contains(m);
            // A run's entries carry its index id; with distinct ids the
            // matching pair is the one given.
            assert(indexes[t].0 == index_id);
            let w = choose|w: int| 0 <= w < indexes.len() && indexes[w] == (index_id, info);
            assert(t == w) by {
                if t < w {
                    assert(indexes[t].0 != indexes[w].0);
                } else if w < t {
                    assert(indexes[w].0 != indexes[t].0);
                }
            }
            let key2 = index_key(p2.doc->Some_0, info.fields, r2.id);
            assert(m.key_prefix == split_prefix(key2) && m.key_suffix == split_suffix(key2));
            crate::keys::lemma_split_reassembles(key);
            crate::keys::lemma_split_reassembles(key2);
            assert(key2 == key);
            crate::keys::lemma_index_key_injective_in_id(
                p2.doc->Some_0,
                r.doc->Some_0,
                info.fields,
                r2.id,
                r.id,
            );
            assert(r2.id == r.id);
            if !m.deleted {
                // The row at the previous revision's timestamp: then a
                // newer revision of the document sits inside the range,
                // above this one — impossible for the newest revision.
                assert(p2.ts == r.ts);
                assert(p2.ts < r2.ts);
                assert(r2.ts < boundary);
                let j2 = choose|j2: int| 0 <= j2 < log.len() && log[j2] == r2;
                assert(log[j2].ts <= r.ts);
                assert(false);
            } else {
                // The tombstone at the revision's own timestamp: the
                // revision is this one, and its unchanged key suppressed
                // the tombstone.
                assert(r2.ts == r.ts);
                let j2 = choose|j2: int| 0 <= j2 < log.len() && log[j2] == r2;
                assert(r2.id == r.id && r2.ts == r.ts);
                assert(r2 == r) by {
                    if j2 != i {
                        if j2 < i {
                            assert(!(log[j2].id == log[i].id && log[j2].ts == log[i].ts));
                        } else {
                            assert(!(log[i].id == log[j2].id && log[i].ts == log[j2].ts));
                        }
                    }
                }
                assert(r2.doc is Some && index_key(r2.doc->Some_0, info.fields, r2.id) == key2);
                assert(false);
            }
        }
    }
}

/// What the deleter reads from the revision log: the reclaimable rows and
/// the number of inconsistencies that were skipped along the way.
pub struct ExpiredScan {
    pub entries: Vec<IndexEntry>,
    pub inconsistencies: usize,
}

/// Find the previous revision of `(id, ts)` in the log; returns its
/// position.
fn find_prev_rev(log: &Vec<Revision>, id: DocId, ts: Ts) -> (r: Option<usize>)
    ensures
        match r {
            Some(j) => j < log@.len() && prev_rev(rev_models(log@), id, ts) == Some(
                log@[j as int]@,
            ),
            None => prev_rev(rev_models(log@), id, ts) is None,
        },
{
    let ghost lm = rev_models(log@);
    let mut i: usize = log.len();
    proof {
        assert(lm.take(log@.len() as int) =~= lm);
    }
    while i > 0
        invariant
            i <= log@.len(),
            lm == rev_models(log@),
            prev_rev(lm, id, ts) == prev_rev(lm.take(i as int), id, ts),
        decreases i,
    {
        let j = i - 1;
        proof {
            assert(lm.take(i as int).last() == lm[j as int]);
            assert(lm.take(i as int).drop_last() =~= lm.take(j as int));
        }
        if log[j].id == id && log[j].ts < ts {
            return Some(j);
        }
        i = j;
    }
    proof {
        assert(lm.take(0) =~= Seq::<RevModel>::empty());
    }
    None
}

/// Walk the revisions of `[cursor, boundary)` and collect every index row
/// they make reclaimable, per the current index set. Inconsistent revisions
/// (a tombstone with a later revision) are skipped and counted, never
/// fatal: failing to reclaim a tombstone's rows cannot break a reader.
pub fn expired_index_entries(
    log: &Vec<Revision>,
    cursor: Ts,
    boundary: Ts,
    all_indexes: &IndexMap,
) -> (r: ExpiredScan)
    requires
        all_indexes.wf(),
    ensures
        entry_models(r.entries@) == expired_entries(
            rev_models(log@),
            cursor,
            boundary,
            all_indexes.models(),
        ),
        r.inconsistencies == expired_inconsistencies(rev_models(log@), cursor, boundary),
{
    let ghost lm = rev_models(log@);
    let ghost idx = all_indexes.models();
    let ghost pred = range_pred(cursor, boundary);
    let mut entries: Vec<IndexEntry> = Vec::new();
    let mut inconsistencies: usize = 0;
    let n: usize = log.len();
    let mut i: usize = 0;
    proof {
        assert(lm.skip(0) =~= lm);
        assert(entry_models(entries@) =~= Seq::<EntryModel>::empty());
        assert(entry_models(entries@) + expired_for_revs(lm, lm.skip(0).filter(pred), idx)
            =~= expired_for_revs(lm, lm.filter(pred), idx));
    }
    while i < n
        invariant
            i <= n,
            n == log@.len(),
            lm == rev_models(log@),
            idx == all_indexes.models(),
            pred == range_pred(cursor, boundary),
            all_indexes.wf(),
            expired_entries(lm, cursor, boundary, idx) == entry_models(entries@)
                + expired_for_revs(lm, lm.skip(i as int).filter(pred), idx),
            inconsistency_count(lm, lm.filter(pred)) == inconsistencies + inconsistency_count(
                lm,
                lm.skip(i as int).filter(pred),
            ),
            inconsistencies <= i,
        decreases n - i,
    {
        let ghost rm = lm[i as int];
        proof {
            assert(lm.skip(i as int) =~= seq![rm] + lm.skip(i + 1));
            lm.skip(i + 1).lemma_filter_prepend(rm, pred);
            if pred(rm) {
                assert((seq![rm] + lm.skip(i + 1).filter(pred))[0] == rm);
                assert((seq![rm] + lm.skip(i + 1).filter(pred)).drop_first() =~= lm.skip(i + 1)
                    .filter(pred));
            } else {
                assert(lm.skip(i as int).filter(pred) =~= lm.skip(i + 1).filter(pred));
            }
        }
        let rev_ts = log[i].ts;
        let rev_id = log[i].id;
        if cursor <= rev_ts && rev_ts < boundary {
            match find_prev_rev(log, rev_id, rev_ts) {
                None => {
                    // A fresh create, or a document created and deleted in
                    // one transaction: no index row was ever written.
                },
                Some(j) => match &log[j].doc {
                    None => {
                        // The previous revision is itself a tombstone but a
                        // later revision exists: inconsistent data. Skip it
                        // and keep going.
                        inconsistencies = inconsistencies + 1;
                    },
                    Some(prev_doc) => {
                        let ghost pm = lm[j as int];
                        let prev_ts = log[j].ts;
                        let m: usize = all_indexes.entries.len();
                        let mut k: usize = 0;
                        let ghost base = entry_models(entries@);
                        proof {
                            assert(idx.skip(0) =~= idx);
                            assert(base + entries_for_rev_indexes(pm, rm, idx) =~= entry_models(
                                entries@,
                            ) + entries_for_rev_indexes(pm, rm, idx.skip(0)));
                        }
                        while k < m
                            invariant
                                k <= m,
                                m == all_indexes.entries@.len(),
                                idx == all_indexes.models(),
                                lm == rev_models(log@),
                                n == log@.len(),
                                i < n,
                                j < n,
                                pm == lm[j as int],
                                rm == lm[i as int],
                                pm.doc is Some,
                                rm.id == rev_id,
                                rm.ts == rev_ts,
                                pm.ts == prev_ts,
                                pm.doc == Some(prev_doc@),
                                base + entries_for_rev_indexes(pm, rm, idx) == entry_models(
                                    entries@,
                                ) + entries_for_rev_indexes(pm, rm, idx.skip(k as int)),
                            decreases m - k,
                        {
                            proof {
                                assert(idx.skip(k as int)[0] == idx[k as int]);
                                assert(idx.skip(k as int).drop_first() =~= idx.skip(k + 1));
                                assert(idx[k as int] == (
                                    all_indexes.entries@[k as int].0,
                                    all_indexes.entries@[k as int].1@,
                                ));
                            }
                            let index_id = all_indexes.entries[k].0;
                            let info = &all_indexes.entries[k].1;
                            if info.table_id == rev_id.table {
                                let prev_key = prev_doc.index_key(&info.fields, rev_id);
                                let e1 = make_index_entry(index_id, &prev_key, prev_ts, false);
                                let ghost before = entry_models(entries@);
                                entries.push(e1);
                                proof {
                                    assert(entry_models(entries@) =~= before.push(e1@));
                                }
                                let emit_tombstone = match &log[i].doc {
                                    Some(doc) => {
                                        let next_key = doc.index_key(&info.fields, rev_id);
                                        !bytes_eq(&prev_key, &next_key)
                                    },
                                    None => true,
                                };
                                if emit_tombstone {
                                    let e2 = make_index_entry(index_id, &prev_key, rev_ts, true);
                                    let ghost before2 = entry_models(entries@);
                                    entries.push(e2);
                                    proof {
                                        assert(entry_models(entries@) =~= before2.push(e2@));
                                    }
                                }
                                proof {
                                    assert(entry_models(entries@) =~= before
                                        + entries_for_rev_index(pm, rm, index_id, info@));
                                    assert(entry_models(entries@) + entries_for_rev_indexes(
                                        pm,
                                        rm,
                                        idx.skip(k + 1),
                                    ) =~= before + entries_for_rev_indexes(pm, rm, idx.skip(
                                        k as int,
                                    )));
                                }
                            } else {
                                proof {
                                    assert(entries_for_rev_index(pm, rm, index_id, info@)
                                        =~= Seq::<EntryModel>::empty());
                                    assert(entry_models(entries@) + entries_for_rev_indexes(
                                        pm,
                                        rm,
                                        idx.skip(k + 1),
                                    ) =~= entry_models(entries@) + entries_for_rev_indexes(
                                        pm,
                                        rm,
                                        idx.skip(k as int),
                                    ));
                                }
                            }
                            k = k + 1;
                        }
                        proof {
                            assert(idx.skip(m as int) =~= Seq::<(u64, IndexInfoModel)>::empty());
                            assert(entries_for_rev_indexes(pm, rm, idx.skip(m as int))
                                =~= Seq::<EntryModel>::empty());
                            assert(entry_models(entries@) =~= base + entries_for_rev_indexes(
                                pm,
                                rm,
                                idx,
                            ));
                            assert(entries_for_rev(lm, rm, idx) == entries_for_rev_indexes(
                                pm,
                                rm,
                                idx,
                            ));
                        }
                    }
                },
            }
        }
        proof {
            if pred(rm) {
                assert(expired_for_revs(lm, lm.skip(i as int).filter(pred), idx)
                    == entries_for_rev(lm, rm, idx) + expired_for_revs(
                    lm,
                    lm.skip(i + 1).filter(pred),
                    idx,
                ));
                assert(inconsistency_count(lm, lm.skip(i as int).filter(pred)) == (if
                rev_inconsistent(lm, rm) {
                    1int
                } else {
                    0int
                }) + inconsistency_count(lm, lm.skip(i + 1).filter(pred)));
            }
            assert(entry_models(entries@) + expired_for_revs(lm, lm.skip(i + 1).filter(pred), idx)
                =~= expired_entries(lm, cursor, boundary, idx));
        }
        i = i + 1;
    }
    proof {
        assert(lm.skip(n as int) =~= Seq::<RevModel>::empty());
        assert(expired_for_revs(lm, lm.skip(n as int).filter(pred), idx)
            =~= Seq::<EntryModel>::empty());
        assert(entry_models(entries@) =~= expired_entries(lm, cursor, boundary, idx));
    }
    ExpiredScan { entries, inconsistencies }
}

} // verus!
