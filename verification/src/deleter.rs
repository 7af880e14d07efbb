//! The deletion pass: re-chunk the expired rows, partition each chunk into
//! shards by key hash so one key lands in one shard, delete shard by shard,
//! and track the cursor that says how far reclamation has provably reached.

use vstd::prelude::*;
use vstd::multiset::Multiset;
use crate::{RetentionConfig, Ts, TS_MIN};
use crate::keys::{IndexEntry, EntryModel, entry_models, copy_entry, rev_models, Revision};
use crate::index_set::IndexMap;
use crate::expired::{expired_entries, expired_index_entries, lemma_expired_ts_below};
use crate::store::{index_entries_to_delete, delete_index_entries};

verus! {

pub const FNV_OFFSET_BASIS: u64 = 0xcbf2_9ce4_8422_2325;

pub const FNV_PRIME: u64 = 0x0000_0100_0000_01b3;

/// The FNV-1a fold of a byte string, seeded with `h`.
pub open spec fn fnv1a(s: Seq<u8>, h: u64) -> u64
    decreases s.len(),
{
    if s.len() == 0 {
        h
    } else {
        fnv1a(s.drop_first(), (h ^ (s[0] as u64)).wrapping_mul(FNV_PRIME))
    }
}

/// The shard an entry belongs to among `n`: a function of its key hash
/// alone, so rows of one key always land in one shard.
pub open spec fn shard_index(m: EntryModel, n: usize) -> int
    recommends
        n >= 1,
{
    (fnv1a(m.key_sha256, FNV_OFFSET_BASIS) % (n as u64)) as int
}

/// Compute the shard of an entry.
fn shard_of(e: &IndexEntry, n: usize) -> (s: usize)
    requires
        n >= 1,
    ensures
        s as int == shard_index(e@, n),
        s < n,
{
    let bytes = &e.key_sha256;
    let len: usize = bytes.len();
    let mut h: u64 = FNV_OFFSET_BASIS;
    let mut i: usize = 0;
    proof {
        assert(bytes@.skip(0) =~= bytes@);
    }
    while i < len
        invariant
            i <= len,
            len == bytes@.len(),
            fnv1a(bytes@, FNV_OFFSET_BASIS) == fnv1a(bytes@.skip(i as int), h),
        decreases len - i,
    {
        proof {
            assert(bytes@.skip(i as int)[0] == bytes@[i as int]);
            assert(bytes@.skip(i as int).drop_first() =~= bytes@.skip(i + 1));
        }
        h = (h ^ (bytes[i] as u64)).wrapping_mul(FNV_PRIME);
        i = i + 1;
    }
    proof {
        assert(bytes@.skip(len as int) =~= Seq::<u8>::empty());
    }
    (h % (n as u64)) as usize
}

/// The rows a run of shards holds, all together.
pub open spec fn parts_models_multiset(parts: Seq<Vec<IndexEntry>>) -> Multiset<EntryModel>
    decreases parts.len(),
{
    if parts.len() == 0 {
        Multiset::empty()
    } else {
        entry_models(parts[0]@).to_multiset().add(parts_models_multiset(parts.drop_first()))
    }
}

/// Appending a shard adds its rows.
proof fn lemma_parts_multiset_push(parts: Seq<Vec<IndexEntry>>, v: Vec<IndexEntry>)
    ensures
        parts_models_multiset(parts.push(v)) =~= parts_models_multiset(parts).add(
            entry_models(v@).to_multiset(),
        ),
    decreases parts.len(),
{
    broadcast use vstd::multiset::group_multiset_axioms;

    let lhs = parts_models_multiset(parts.push(v));
    let rhs = parts_models_multiset(parts).add(entry_models(v@).to_multiset());
    if parts.len() == 0 {
        assert(parts.push(v)[0] == v);
        assert(parts.push(v).drop_first() =~= Seq::<Vec<IndexEntry>>::empty());
        assert forall|e: EntryModel| lhs.count(e) == rhs.count(e) by {
            let xv = entry_models(v@).to_multiset();
            let me = parts_models_multiset(Seq::<Vec<IndexEntry>>::empty());
            assert(lhs == xv.add(me));
            assert(xv.add(me).count(e) == xv.count(e) + me.count(e));
            assert(me == Multiset::<EntryModel>::empty());
            assert(Multiset::<EntryModel>::empty().count(e) == 0);
            assert(parts_models_multiset(parts) == Multiset::<EntryModel>::empty());
            assert(rhs.count(e) == parts_models_multiset(parts).count(e) + xv.count(e));
        }
        assert(lhs =~= rhs);
    } else {
        assert(parts.push(v)[0] == parts[0]);
        assert(parts.push(v).drop_first() =~= parts.drop_first().push(v));
        lemma_parts_multiset_push(parts.drop_first(), v);
        assert(parts_models_multiset(parts.push(v)) == entry_models(
            parts[0]@,
        ).to_multiset().add(parts_models_multiset(parts.drop_first().push(v))));
        assert(parts_models_multiset(parts) == entry_models(parts[0]@).to_multiset().add(
            parts_models_multiset(parts.drop_first()),
        ));
        assert forall|e: EntryModel| lhs.count(e) == rhs.count(e) by {
            let x0 = entry_models(parts[0]@).to_multiset();
            let md = parts_models_multiset(parts.drop_first());
            let xv = entry_models(v@).to_multiset();
            assert(lhs.count(e) == x0.count(e) + parts_models_multiset(
                parts.drop_first().push(v),
            ).count(e));
            assert(parts_models_multiset(parts.drop_first().push(v)).count(e) == md.add(
                xv,
            ).count(e));
            assert(md.add(xv).count(e) == md.count(e) + xv.count(e));
            assert(rhs.count(e) == parts_models_multiset(parts).count(e) + xv.count(e));
            assert(parts_models_multiset(parts).count(e) == x0.count(e) + md.count(e));
        }
        assert(lhs =~= rhs);
    }
}

/// Replacing one shard swaps its rows for the new ones.
proof fn lemma_parts_multiset_update(parts: Seq<Vec<IndexEntry>>, i: int, v: Vec<IndexEntry>)
    requires
        0 <= i < parts.len(),
    ensures
        parts_models_multiset(parts.update(i, v)).add(entry_models(parts[i]@).to_multiset())
            =~= parts_models_multiset(parts).add(entry_models(v@).to_multiset()),
    decreases parts.len(),
{
    broadcast use vstd::multiset::group_multiset_axioms;

    let lhs = parts_models_multiset(parts.update(i, v)).add(entry_models(parts[i]@).to_multiset());
    let rhs = parts_models_multiset(parts).add(entry_models(v@).to_multiset());
    if i == 0 {
        assert(parts.update(0, v)[0] == v);
        assert(parts.update(0, v).drop_first() =~= parts.drop_first());
        assert forall|e: EntryModel| lhs.count(e) == rhs.count(e) by {}
        assert(lhs =~= rhs);
    } else {
        assert(parts.update(i, v)[0] == parts[0]);
        assert(parts.update(i, v).drop_first() =~= parts.drop_first().update(i - 1, v));
        assert(parts.drop_first()[i - 1] == parts[i]);
        lemma_parts_multiset_update(parts.drop_first(), i - 1, v);
        assert(parts_models_multiset(parts.update(i, v)) == entry_models(
            parts[0]@,
        ).to_multiset().add(parts_models_multiset(parts.drop_first().update(i - 1, v))));
        assert(parts_models_multiset(parts) == entry_models(parts[0]@).to_multiset().add(
            parts_models_multiset(parts.drop_first()),
        ));
        assert forall|e: EntryModel| lhs.count(e) == rhs.count(e) by {
            let x0 = entry_models(parts[0]@).to_multiset();
            let xpi = entry_models(parts[i]@).to_multiset();
            let xv = entry_models(v@).to_multiset();
            let mdu = parts_models_multiset(parts.drop_first().update(i - 1, v));
            let md = parts_models_multiset(parts.drop_first());
            assert(lhs.count(e) == parts_models_multiset(parts.update(i, v)).count(e)
                + xpi.count(e));
            assert(parts_models_multiset(parts.update(i, v)).count(e) == x0.count(e) + mdu.count(
                e,
            ));
            assert(mdu.add(xpi).count(e) == md.add(xv).count(e));
            assert(mdu.add(xpi).count(e) == mdu.count(e) + xpi.count(e));
            assert(md.add(xv).count(e) == md.count(e) + xv.count(e));
            assert(rhs.count(e) == parts_models_multiset(parts).count(e) + xv.count(e));
            assert(parts_models_multiset(parts).count(e) == x0.count(e) + md.count(e));
        }
        assert(lhs =~= rhs);
    }
}

/// Partition a chunk into `n` shards so that each row lands in the shard
/// its key hash names, and only there; together the shards hold exactly
/// the chunk's rows.
pub fn partition_chunk(chunk: &Vec<IndexEntry>, n: usize) -> (parts: Vec<Vec<IndexEntry>>)
    requires
        n >= 1,
    ensures
        parts@.len() == n,
        forall|s: int, m: EntryModel|
            0 <= s < n && #[trigger] entry_models(parts@[s]@).contains(m) ==> entry_models(
                chunk@,
            ).contains(m) && shard_index(m, n) == s,
        forall|m: EntryModel| #[trigger]
            entry_models(chunk@).contains(m) ==> entry_models(
                parts@[shard_index(m, n)]@,
            ).contains(m),
        parts_models_multiset(parts@) == entry_models(chunk@).to_multiset(),
{
    broadcast use vstd::seq_lib::group_to_multiset_ensures;

    let mut parts: Vec<Vec<IndexEntry>> = Vec::new();
    let mut t: usize = 0;
    while t < n
        invariant
            t <= n,
            parts@.len() == t,
            forall|s: int| 0 <= s < t ==> #[trigger] parts@[s]@.len() == 0,
            parts_models_multiset(parts@) == Multiset::<EntryModel>::empty(),
        decreases n - t,
    {
        let ghost before_parts = parts@;
        parts.push(Vec::new());
        proof {
            broadcast use vstd::multiset::group_multiset_axioms;

            lemma_parts_multiset_push(before_parts, parts@.last());
            assert(entry_models(parts@.last()@) =~= Seq::<EntryModel>::empty());
            vstd::seq_lib::to_multiset_len(Seq::<EntryModel>::empty());
            assert(Seq::<EntryModel>::empty().to_multiset().len() == 0);
            vstd::multiset::lemma_multiset_empty_len(
                Seq::<EntryModel>::empty().to_multiset(),
            );
            assert(parts_models_multiset(parts@) =~= Multiset::<EntryModel>::empty()) by {
                assert forall|e: EntryModel|
                    parts_models_multiset(parts@).count(e) == 0 by {
                    assert(parts_models_multiset(parts@).count(e) == parts_models_multiset(
                        before_parts,
                    ).count(e) + entry_models(parts@.last()@).to_multiset().count(e));
                }
            }
        }
        t = t + 1;
    }
    let len: usize = chunk.len();
    let mut i: usize = 0;
    while i < len
        invariant
            i <= len,
            len == chunk@.len(),
            parts@.len() == n,
            n >= 1,
            forall|s: int, m: EntryModel|
                0 <= s < n && #[trigger] entry_models(parts@[s]@).contains(m) ==> entry_models(
                    chunk@,
                ).contains(m) && shard_index(m, n) == s,
            forall|k: int|
                0 <= k < i ==> entry_models(
                    parts@[shard_index(entry_models(chunk@)[k], n)]@,
                ).contains(#[trigger] entry_models(chunk@)[k]),
            parts_models_multiset(parts@) == entry_models(chunk@).take(i as int).to_multiset(),
        decreases len - i,
    {
        let s = shard_of(&chunk[i], n);
        let ghost oldparts = parts@;
        let mut part = parts.remove(s);
        let ghost pbefore = entry_models(part@);
        part.push(copy_entry(&chunk[i]));
        proof {
            assert(entry_models(part@) =~= pbefore.push(chunk@[i as int]@));
        }
        parts.insert(s, part);
        proof {
            broadcast use vstd::multiset::group_multiset_axioms;

            assert(parts@ =~= oldparts.update(s as int, parts@[s as int]));
            assert(entry_models(chunk@)[i as int] == chunk@[i as int]@);
            assert(entry_models(chunk@).contains(chunk@[i as int]@));
            lemma_parts_multiset_update(oldparts, s as int, parts@[s as int]);
            assert(entry_models(parts@[s as int]@) =~= pbefore.push(chunk@[i as int]@));
            vstd::seq_lib::to_multiset_build(pbefore, chunk@[i as int]@);
            assert(pbefore.push(chunk@[i as int]@).to_multiset() =~= pbefore.to_multiset().insert(
                chunk@[i as int]@,
            ));
            assert(entry_models(oldparts[s as int]@) == pbefore);
            assert(entry_models(parts@[s as int]@).to_multiset() == pbefore.to_multiset().insert(
                chunk@[i as int]@,
            ));
            assert(parts_models_multiset(parts@) =~= parts_models_multiset(oldparts).insert(
                chunk@[i as int]@,
            )) by {
                let a = parts_models_multiset(parts@);
                let b = parts_models_multiset(oldparts);
                let x = pbefore.to_multiset();
                assert(a.add(x) =~= b.add(x.insert(chunk@[i as int]@)));
                assert forall|e: EntryModel| a.count(e) == b.insert(
                    chunk@[i as int]@,
                ).count(e) by {
                    assert(a.add(x).count(e) == b.add(x.insert(chunk@[i as int]@)).count(e));
                }
            }
            assert(entry_models(chunk@).take(i as int).push(chunk@[i as int]@) =~= entry_models(
                chunk@,
            ).take(i + 1));
            vstd::seq_lib::to_multiset_build(
                entry_models(chunk@).take(i as int),
                chunk@[i as int]@,
            );
            assert(entry_models(chunk@).take(i as int).push(chunk@[i as int]@).to_multiset()
                =~= entry_models(chunk@).take(i as int).to_multiset().insert(chunk@[i as int]@));
            assert(parts_models_multiset(parts@) == entry_models(chunk@).take(i + 1).to_multiset());
            assert forall|s2: int, m: EntryModel|
                0 <= s2 < n && #[trigger] entry_models(parts@[s2]@).contains(m) implies
                entry_models(chunk@).contains(m) && shard_index(m, n) == s2 by {
                if s2 == s {
                    let t2 = choose|t2: int|
                        0 <= t2 < entry_models(parts@[s2]@).len() && entry_models(parts@[s2]@)[t2]
                            == m;
                    if t2 < pbefore.len() {
                        assert(pbefore[t2] == m);
                        assert(entry_models(oldparts[s2]@).contains(m));
                    } else {
                        assert(m == chunk@[i as int]@);
                    }
                } else {
                    assert(parts@[s2] == oldparts[s2]);
                }
            }
            assert forall|k: int|
                0 <= k < i + 1 implies entry_models(
                parts@[shard_index(entry_models(chunk@)[k], n)]@,
            ).contains(#[trigger] entry_models(chunk@)[k]) by {
                let m = entry_models(chunk@)[k];
                let s2 = shard_index(m, n);
                if k == i {
                    assert(entry_models(parts@[s2]@).last() == m);
                } else {
                    assert(entry_models(oldparts[s2]@).contains(m));
                    if s2 == s {
                        let t2 = choose|t2: int|
                            0 <= t2 < pbefore.len() && pbefore[t2] == m;
                        assert(entry_models(parts@[s2]@)[t2] == m);
                    } else {
                        assert(parts@[s2] == oldparts[s2]);
                    }
                }
            }
        }
        i = i + 1;
    }
    proof {
        assert forall|m: EntryModel| #[trigger]
            entry_models(chunk@).contains(m) implies entry_models(
            parts@[shard_index(m, n)]@,
        ).contains(m) by {
            let k = choose|k: int|
                0 <= k < entry_models(chunk@).len() && entry_models(chunk@)[k] == m;
        }
        assert(entry_models(chunk@).take(len as int) =~= entry_models(chunk@));
    }
    parts
}

/// Delete one shard's rows: ask the store which candidates exist, advance
/// the cursor past every timestamp whose row is provably reclaimed, then
/// issue the bulk delete. In this model the store's query returns a subset
/// of the candidates by construction, so the "more rows than requested"
/// report of a loose backend cannot arise.
fn delete_chunk(shard: &Vec<IndexEntry>, store: &mut Vec<IndexEntry>, new_cursor: Ts) -> (r: (
    Ts,
    usize,
))
    ensures
        forall|m: EntryModel| #[trigger]
            entry_models(final(store)@).contains(m) <==> (entry_models(old(store)@).contains(m)
                && !entry_models(shard@).contains(m)),
        final(store)@.len() + r.1 == old(store)@.len(),
        r.0 >= new_cursor,
        r.0 == new_cursor || (exists|m: EntryModel| #[trigger]
            entry_models(shard@).contains(m) && entry_models(old(store)@).contains(m) && m.ts > 0
                && r.0 == m.ts - 1),
        forall|m: EntryModel|
            entry_models(shard@).contains(m) && entry_models(old(store)@).contains(m) && m.ts > 0
                ==> r.0 >= #[trigger] m.ts - 1,
        (forall|m: EntryModel| #[trigger]
            entry_models(old(store)@).contains(m) ==> !entry_models(shard@).contains(m)) ==> (
        entry_models(final(store)@) == entry_models(old(store)@) && r.1 == 0 && r.0 == new_cursor),
{
    let existing = index_entries_to_delete(store, shard);
    let mut nc: Ts = new_cursor;
    let en: usize = existing.len();
    let mut j: usize = 0;
    while j < en
        invariant
            j <= en,
            en == existing@.len(),
            nc >= new_cursor,
            nc == new_cursor || (exists|m: EntryModel| #[trigger]
                entry_models(existing@).contains(m) && m.ts > 0 && nc == m.ts - 1),
            forall|k: int|
                0 <= k < j && entry_models(existing@)[k].ts > 0 ==> nc >= #[trigger] entry_models(
                    existing@,
                )[k].ts - 1,
        decreases en - j,
    {
        let ts = existing[j].ts;
        proof {
            assert(entry_models(existing@)[j as int] == existing@[j as int]@);
        }
        if ts > TS_MIN {
            let cand = ts - 1;
            if cand > nc {
                nc = cand;
                proof {
                    assert(entry_models(existing@).contains(existing@[j as int]@));
                }
            }
        }
        j = j + 1;
    }
    let deleted: usize;
    if existing.len() > 0 {
        proof {
            assert(entry_models(existing@)[0] == existing@[0]@);
            assert(entry_models(existing@).contains(existing@[0]@));
        }
        deleted = delete_index_entries(store, &existing);
    } else {
        deleted = 0;
        proof {
            assert(forall|m: EntryModel| !entry_models(existing@).contains(m));
        }
    }
    proof {
        if existing@.len() == 0 {
            assert forall|m: EntryModel| #[trigger]
                entry_models(store@).contains(m) <==> (entry_models(old(store)@).contains(m)
                    && !entry_models(shard@).contains(m)) by {
                if entry_models(old(store)@).contains(m) && entry_models(shard@).contains(m) {
                    assert(entry_models(existing@).contains(m));
                }
            }
        } else {
            assert forall|m: EntryModel| #[trigger]
                entry_models(store@).contains(m) <==> (entry_models(old(store)@).contains(m)
                    && !entry_models(shard@).contains(m)) by {
                if entry_models(old(store)@).contains(m) && entry_models(shard@).contains(m) {
                    assert(entry_models(existing@).contains(m));
                }
                if entry_models(old(store)@).contains(m) && !entry_models(shard@).contains(m) {
                    assert(!entry_models(existing@).contains(m));
                }
            }
        }
        assert forall|m: EntryModel|
            entry_models(shard@).contains(m) && entry_models(old(store)@).contains(m) && m.ts
                > 0 implies nc >= m.ts - 1 by {
            assert(entry_models(existing@).contains(m));
            let k = choose|k: int|
                0 <= k < entry_models(existing@).len() && entry_models(existing@)[k] == m;
        }
    }
    (nc, deleted)
}

/// Whether one of the first `s` shards holds a row with this model.
pub open spec fn in_some_shard(parts: Seq<Vec<IndexEntry>>, s: int, m: EntryModel) -> bool {
    exists|t: int| 0 <= t < s && #[trigger] entry_models(parts[t]@).contains(m)
}

/// What one deletion pass reports back.
pub struct DeleteResult {
    /// Every index row at this timestamp and below is reclaimed, as far as
    /// this pass can tell.
    pub new_cursor: Ts,
    /// How many expired rows the pass processed.
    pub total_expired: usize,
    /// How many rows actually left the store.
    pub deleted_rows: usize,
    /// Whether the pass drained the whole range, or returned early to let
    /// the caller re-checkpoint.
    pub finished: bool,
}

/// One deletion pass over `[cursor, min_snapshot_ts)`.
///
/// When it runs to completion, every expired row of the range has left the
/// store and nothing else has; when it returns early, only expired rows
/// have left. A pass over a store already clean of the range's expired
/// rows deletes nothing and leaves the store as it found it, so the pass
/// is idempotent. With deletions disabled, or with no boundary yet, it does
/// no work at all.
pub fn delete(
    min_snapshot_ts: Ts,
    store: &mut Vec<IndexEntry>,
    cursor: Ts,
    all_indexes: &IndexMap,
    log: &Vec<Revision>,
    config: &RetentionConfig,
) -> (r: DeleteResult)
    requires
        all_indexes.wf(),
        config.wf(),
        (config.retention_deletes_enabled && min_snapshot_ts != TS_MIN) ==> cursor
            < min_snapshot_ts,
    ensures
        (!config.retention_deletes_enabled || min_snapshot_ts == TS_MIN) ==> (r.new_cursor
            == cursor && r.total_expired == 0 && r.deleted_rows == 0 && r.finished
            && final(store)@ == old(store)@),
        forall|m: EntryModel| #[trigger]
            entry_models(final(store)@).contains(m) ==> entry_models(old(store)@).contains(m),
        forall|m: EntryModel|
            entry_models(old(store)@).contains(m) && !expired_entries(
                rev_models(log@),
                cursor,
                min_snapshot_ts,
                all_indexes.models(),
            ).contains(m) ==> #[trigger] entry_models(final(store)@).contains(m),
        (r.finished && config.retention_deletes_enabled && min_snapshot_ts != TS_MIN) ==> (
        (forall|m: EntryModel| #[trigger]
            entry_models(final(store)@).contains(m) <==> (entry_models(old(store)@).contains(m)
                && !expired_entries(
                rev_models(log@),
                cursor,
                min_snapshot_ts,
                all_indexes.models(),
            ).contains(m))) && r.new_cursor == min_snapshot_ts - 1 && r.total_expired
            == expired_entries(
            rev_models(log@),
            cursor,
            min_snapshot_ts,
            all_indexes.models(),
        ).len()),
        r.new_cursor >= cursor,
        r.new_cursor == cursor || r.new_cursor < min_snapshot_ts,
        !r.finished ==> r.new_cursor > cursor && r.total_expired
            >= config.retention_delete_batch,
        (config.retention_deletes_enabled && min_snapshot_ts != TS_MIN) ==> (r.finished
            <==> r.new_cursor == min_snapshot_ts - 1),
        r.total_expired <= expired_entries(
            rev_models(log@),
            cursor,
            min_snapshot_ts,
            all_indexes.models(),
        ).len(),
        (forall|m: EntryModel| #[trigger]
            entry_models(old(store)@).contains(m) ==> !expired_entries(
                rev_models(log@),
                cursor,
                min_snapshot_ts,
                all_indexes.models(),
            ).contains(m)) ==> (entry_models(final(store)@) == entry_models(old(store)@)
            && r.deleted_rows == 0 && r.finished),
{
    if !config.retention_deletes_enabled || min_snapshot_ts == TS_MIN {
        return DeleteResult { new_cursor: cursor, total_expired: 0, deleted_rows: 0, finished: true };
    }
    let ghost em = expired_entries(
        rev_models(log@),
        cursor,
        min_snapshot_ts,
        all_indexes.models(),
    );
    let ghost store0 = store@;
    proof {
        lemma_expired_ts_below(rev_models(log@), cursor, min_snapshot_ts, all_indexes.models());
    }
    let scan = expired_index_entries(log, cursor, min_snapshot_ts, all_indexes);
    let expired = scan.entries;
    let total_len: usize = expired.len();
    let initial_len: usize = store.len();
    let n_parallel = config.retention_delete_parallel;
    let mut pos: usize = 0;
    let mut deleted_rows: usize = 0;
    let mut new_cursor: Ts = cursor;
    proof {
        assert(em.take(0) =~= Seq::<EntryModel>::empty());
    }
    while pos < total_len
        invariant
            pos <= total_len,
            total_len == expired@.len(),
            entry_models(expired@) == em,
            em == expired_entries(
                rev_models(log@),
                cursor,
                min_snapshot_ts,
                all_indexes.models(),
            ),
            forall|m: EntryModel| #[trigger] em.contains(m) ==> m.ts < min_snapshot_ts,
            n_parallel == config.retention_delete_parallel,
            n_parallel >= 1,
            config.retention_delete_chunk >= 1,
            config.retention_deletes_enabled,
            min_snapshot_ts != TS_MIN,
            cursor < min_snapshot_ts,
            store0 == old(store)@,
            store0.len() == initial_len,
            store@.len() + deleted_rows == store0.len(),
            forall|m: EntryModel| #[trigger]
                entry_models(store@).contains(m) <==> (entry_models(store0).contains(m)
                    && !em.take(pos as int).contains(m)),
            new_cursor >= cursor,
            new_cursor == cursor || (exists|m: EntryModel| #[trigger]
                em.contains(m) && m.ts > 0 && new_cursor == m.ts - 1),
            (forall|m: EntryModel| #[trigger]
                entry_models(store0).contains(m) ==> !em.contains(m)) ==> (entry_models(store@)
                == entry_models(store0) && deleted_rows == 0 && new_cursor == cursor),
        decreases total_len - pos,
    {
        let remaining = total_len - pos;
        let step = if config.retention_delete_chunk < remaining {
            config.retention_delete_chunk
        } else {
            remaining
        };
        let end = pos + step;
        let mut chunk: Vec<IndexEntry> = Vec::new();
        let mut p: usize = pos;
        proof {
            assert(entry_models(chunk@) =~= em.subrange(pos as int, pos as int));
        }
        while p < end
            invariant
                pos <= p <= end,
                end <= total_len == expired@.len(),
                entry_models(expired@) == em,
                entry_models(chunk@) == em.subrange(pos as int, p as int),
            decreases end - p,
        {
            let ghost before = entry_models(chunk@);
            chunk.push(copy_entry(&expired[p]));
            proof {
                assert(entry_models(chunk@) =~= before.push(expired@[p as int]@));
                assert(entry_models(expired@)[p as int] == expired@[p as int]@);
                assert(em.subrange(pos as int, p as int).push(em[p as int]) =~= em.subrange(
                    pos as int,
                    p + 1,
                ));
            }
            p = p + 1;
        }
        let ghost chunk_models = entry_models(chunk@);
        proof {
            assert forall|m: EntryModel| #[trigger] chunk_models.contains(m) implies em.contains(
                m,
            ) by {
                let t = choose|t: int| 0 <= t < chunk_models.len() && chunk_models[t] == m;
                assert(em[pos + t] == m);
            }
        }
        let parts = partition_chunk(&chunk, n_parallel);
        let ghost sc = entry_models(store@);
        let mut s: usize = 0;
        while s < n_parallel
            invariant
                s <= n_parallel,
                parts@.len() == n_parallel,
                n_parallel >= 1,
                cursor < min_snapshot_ts,
                chunk_models == entry_models(chunk@),
                forall|s2: int, m: EntryModel|
                    0 <= s2 < n_parallel && #[trigger] entry_models(parts@[s2]@).contains(m)
                        ==> chunk_models.contains(m) && shard_index(m, n_parallel) == s2,
                forall|m: EntryModel| #[trigger]
                    chunk_models.contains(m) ==> entry_models(
                        parts@[shard_index(m, n_parallel)]@,
                    ).contains(m),
                store0.len() == initial_len,
                store@.len() + deleted_rows == store0.len(),
                forall|m: EntryModel| #[trigger]
                    entry_models(store@).contains(m) <==> (sc.contains(m) && !in_some_shard(
                        parts@,
                        s as int,
                        m,
                    )),
                forall|m: EntryModel| #[trigger] sc.contains(m) ==> entry_models(store0).contains(m),
                new_cursor >= cursor,
                new_cursor == cursor || (exists|m: EntryModel| #[trigger]
                    em.contains(m) && m.ts > 0 && new_cursor == m.ts - 1),
                forall|m: EntryModel| #[trigger] em.contains(m) ==> m.ts < min_snapshot_ts,
                forall|m: EntryModel| #[trigger] chunk_models.contains(m) ==> em.contains(m),
                (forall|m: EntryModel| #[trigger]
                    entry_models(store0).contains(m) ==> !em.contains(m)) ==> (entry_models(
                    store@,
                ) == entry_models(store0) && sc == entry_models(store0) && deleted_rows == 0
                    && new_cursor == cursor),
            decreases n_parallel - s,
        {
            let ghost sbefore = entry_models(store@);
            let ghost nc_before = new_cursor;
            let (nc2, d) = delete_chunk(&parts[s], store, new_cursor);
            new_cursor = nc2;
            deleted_rows = deleted_rows + d;
            proof {
                let ghost shard = entry_models(parts@[s as int]@);
                assert forall|m: EntryModel| #[trigger]
                    entry_models(store@).contains(m) implies (sc.contains(m) && !in_some_shard(
                    parts@,
                    s + 1,
                    m,
                )) by {
                    assert(sbefore.contains(m));
                    assert(!shard.contains(m));
                    if in_some_shard(parts@, s + 1, m) {
                        let t = choose|t: int|
                            0 <= t < s + 1 && #[trigger] entry_models(parts@[t]@).contains(m);
                        assert(t < s && entry_models(parts@[t]@).contains(m));
                        assert(in_some_shard(parts@, s as int, m));
                    }
                }
                assert forall|m: EntryModel|
                    sc.contains(m) && !in_some_shard(parts@, s + 1, m) implies #[trigger]
                    entry_models(store@).contains(m) by {
                    assert(!entry_models(parts@[s as int]@).contains(m));
                    if in_some_shard(parts@, s as int, m) {
                        let t = choose|t: int|
                            0 <= t < s && #[trigger] entry_models(parts@[t]@).contains(m);
                        assert(in_some_shard(parts@, s + 1, m));
                    }
                    assert(sbefore.contains(m));
                }
                if new_cursor != cursor {
                    if nc2 == nc_before {
                    } else {
                        let w = choose|m: EntryModel| #[trigger]
                            entry_models(parts@[s as int]@).contains(m) && m.ts > 0 && nc2 == m.ts
                                - 1;
                        assert(em.contains(w));
                    }
                }
                if forall|m: EntryModel| #[trigger]
                    entry_models(store0).contains(m) ==> !em.contains(m) {
                    assert forall|m: EntryModel| #[trigger]
                        sbefore.contains(m) implies !entry_models(parts@[s as int]@).contains(
                        m,
                    ) by {
                        assert(entry_models(store0).contains(m));
                        if entry_models(parts@[s as int]@).contains(m) {
                            assert(chunk_models.contains(m));
                            assert(em.contains(m));
                        }
                    }
                    assert(entry_models(store@) == sbefore);
                    assert(d == 0);
                    assert(nc2 == nc_before);
                }
            }
            s = s + 1;
        }
        proof {
            assert forall|m: EntryModel| #[trigger]
                entry_models(store@).contains(m) <==> (entry_models(store0).contains(m)
                    && !em.take(end as int).contains(m)) by {
                assert forall|m2: EntryModel|
                    in_some_shard(parts@, n_parallel as int, m2) <==> chunk_models.contains(
                    m2,
                ) by {
                    if in_some_shard(parts@, n_parallel as int, m2) {
                        let t = choose|t: int|
                            0 <= t < n_parallel && #[trigger] entry_models(parts@[t]@).contains(m2);
                    }
                    if chunk_models.contains(m2) {
                        let si = shard_index(m2, n_parallel);
                        assert(entry_models(parts@[si]@).contains(m2));
                        assert(in_some_shard(parts@, n_parallel as int, m2));
                    }
                }
                assert forall|m2: EntryModel| #[trigger]
                    em.take(end as int).contains(m2) <==> (em.take(pos as int).contains(m2)
                        || chunk_models.contains(m2)) by {
                    if em.take(end as int).contains(m2) {
                        let t = choose|t: int|
                            0 <= t < end && #[trigger] em.take(end as int)[t] == m2;
                        if t < pos {
                            assert(em.take(pos as int)[t] == m2);
                        } else {
                            assert(chunk_models[t - pos] == m2);
                        }
                    }
                    if em.take(pos as int).contains(m2) {
                        let t = choose|t: int|
                            0 <= t < pos && #[trigger] em.take(pos as int)[t] == m2;
                        assert(em.take(end as int)[t] == m2);
                    }
                    if chunk_models.contains(m2) {
                        let t = choose|t: int|
                            0 <= t < chunk_models.len() && #[trigger] chunk_models[t] == m2;
                        assert(em.take(end as int)[pos + t] == m2);
                    }
                }
            }
        }
        pos = end;
        if new_cursor > cursor && pos >= config.retention_delete_batch {
            proof {
                assert forall|m: EntryModel| #[trigger]
                    em.take(pos as int).contains(m) implies em.contains(m) by {
                    let t = choose|t: int| 0 <= t < pos && #[trigger] em.take(pos as int)[t] == m;
                    assert(em[t] == m);
                }
            }
            return DeleteResult { new_cursor, total_expired: pos, deleted_rows, finished: false };
        }
        proof {
            assert forall|m: EntryModel| #[trigger]
                em.take(pos as int).contains(m) implies em.contains(m) by {
                let t = choose|t: int| 0 <= t < pos && #[trigger] em.take(pos as int)[t] == m;
                assert(em[t] == m);
            }
        }
    }
    proof {
        assert(em.take(total_len as int) =~= em);
    }
    DeleteResult {
        new_cursor: min_snapshot_ts - 1,
        total_expired: total_len,
        deleted_rows,
        finished: true,
    }
}

/// Law: a full deletion pass is idempotent. Once a pass has removed the
/// range's expired rows from a store, the store holds none of them, so a
/// second pass over the same range leaves the store exactly as the first
/// one did.
pub proof fn lemma_delete_idempotent(
    store0: Seq<EntryModel>,
    store1: Seq<EntryModel>,
    store2: Seq<EntryModel>,
    expired: Seq<EntryModel>,
)
    requires
        forall|m: EntryModel| #[trigger]
            store1.contains(m) <==> (store0.contains(m) && !expired.contains(m)),
        forall|m: EntryModel| #[trigger]
            store2.contains(m) <==> (store1.contains(m) && !expired.contains(m)),
    ensures
        forall|m: EntryModel| #[trigger] store2.contains(m) <==> store1.contains(m),
        forall|m: EntryModel| #[trigger] store1.contains(m) ==> !expired.contains(m),
{
}

} // verus!
