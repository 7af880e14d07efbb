//! The write side of the persistence layer, modelled: the table of index
//! rows the deleter queries and deletes from. The surrounding process keeps
//! its rows in this shape and applies the same operations to its durable
//! backend.

use vstd::prelude::*;
use crate::keys::{IndexEntry, EntryModel, entry_models, entry_eq, copy_entry};

verus! {

/// Whether the run of rows holds a row with this model.
pub fn contains_entry(store: &Vec<IndexEntry>, e: &IndexEntry) -> (r: bool)
    ensures
        r == entry_models(store@).contains(e@),
{
    let n: usize = store.len();
    let mut i: usize = 0;
    while i < n
        invariant
            i <= n,
            n == store@.len(),
            forall|k: int| 0 <= k < i ==> entry_models(store@)[k] != e@,
        decreases n - i,
    {
        if entry_eq(&store[i], e) {
            proof {
                assert(entry_models(store@)[i as int] == e@);
            }
            return true;
        }
        i = i + 1;
    }
    proof {
        assert(forall|k: int| 0 <= k < entry_models(store@).len() ==> entry_models(store@)[k]
            != e@);
    }
    false
}

/// Which of the candidate rows actually exist in the store: the
/// `index_entries_to_delete` query of the persistence layer. The result is
/// the candidates filtered by membership, so it never exceeds the
/// candidates handed in.
pub fn index_entries_to_delete(store: &Vec<IndexEntry>, candidates: &Vec<IndexEntry>) -> (r: Vec<
    IndexEntry,
>)
    ensures
        forall|m: EntryModel| #[trigger]
            entry_models(r@).contains(m) ==> entry_models(candidates@).contains(m) && entry_models(
                store@,
            ).contains(m),
        forall|m: EntryModel|
            entry_models(candidates@).contains(m) && entry_models(store@).contains(m)
                ==> #[trigger] entry_models(r@).contains(m),
        r@.len() <= candidates@.len(),
{
    let n: usize = candidates.len();
    let mut r: Vec<IndexEntry> = Vec::new();
    let mut i: usize = 0;
    while i < n
        invariant
            i <= n,
            n == candidates@.len(),
            r@.len() <= i,
            forall|m: EntryModel| #[trigger]
                entry_models(r@).contains(m) ==> entry_models(candidates@).contains(m)
                    && entry_models(store@).contains(m),
            forall|k: int|
                0 <= k < i && entry_models(store@).contains(#[trigger] entry_models(candidates@)[k])
                    ==> entry_models(r@).contains(entry_models(candidates@)[k]),
        decreases n - i,
    {
        if contains_entry(store, &candidates[i]) {
            let ghost before = entry_models(r@);
            r.push(copy_entry(&candidates[i]));
            proof {
                assert(entry_models(r@) =~= before.push(candidates@[i as int]@));
                assert(entry_models(candidates@)[i as int] == candidates@[i as int]@);
                assert(entry_models(candidates@).contains(candidates@[i as int]@));
                assert forall|m: EntryModel| #[trigger]
                    entry_models(r@).contains(m) implies entry_models(candidates@).contains(m)
                    && entry_models(store@).contains(m) by {
                    if m != candidates@[i as int]@ {
                        let t = choose|t: int|
                            0 <= t < entry_models(r@).len() && entry_models(r@)[t] == m;
                        assert(before[t] == m);
                        assert(before.contains(m));
                    }
                }
                assert forall|m: EntryModel| before.contains(m) implies entry_models(r@).contains(
                    m,
                ) by {
                    let t = choose|t: int| 0 <= t < before.len() && before[t] == m;
                    assert(entry_models(r@)[t] == m);
                }
                assert(entry_models(r@).contains(entry_models(candidates@)[i as int])) by {
                    assert(entry_models(r@).last() == candidates@[i as int]@);
                }
            }
        } else {
            proof {
                assert(entry_models(candidates@)[i as int] == candidates@[i as int]@);
            }
        }
        i = i + 1;
    }
    proof {
        assert forall|m: EntryModel|
            entry_models(candidates@).contains(m) && entry_models(store@).contains(
                m,
            ) implies #[trigger] entry_models(r@).contains(m) by {
            let k = choose|k: int|
                0 <= k < entry_models(candidates@).len() && entry_models(candidates@)[k] == m;
            assert(entry_models(r@).contains(entry_models(candidates@)[k]));
        }
    }
    r
}

/// Delete the given rows from the store: the `delete_index_entries` bulk
/// write of the persistence layer. Returns how many rows left the store.
/// A store that holds none of the doomed rows comes back unchanged.
pub fn delete_index_entries(store: &mut Vec<IndexEntry>, doomed: &Vec<IndexEntry>) -> (deleted:
    usize)
    ensures
        forall|m: EntryModel| #[trigger]
            entry_models(final(store)@).contains(m) <==> (entry_models(old(store)@).contains(m)
                && !entry_models(doomed@).contains(m)),
        final(store)@.len() + deleted == old(store)@.len(),
        (forall|m: EntryModel| #[trigger]
            entry_models(old(store)@).contains(m) ==> !entry_models(doomed@).contains(m)) ==> (
        entry_models(final(store)@) == entry_models(old(store)@) && deleted == 0),
{
    let n: usize = store.len();
    let mut kept: Vec<IndexEntry> = Vec::new();
    let mut i: usize = 0;
    while i < n
        invariant
            i <= n,
            n == store@.len(),
            store@ == old(store)@,
            kept@.len() <= i,
            forall|m: EntryModel| #[trigger]
                entry_models(kept@).contains(m) ==> (entry_models(store@).contains(m)
                    && !entry_models(doomed@).contains(m)),
            forall|k: int|
                0 <= k < i && !entry_models(doomed@).contains(
                    #[trigger] entry_models(store@)[k],
                ) ==> entry_models(kept@).contains(entry_models(store@)[k]),
            (forall|m: EntryModel| #[trigger]
                entry_models(store@).contains(m) ==> !entry_models(doomed@).contains(m))
                ==> entry_models(kept@) == entry_models(store@).take(i as int),
        decreases n - i,
    {
        if !contains_entry(doomed, &store[i]) {
            let ghost before = entry_models(kept@);
            kept.push(copy_entry(&store[i]));
            proof {
                assert(entry_models(kept@) =~= before.push(store@[i as int]@));
                assert(entry_models(store@)[i as int] == store@[i as int]@);
                assert(entry_models(store@).contains(store@[i as int]@));
                assert forall|m: EntryModel| #[trigger]
                    entry_models(kept@).contains(m) implies (entry_models(store@).contains(m)
                    && !entry_models(doomed@).contains(m)) by {
                    if m != store@[i as int]@ {
                        let t = choose|t: int|
                            0 <= t < entry_models(kept@).len() && entry_models(kept@)[t] == m;
                        assert(before[t] == m);
                        assert(before.contains(m));
                    }
                }
                assert forall|m: EntryModel| before.contains(m) implies entry_models(
                    kept@,
                ).contains(m) by {
                    let t = choose|t: int| 0 <= t < before.len() && before[t] == m;
                    assert(entry_models(kept@)[t] == m);
                }
                assert(entry_models(kept@).contains(entry_models(store@)[i as int])) by {
                    assert(entry_models(kept@).last() == store@[i as int]@);
                }
                assert(entry_models(store@).take(i as int).push(store@[i as int]@)
                    =~= entry_models(store@).take(i + 1));
            }
        } else {
            proof {
                assert(entry_models(store@)[i as int] == store@[i as int]@);
                assert(entry_models(store@).contains(store@[i as int]@));
            }
        }
        i = i + 1;
    }
    let deleted = n - kept.len();
    proof {
        assert forall|m: EntryModel| #[trigger]
            entry_models(store@).contains(m) && !entry_models(doomed@).contains(
                m,
            ) implies entry_models(kept@).contains(m) by {
            let k = choose|k: int|
                0 <= k < entry_models(store@).len() && entry_models(store@)[k] == m;
            assert(entry_models(kept@).contains(entry_models(store@)[k]));
        }
        assert((forall|m: EntryModel| #[trigger]
            entry_models(store@).contains(m) ==> !entry_models(doomed@).contains(m)) ==> (
        entry_models(kept@) =~= entry_models(store@))) by {
            if forall|m: EntryModel| #[trigger]
                entry_models(store@).contains(m) ==> !entry_models(doomed@).contains(m) {
                assert(entry_models(kept@) == entry_models(store@).take(n as int));
                assert(entry_models(store@).take(n as int) =~= entry_models(store@));
            }
        }
    }
    *store = kept;
    deleted
}

} // verus!
