//! The set of indexes the deleter must delete from, keyed by index id and
//! ordered by it. It only ever grows: entries must survive even after an
//! index is dropped or falls back to backfilling, because rows of that index
//! may still await reclamation.

use vstd::prelude::*;

verus! {

/// What the deleter needs to know of one index: the table it covers and the
/// fields it indexes.
#[derive(Debug, Clone)]
pub struct IndexInfo {
    pub table_id: u64,
    pub fields: Vec<u64>,
}

/// Spec-level mirror of `IndexInfo`.
pub ghost struct IndexInfoModel {
    pub table_id: u64,
    pub fields: Seq<u64>,
}

impl View for IndexInfo {
    type V = IndexInfoModel;

    open spec fn view(&self) -> IndexInfoModel {
        IndexInfoModel { table_id: self.table_id, fields: self.fields@ }
    }
}

/// The models of a run of keyed index descriptions.
pub open spec fn index_models(s: Seq<(u64, IndexInfo)>) -> Seq<(u64, IndexInfoModel)> {
    s.map_values(|p: (u64, IndexInfo)| (p.0, p.1@))
}

/// Whether a run of keyed index descriptions holds `key`.
pub open spec fn seq_has_key(s: Seq<(u64, IndexInfoModel)>, key: u64) -> bool {
    exists|i: int| 0 <= i < s.len() && s[i].0 == key
}

/// Insertion into a key-sorted run, at spec level: what `IndexMap::insert`
/// leaves behind.
pub open spec fn insert_sorted(
    s: Seq<(u64, IndexInfoModel)>,
    key: u64,
    info: IndexInfoModel,
) -> Seq<(u64, IndexInfoModel)>
    decreases s.len(),
{
    if s.len() == 0 {
        seq![(key, info)]
    } else if s[0].0 < key {
        seq![s[0]] + insert_sorted(s.drop_first(), key, info)
    } else if s[0].0 == key {
        seq![(key, info)] + s.drop_first()
    } else {
        seq![(key, info)] + s
    }
}

/// Where the sorted insert lands: given the first position `i` whose key is
/// not below the new key, it overwrites there or squeezes in before it.
proof fn lemma_insert_sorted_at(
    s: Seq<(u64, IndexInfoModel)>,
    key: u64,
    info: IndexInfoModel,
    i: int,
)
    requires
        0 <= i <= s.len(),
        forall|j: int| 0 <= j < i ==> s[j].0 < key,
        i < s.len() ==> s[i].0 >= key,
    ensures
        (i < s.len() && s[i].0 == key) ==> insert_sorted(s, key, info) == s.update(i, (key, info)),
        (i == s.len() || s[i].0 > key) ==> insert_sorted(s, key, info) == s.insert(i, (key, info)),
    decreases s.len(),
{
    if s.len() == 0 {
        assert(insert_sorted(s, key, info) =~= s.insert(0, (key, info)));
    } else if i == 0 {
        if s[0].0 == key {
            assert(seq![(key, info)] + s.drop_first() =~= s.update(0, (key, info)));
        } else {
            assert(seq![(key, info)] + s =~= s.insert(0, (key, info)));
        }
    } else {
        assert(forall|j: int| 0 <= j < i - 1 ==> s.drop_first()[j].0 < key);
        assert(i - 1 < s.drop_first().len() ==> s.drop_first()[i - 1].0 >= key);
        lemma_insert_sorted_at(s.drop_first(), key, info, i - 1);
        if i < s.len() && s[i].0 == key {
            assert(seq![s[0]] + s.drop_first().update(i - 1, (key, info)) =~= s.update(
                i,
                (key, info),
            ));
        } else {
            assert(seq![s[0]] + s.drop_first().insert(i - 1, (key, info)) =~= s.insert(
                i,
                (key, info),
            ));
        }
    }
}

/// A map from index id to index description, held as a run sorted by id so
/// that walking it is deterministic.
#[derive(Debug, Clone)]
pub struct IndexMap {
    pub entries: Vec<(u64, IndexInfo)>,
}

impl IndexMap {
    /// The keys are strictly increasing: each occurs once, in order.
    pub open spec fn wf(self) -> bool {
        forall|i: int, j: int|
            0 <= i < j < self.entries@.len() ==> self.entries@[i].0 < self.entries@[j].0
    }

    /// The models of the held entries, in key order.
    pub open spec fn models(self) -> Seq<(u64, IndexInfoModel)> {
        index_models(self.entries@)
    }

    /// Whether an index with this id is held.
    pub open spec fn has_key(self, key: u64) -> bool {
        seq_has_key(self.models(), key)
    }

    pub fn new() -> (r: IndexMap)
        ensures
            r.wf(),
            r.models() == Seq::<(u64, IndexInfoModel)>::empty(),
    {
        let r = IndexMap { entries: Vec::new() };
        proof {
            assert(r.models() =~= Seq::<(u64, IndexInfoModel)>::empty());
        }
        r
    }

    /// How many indexes are held.
    pub fn len(&self) -> (r: usize)
        ensures
            r == self.models().len(),
    {
        self.entries.len()
    }

    /// Insert or overwrite the description of the index `key`. Keys only
    /// ever accumulate: every key held before stays held.
    pub fn insert(&mut self, key: u64, info: IndexInfo)
        requires
            old(self).wf(),
        ensures
            final(self).wf(),
            final(self).models() == insert_sorted(old(self).models(), key, info@),
            final(self).has_key(key),
            forall|k: u64| old(self).has_key(k) ==> final(self).has_key(k),
            forall|k: u64| final(self).has_key(k) ==> (old(self).has_key(k) || k == key),
            forall|i: int|
                0 <= i < final(self).models().len() && final(self).models()[i].0 == key
                    ==> final(self).models()[i].1 == info@,
            forall|i: int|
                0 <= i < final(self).models().len() && final(self).models()[i].0 != key
                    ==> old(self).models().contains(final(self).models()[i]),
            final(self).models().len() == old(self).models().len() + (if old(self).has_key(key) {
                0int
            } else {
                1int
            }),
    {
        let n: usize = self.entries.len();
        let mut i: usize = 0;
        while i < n && self.entries[i].0 < key
            invariant
                i <= n,
                n == self.entries@.len(),
                forall|k: int| 0 <= k < i ==> self.entries@[k].0 < key,
                self.wf(),
                self == old(self),
            decreases n - i,
        {
            i = i + 1;
        }
        if i < n && self.entries[i].0 == key {
            self.entries.set(i, (key, info));
            proof {
                    let oldm = old(self).models();
                    let newm = self.models();
                    assert(newm =~= oldm.update(i as int, (key, info@)));
                    assert forall|k2: u64| old(self).has_key(k2) implies self.has_key(k2) by {
                        let j = choose|j: int| 0 <= j < oldm.len() && oldm[j].0 == k2;
                        assert(newm[j].0 == k2);
                    }
                    assert forall|k2: u64| self.has_key(k2) implies (old(self).has_key(k2) || k2
                        == key) by {
                        let j = choose|j: int| 0 <= j < newm.len() && newm[j].0 == k2;
                        if j != i {
                            assert(oldm[j].0 == k2);
                        }
                    }
                    assert forall|j: int|
                        0 <= j < newm.len() && newm[j].0 != key implies oldm.contains(
                        newm[j],
                    ) by {
                        assert(newm[j] == oldm[j]);
                    }
                    assert(old(self).has_key(key)) by {
                        assert(oldm[i as int].0 == key);
                    }
                    assert(forall|j: int| 0 <= j < i ==> oldm[j].0 < key);
                    lemma_insert_sorted_at(oldm, key, info@, i as int);
                }
                return ;
        }
        proof {
            assert forall|k: int| i <= k < n implies key < self.entries@[k].0 by {
                if k > i {
                    assert(self.entries@[i as int].0 < self.entries@[k].0);
                }
            }
        }
        self.entries.insert(i, (key, info));
        proof {
            let oldm = old(self).models();
            let newm = self.models();
            assert(newm =~= oldm.insert(i as int, (key, info@)));
            assert(forall|j: int| 0 <= j < i ==> oldm[j].0 < key);
            assert(i < oldm.len() ==> oldm[i as int].0 > key);
            lemma_insert_sorted_at(oldm, key, info@, i as int);
            assert(!old(self).has_key(key)) by {
                if old(self).has_key(key) {
                    let j = choose|j: int| 0 <= j < oldm.len() && oldm[j].0 == key;
                }
            }
            assert(newm[i as int].0 == key);
            assert forall|k2: u64| old(self).has_key(k2) implies self.has_key(k2) by {
                let j = choose|j: int| 0 <= j < oldm.len() && oldm[j].0 == k2;
                if j < i {
                    assert(newm[j].0 == k2);
                } else {
                    assert(newm[j + 1].0 == k2);
                }
            }
            assert forall|k2: u64| self.has_key(k2) implies (old(self).has_key(k2) || k2
                == key) by {
                let j = choose|j: int| 0 <= j < newm.len() && newm[j].0 == k2;
                if j < i {
                    assert(oldm[j].0 == k2);
                } else if j > i {
                    assert(oldm[j - 1].0 == k2);
                }
            }
            assert forall|j: int| 0 <= j < newm.len() && newm[j].0 != key implies oldm.contains(
                newm[j],
            ) by {
                if j < i {
                    assert(newm[j] == oldm[j]);
                } else {
                    assert(newm[j] == oldm[j - 1]);
                }
            }
            assert forall|a: int, b: int|
                0 <= a < b < self.entries@.len() implies self.entries@[a].0
                < self.entries@[b].0 by {
                let olde = old(self).entries@;
                if b < i {
                } else if a < i && b == i {
                    assert(self.entries@[a].0 == olde[a].0);
                } else if a < i && b > i {
                    assert(self.entries@[b].0 == olde[b - 1].0);
                } else if a == i {
                    assert(self.entries@[b].0 == olde[b - 1].0);
                    assert(key < olde[b - 1].0);
                } else {
                    assert(self.entries@[a].0 == olde[a - 1].0);
                    assert(self.entries@[b].0 == olde[b - 1].0);
                }
            }
        }
    }
}

} // verus!
