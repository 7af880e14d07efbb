//! The data the deleter works on: document revisions, index keys and index
//! entries.
//!
//! A document is modelled by the values of its fields; an index key is the
//! encoding of the indexed field values followed by the document id, so two
//! revisions of one document agree on an index key exactly when they agree
//! on the indexed fields.

use vstd::prelude::*;
use crate::Ts;

verus! {

/// A document id: the table it lives in and its id within the table.
#[derive(Debug, Clone, Copy, PartialEq, Eq, Structural)]
pub struct DocId {
    pub table: u64,
    pub internal_id: u64,
}

/// A document value: its fields, each a numbered field holding a value.
/// The first occurrence of a field number is the field's value.
#[derive(Debug, Clone)]
pub struct Doc {
    pub fields: Vec<(u64, i64)>,
}

/// Spec-level mirror of `Doc`.
pub ghost struct DocModel {
    pub fields: Seq<(u64, i64)>,
}

impl View for Doc {
    type V = DocModel;

    open spec fn view(&self) -> DocModel {
        DocModel { fields: self.fields@ }
    }
}

/// One revision of a document: at `ts` the document with id `id` became
/// `doc`; `None` is a tombstone (the document was deleted at `ts`).
#[derive(Debug, Clone)]
pub struct Revision {
    pub ts: Ts,
    pub id: DocId,
    pub doc: Option<Doc>,
}

/// Spec-level mirror of `Revision`.
pub ghost struct RevModel {
    pub ts: Ts,
    pub id: DocId,
    pub doc: Option<DocModel>,
}

impl View for Revision {
    type V = RevModel;

    open spec fn view(&self) -> RevModel {
        RevModel {
            ts: self.ts,
            id: self.id,
            doc: match self.doc {
                Some(d) => Some(d@),
                None => None,
            },
        }
    }
}

/// The models of a run of revisions.
pub open spec fn rev_models(s: Seq<Revision>) -> Seq<RevModel> {
    s.map_values(|r: Revision| r@)
}

/// The value a document holds for a field: the first occurrence wins.
pub open spec fn field_value(fields: Seq<(u64, i64)>, field: u64) -> Option<i64>
    decreases fields.len(),
{
    if fields.len() == 0 {
        None
    } else if fields[0].0 == field {
        Some(fields[0].1)
    } else {
        field_value(fields.drop_first(), field)
    }
}

/// Big-endian bytes of a 64-bit value.
pub open spec fn u64_be(v: u64) -> Seq<u8> {
    seq![
        ((v >> 56) & 0xff) as u8,
        ((v >> 48) & 0xff) as u8,
        ((v >> 40) & 0xff) as u8,
        ((v >> 32) & 0xff) as u8,
        ((v >> 24) & 0xff) as u8,
        ((v >> 16) & 0xff) as u8,
        ((v >> 8) & 0xff) as u8,
        (v & 0xff) as u8,
    ]
}

/// The encoding of one indexed field of a document: a presence tag followed
/// by the value bytes.
pub open spec fn field_encoding(doc: DocModel, field: u64) -> Seq<u8> {
    match field_value(doc.fields, field) {
        Some(v) => seq![1u8] + u64_be(v as u64),
        None => seq![0u8] + u64_be(0),
    }
}

/// The index key a document produces for an index over `fields`: the
/// encodings of the indexed fields, then the document id. Every key of one
/// index has the same length, and the id sits at a fixed tail position.
pub open spec fn index_key(doc: DocModel, fields: Seq<u64>, id: DocId) -> Seq<u8>
    decreases fields.len(),
{
    if fields.len() == 0 {
        u64_be(id.table) + u64_be(id.internal_id)
    } else {
        field_encoding(doc, fields[0]) + index_key(doc, fields.drop_first(), id)
    }
}

/// Keys longer than this are split; the head goes to `key_prefix`, the rest
/// to `key_suffix`.
pub const MAX_KEY_PREFIX_LEN: usize = 2048;

/// The stored head of a key.
pub open spec fn split_prefix(key: Seq<u8>) -> Seq<u8> {
    if key.len() <= MAX_KEY_PREFIX_LEN {
        key
    } else {
        key.subrange(0, MAX_KEY_PREFIX_LEN as int)
    }
}

/// The stored tail of a key; empty unless the key overflows the prefix.
pub open spec fn split_suffix(key: Seq<u8>) -> Seq<u8> {
    if key.len() <= MAX_KEY_PREFIX_LEN {
        Seq::empty()
    } else {
        key.subrange(MAX_KEY_PREFIX_LEN as int, key.len() as int)
    }
}

/// The stored halves reassemble the key.
pub proof fn lemma_split_reassembles(key: Seq<u8>)
    ensures
        split_prefix(key) + split_suffix(key) == key,
{
    assert(split_prefix(key) + split_suffix(key) =~= key);
}

/// Big-endian encoding is injective.
pub proof fn lemma_u64_be_injective(a: u64, b: u64)
    requires
        u64_be(a) == u64_be(b),
    ensures
        a == b,
{
    assert(u64_be(a)[0] == u64_be(b)[0]);
    assert(u64_be(a)[1] == u64_be(b)[1]);
    assert(u64_be(a)[2] == u64_be(b)[2]);
    assert(u64_be(a)[3] == u64_be(b)[3]);
    assert(u64_be(a)[4] == u64_be(b)[4]);
    assert(u64_be(a)[5] == u64_be(b)[5]);
    assert(u64_be(a)[6] == u64_be(b)[6]);
    assert(u64_be(a)[7] == u64_be(b)[7]);
    assert(a == b) by (bit_vector)
        requires
            ((a >> 56) & 0xff) as u8 == ((b >> 56) & 0xff) as u8,
            ((a >> 48) & 0xff) as u8 == ((b >> 48) & 0xff) as u8,
            ((a >> 40) & 0xff) as u8 == ((b >> 40) & 0xff) as u8,
            ((a >> 32) & 0xff) as u8 == ((b >> 32) & 0xff) as u8,
            ((a >> 24) & 0xff) as u8 == ((b >> 24) & 0xff) as u8,
            ((a >> 16) & 0xff) as u8 == ((b >> 16) & 0xff) as u8,
            ((a >> 8) & 0xff) as u8 == ((b >> 8) & 0xff) as u8,
            (a & 0xff) as u8 == (b & 0xff) as u8,
    ;
}

/// Every key of one index has the same length: nine bytes per indexed
/// field, sixteen for the document id.
pub proof fn lemma_index_key_len(doc: DocModel, fields: Seq<u64>, id: DocId)
    ensures
        index_key(doc, fields, id).len() == 9 * fields.len() + 16,
    decreases fields.len(),
{
    if fields.len() > 0 {
        lemma_index_key_len(doc, fields.drop_first(), id);
    }
}

/// The document id sits in the key's last sixteen bytes, whatever the
/// field values around it.
pub proof fn lemma_index_key_id_tail(doc: DocModel, fields: Seq<u64>, id: DocId)
    ensures
        index_key(doc, fields, id).subrange(
            index_key(doc, fields, id).len() - 16,
            index_key(doc, fields, id).len() as int,
        ) == u64_be(id.table) + u64_be(id.internal_id),
    decreases fields.len(),
{
    lemma_index_key_len(doc, fields, id);
    if fields.len() == 0 {
        assert(index_key(doc, fields, id).subrange(0, 16) =~= u64_be(id.table) + u64_be(
            id.internal_id,
        ));
    } else {
        lemma_index_key_id_tail(doc, fields.drop_first(), id);
        let head = field_encoding(doc, fields[0]);
        let rest = index_key(doc, fields.drop_first(), id);
        assert((head + rest).subrange((head + rest).len() - 16, (head + rest).len() as int)
            =~= rest.subrange(rest.len() - 16, rest.len() as int));
    }
}

/// Law: keys of one index separate documents. Two documents with distinct
/// ids never produce the same index key, whatever their field values, so
/// reclaiming one document's rows can never hit another's.
pub proof fn lemma_index_key_injective_in_id(
    doc1: DocModel,
    doc2: DocModel,
    fields: Seq<u64>,
    id1: DocId,
    id2: DocId,
)
    requires
        index_key(doc1, fields, id1) == index_key(doc2, fields, id2),
    ensures
        id1 == id2,
{
    let k1 = index_key(doc1, fields, id1);
    let k2 = index_key(doc2, fields, id2);
    lemma_index_key_len(doc1, fields, id1);
    lemma_index_key_len(doc2, fields, id2);
    lemma_index_key_id_tail(doc1, fields, id1);
    lemma_index_key_id_tail(doc2, fields, id2);
    let tail1 = u64_be(id1.table) + u64_be(id1.internal_id);
    let tail2 = u64_be(id2.table) + u64_be(id2.internal_id);
    assert(tail1 == tail2);
    assert(u64_be(id1.table) =~= tail1.subrange(0, 8));
    assert(u64_be(id1.internal_id) =~= tail1.subrange(8, 16));
    assert(u64_be(id2.table) =~= tail2.subrange(0, 8));
    assert(u64_be(id2.internal_id) =~= tail2.subrange(8, 16));
    lemma_u64_be_injective(id1.table, id2.table);
    lemma_u64_be_injective(id1.internal_id, id2.internal_id);
}

/// What SHA-256 makes of a byte string; the digest is a function of the
/// bytes alone.
pub uninterp spec fn sha256_of(data: Seq<u8>) -> Seq<u8>;

/// Relies on sha2's `Sha256` through `Digest::digest`: the SHA-256 digest of
/// the input bytes, 32 bytes long, depending on the input alone.
#[verifier::external_body]
fn sha256_bytes(data: &Vec<u8>) -> (r: Vec<u8>)
    ensures
        r@ == sha256_of(data@),
        r@.len() == 32,
{
    let digest = <sha2::Sha256 as sha2::Digest>::digest(data.as_slice());
    AsRef::<[u8]>::as_ref(&digest).to_vec()
}

/// The unit the deleter operates on: one row of an index. `ts` is the
/// revision timestamp the row was written at; `deleted` marks a tombstone
/// row.
#[derive(Debug, Clone)]
pub struct IndexEntry {
    pub index_id: u64,
    pub key_prefix: Vec<u8>,
    pub key_suffix: Vec<u8>,
    pub key_sha256: Vec<u8>,
    pub ts: Ts,
    pub deleted: bool,
}

/// Spec-level mirror of `IndexEntry`.
pub ghost struct EntryModel {
    pub index_id: u64,
    pub key_prefix: Seq<u8>,
    pub key_suffix: Seq<u8>,
    pub key_sha256: Seq<u8>,
    pub ts: Ts,
    pub deleted: bool,
}

impl View for IndexEntry {
    type V = EntryModel;

    open spec fn view(&self) -> EntryModel {
        EntryModel {
            index_id: self.index_id,
            key_prefix: self.key_prefix@,
            key_suffix: self.key_suffix@,
            key_sha256: self.key_sha256@,
            ts: self.ts,
            deleted: self.deleted,
        }
    }
}

/// The models of a run of entries.
pub open spec fn entry_models(s: Seq<IndexEntry>) -> Seq<EntryModel> {
    s.map_values(|e: IndexEntry| e@)
}

/// The entry an index row at `(key, ts)` turns into.
pub open spec fn entry_of(index_id: u64, key: Seq<u8>, ts: Ts, deleted: bool) -> EntryModel {
    EntryModel {
        index_id,
        key_prefix: split_prefix(key),
        key_suffix: split_suffix(key),
        key_sha256: sha256_of(key),
        ts,
        deleted,
    }
}

/// Append the big-endian bytes of `v`.
fn push_u64_be(out: &mut Vec<u8>, v: u64)
    ensures
        final(out)@ == old(out)@ + u64_be(v),
{
    out.push(((v >> 56) & 0xff) as u8);
    out.push(((v >> 48) & 0xff) as u8);
    out.push(((v >> 40) & 0xff) as u8);
    out.push(((v >> 32) & 0xff) as u8);
    out.push(((v >> 24) & 0xff) as u8);
    out.push(((v >> 16) & 0xff) as u8);
    out.push(((v >> 8) & 0xff) as u8);
    out.push((v & 0xff) as u8);
    assert(out@ =~= old(out)@ + u64_be(v));
}

impl Doc {
    /// The value of a field, first occurrence first.
    pub fn field_value(&self, field: u64) -> (r: Option<i64>)
        ensures
            r == field_value(self@.fields, field),
    {
        let n: usize = self.fields.len();
        let mut i: usize = 0;
        proof {
            assert(self@.fields.skip(0) =~= self@.fields);
        }
        while i < n
            invariant
                i <= n,
                n == self.fields@.len(),
                field_value(self@.fields, field) == field_value(self@.fields.skip(i as int), field),
            decreases n - i,
        {
            proof {
                assert(self@.fields.skip(i as int)[0] == self.fields@[i as int]);
                assert(self@.fields.skip(i as int).drop_first() =~= self@.fields.skip(i + 1));
            }
            let (f, v) = self.fields[i];
            if f == field {
                return Some(v);
            }
            i = i + 1;
        }
        proof {
            assert(self@.fields.skip(n as int) =~= Seq::<(u64, i64)>::empty());
        }
        None
    }

    /// The index key this document produces for an index over `fields`,
    /// owned by the document with id `id`.
    pub fn index_key(&self, fields: &Vec<u64>, id: DocId) -> (r: Vec<u8>)
        ensures
            r@ == index_key(self@, fields@, id),
    {
        let mut out: Vec<u8> = Vec::new();
        let n: usize = fields.len();
        let mut i: usize = 0;
        proof {
            assert(fields@.skip(0) =~= fields@);
            assert(out@ + index_key(self@, fields@, id) =~= index_key(self@, fields@, id));
        }
        while i < n
            invariant
                i <= n,
                n == fields@.len(),
                index_key(self@, fields@, id) == out@ + index_key(self@, fields@.skip(i as int), id),
            decreases n - i,
        {
            proof {
                assert(fields@.skip(i as int)[0] == fields@[i as int]);
                assert(fields@.skip(i as int).drop_first() =~= fields@.skip(i + 1));
            }
            let ghost prev = out@;
            match self.field_value(fields[i]) {
                Some(v) => {
                    out.push(1u8);
                    push_u64_be(&mut out, #[verifier::truncate] (v as u64));
                    proof {
                        assert(out@ =~= prev + field_encoding(self@, fields@[i as int]));
                    }
                },
                None => {
                    out.push(0u8);
                    push_u64_be(&mut out, 0);
                    proof {
                        assert(out@ =~= prev + field_encoding(self@, fields@[i as int]));
                    }
                },
            }
            proof {
                assert(out@ + index_key(self@, fields@.skip(i + 1), id) =~= prev + index_key(
                    self@,
                    fields@.skip(i as int),
                    id,
                ));
            }
            i = i + 1;
        }
        proof {
            assert(fields@.skip(n as int) =~= Seq::<u64>::empty());
        }
        let ghost prev = out@;
        push_u64_be(&mut out, id.table);
        push_u64_be(&mut out, id.internal_id);
        proof {
            assert(out@ =~= prev + (u64_be(id.table) + u64_be(id.internal_id)));
        }
        out
    }
}

/// Split a key into the stored prefix and suffix.
fn split_key(key: &Vec<u8>) -> (r: (Vec<u8>, Vec<u8>))
    ensures
        r.0@ == split_prefix(key@),
        r.1@ == split_suffix(key@),
{
    let n: usize = key.len();
    if n <= MAX_KEY_PREFIX_LEN {
        let mut prefix: Vec<u8> = Vec::new();
        let mut i: usize = 0;
        while i < n
            invariant
                i <= n,
                n == key@.len(),
                prefix@ == key@.take(i as int),
            decreases n - i,
        {
            prefix.push(key[i]);
            proof {
                assert(prefix@ =~= key@.take(i + 1));
            }
            i = i + 1;
        }
        proof {
            assert(key@.take(n as int) =~= key@);
        }
        (prefix, Vec::new())
    } else {
        let mut prefix: Vec<u8> = Vec::new();
        let mut i: usize = 0;
        while i < MAX_KEY_PREFIX_LEN
            invariant
                i <= MAX_KEY_PREFIX_LEN,
                MAX_KEY_PREFIX_LEN < n == key@.len(),
                prefix@ == key@.take(i as int),
            decreases MAX_KEY_PREFIX_LEN - i,
        {
            prefix.push(key[i]);
            proof {
                assert(prefix@ =~= key@.take(i + 1));
            }
            i = i + 1;
        }
        let mut suffix: Vec<u8> = Vec::new();
        let mut j: usize = MAX_KEY_PREFIX_LEN;
        while j < n
            invariant
                MAX_KEY_PREFIX_LEN <= j <= n,
                n == key@.len(),
                suffix@ == key@.subrange(MAX_KEY_PREFIX_LEN as int, j as int),
            decreases n - j,
        {
            suffix.push(key[j]);
            proof {
                assert(suffix@ =~= key@.subrange(MAX_KEY_PREFIX_LEN as int, j + 1));
            }
            j = j + 1;
        }
        proof {
            assert(prefix@ =~= split_prefix(key@));
        }
        (prefix, suffix)
    }
}

/// Build the index entry for the row of `index_id` written at `(key, ts)`.
pub fn make_index_entry(index_id: u64, key: &Vec<u8>, ts: Ts, deleted: bool) -> (e: IndexEntry)
    ensures
        e@ == entry_of(index_id, key@, ts, deleted),
{
    let (key_prefix, key_suffix) = split_key(key);
    let key_sha256 = sha256_bytes(key);
    IndexEntry { index_id, key_prefix, key_suffix, key_sha256, ts, deleted }
}

/// Byte-string equality.
pub fn bytes_eq(a: &Vec<u8>, b: &Vec<u8>) -> (r: bool)
    ensures
        r == (a@ == b@),
{
    if a.len() != b.len() {
        proof {
            assert(a@ != b@);
        }
        return false;
    }
    let n: usize = a.len();
    let mut i: usize = 0;
    while i < n
        invariant
            i <= n,
            n == a@.len() == b@.len(),
            forall|k: int| 0 <= k < i ==> a@[k] == b@[k],
        decreases n - i,
    {
        if a[i] != b[i] {
            return false;
        }
        i = i + 1;
    }
    proof {
        assert(a@ =~= b@);
    }
    true
}

/// Entry equality, field by field.
pub fn entry_eq(a: &IndexEntry, b: &IndexEntry) -> (r: bool)
    ensures
        r == (a@ == b@),
{
    let r = a.index_id == b.index_id && bytes_eq(&a.key_prefix, &b.key_prefix) && bytes_eq(
        &a.key_suffix,
        &b.key_suffix,
    ) && bytes_eq(&a.key_sha256, &b.key_sha256) && a.ts == b.ts && a.deleted == b.deleted;
    r
}

/// Entry copy, field by field.
pub fn copy_entry(e: &IndexEntry) -> (r: IndexEntry)
    ensures
        r@ == e@,
{
    let mut key_prefix: Vec<u8> = Vec::new();
    copy_bytes_into(&e.key_prefix, &mut key_prefix);
    let mut key_suffix: Vec<u8> = Vec::new();
    copy_bytes_into(&e.key_suffix, &mut key_suffix);
    let mut key_sha256: Vec<u8> = Vec::new();
    copy_bytes_into(&e.key_sha256, &mut key_sha256);
    IndexEntry {
        index_id: e.index_id,
        key_prefix,
        key_suffix,
        key_sha256,
        ts: e.ts,
        deleted: e.deleted,
    }
}

/// Append every byte of `src` to `dst`.
fn copy_bytes_into(src: &Vec<u8>, dst: &mut Vec<u8>)
    ensures
        final(dst)@ == old(dst)@ + src@,
{
    let n: usize = src.len();
    let mut i: usize = 0;
    while i < n
        invariant
            i <= n,
            n == src@.len(),
            dst@ == old(dst)@ + src@.take(i as int),
        decreases n - i,
    {
        dst.push(src[i]);
        proof {
            assert(old(dst)@ + src@.take(i as int) + seq![src@[i as int]] =~= old(dst)@ + src@.take(
                i + 1,
            ));
        }
        i = i + 1;
    }
    proof {
        assert(src@.take(n as int) =~= src@);
        assert(dst@ =~= old(dst)@ + src@);
    }
}

} // verus!
