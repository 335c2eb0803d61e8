//! A key-addressed store of metadata documents.
//!
//! The store models the flat-file cache: one entry per key, written at most
//! once (the strict policy: writing an existing key fails), never evicted.
//! Each entry also records the sanitized flat file name under which a
//! persistent layer may keep it; the store guarantees that name contains no
//! path separator. Distinct keys stay distinct entries here even when their
//! sanitized file names collide; such collisions are not diagnosed.

use vstd::prelude::*;

use crate::numbers::str_eq;

use crate::photo_metadata::{
    decode_metadata, encode_metadata, lemma_metadata_roundtrip, spec_decode_metadata,
    spec_encode_metadata, PhotoMetadata,
};

verus! {

/// Why a store operation failed.
#[derive(Clone, Copy, Debug, PartialEq, Eq)]
pub enum StorageFatal {
    /// The strict write policy found an entry already stored for the key.
    CacheFileExists,
    /// An entry exists for the key but its document does not decode.
    Undecodable,
}

/// One stored entry.
struct CacheEntry {
    /// The flat file name a persistent layer would use; free of separators.
    file_name: String,
    /// The key the entry was stored under.
    key: String,
    /// The serialized document.
    doc: Vec<u8>,
}

/// A flat file name: no path separator of either kind.
pub open spec fn safe_name(s: Seq<char>) -> bool {
    forall|i: int| 0 <= i < s.len() ==> #[trigger] s[i] != '/' && s[i] != '\\'
}

/// Relies on sanitize_filename::sanitize: its first rewriting pass removes
/// every occurrence of `/`, `\` (and other characters illegal in file
/// names), with the empty string as the replacement, on every platform.
#[verifier::external_body]
fn sanitize_key(key: &str) -> (r: String)
    ensures
        safe_name(r@),
{
    sanitize_filename::sanitize(key)
}

/// The map a sequence of entries denotes, later entries on top.
spec fn entries_map(s: Seq<CacheEntry>) -> Map<Seq<char>, Seq<u8>>
    decreases s.len(),
{
    if s.len() == 0 {
        Map::empty()
    } else {
        entries_map(s.drop_last()).insert(s.last().key@, s.last().doc@)
    }
}

/// The key-addressed metadata store.
pub struct Cache {
    entries: Vec<CacheEntry>,
}

impl View for Cache {
    type V = Map<Seq<char>, Seq<u8>>;

    /// The store, seen as the map from keys to stored documents.
    closed spec fn view(&self) -> Map<Seq<char>, Seq<u8>> {
        entries_map(self.entries@)
    }
}

/// A key no entry carries is absent from the map the entries denote.
proof fn lemma_entries_map_absent(s: Seq<CacheEntry>, k: Seq<char>)
    requires
        forall|i: int| 0 <= i < s.len() ==> (#[trigger] s[i]).key@ != k,
    ensures
        !entries_map(s).contains_key(k),
    decreases s.len(),
{
    if s.len() > 0 {
        assert(forall|i: int|
            0 <= i < s.drop_last().len() ==> (#[trigger] s.drop_last()[i]).key@ != k);
        lemma_entries_map_absent(s.drop_last(), k);
        assert(s[s.len() - 1].key@ != k);
    }
}

impl Cache {
    /// The store's invariant: one entry per key, and every recorded file
    /// name is flat.
    pub closed spec fn wf(self) -> bool {
        &&& forall|i: int, j: int|
            0 <= i < j < self.entries@.len() ==> (#[trigger] self.entries@[i]).key@ != (
            #[trigger] self.entries@[j]).key@
        &&& forall|i: int|
            0 <= i < self.entries@.len() ==> safe_name((#[trigger] self.entries@[i]).file_name@)
    }

    /// An empty store.
    pub fn new() -> (c: Cache)
        ensures
            c.wf(),
            c@ == Map::<Seq<char>, Seq<u8>>::empty(),
    {
        Cache { entries: Vec::new() }
    }

    /// Finds the entry stored under the key, if any.
    fn find(&self, key: &str) -> (r: Option<usize>)
        requires
            self.wf(),
        ensures
            r matches Some(i) ==> i < self.entries@.len() && self.entries@[i as int].key@ == key@,
            r is None ==> forall|i: int|
                0 <= i < self.entries@.len() ==> (#[trigger] self.entries@[i]).key@ != key@,
            (r is Some) == self@.contains_key(key@),
            r matches Some(i) ==> self@[key@] == self.entries@[i as int].doc@,
    {
        let mut i: usize = 0;
        while i < self.entries.len()
            invariant
                self.wf(),
                0 <= i <= self.entries@.len(),
                forall|j: int| 0 <= j < i ==> (#[trigger] self.entries@[j]).key@ != key@,
            decreases self.entries@.len() - i,
        {
            if str_eq(self.entries[i].key.as_str(), key) {
                proof {
                    lemma_entries_map_value(self.entries@, i as int);
                }
                return Some(i);
            }
            i = i + 1;
        }
        proof {
            lemma_entries_map_absent(self.entries@, key@);
        }
        None
    }

    /// Returns a copy of the document stored under the key, or nothing
    /// when no entry exists for it.
    pub fn read(&self, key: &str) -> (r: Option<Vec<u8>>)
        requires
            self.wf(),
        ensures
            (r is Some) == self@.contains_key(key@),
            r matches Some(d) ==> d@ == self@[key@],
    {
        match self.find(key) {
            Some(i) => Some(copy_bytes(&self.entries[i].doc)),
            None => None,
        }
    }

    /// Stores a document under the key. The policy is strict: a key that
    /// already has an entry is refused, and the store is unchanged.
    pub fn write(&mut self, key: &str, doc: Vec<u8>) -> (r: Result<(), StorageFatal>)
        requires
            old(self).wf(),
        ensures
            final(self).wf(),
            (r is Ok) == !old(self)@.contains_key(key@),
            r is Ok ==> final(self)@ == old(self)@.insert(key@, doc@),
            r is Err ==> *final(self) == *old(self) && r == Err::<(), StorageFatal>(
                StorageFatal::CacheFileExists),
    {
        match self.find(key) {
            Some(_) => Err(StorageFatal::CacheFileExists),
            None => {
                let entry = CacheEntry {
                    file_name: sanitize_key(key),
                    key: key.to_owned(),
                    doc,
                };
                proof {
                    assert(self.entries@.push(entry).drop_last() =~= self.entries@);
                }
                self.entries.push(entry);
                Ok(())
            },
        }
    }

    /// Serializes a metadata document and stores it under the key, with
    /// the same strict policy as `write`.
    pub fn write_from(&mut self, key: &str, m: &PhotoMetadata) -> (r: Result<(), StorageFatal>)
        requires
            old(self).wf(),
            m.wf(),
        ensures
            final(self).wf(),
            (r is Ok) == !old(self)@.contains_key(key@),
            r is Ok ==> final(self)@ == old(self)@.insert(key@, spec_encode_metadata(*m)),
            r is Err ==> *final(self) == *old(self) && r == Err::<(), StorageFatal>(
                StorageFatal::CacheFileExists),
    {
        let doc: Vec<u8> = encode_metadata(m);
        self.write(key, doc)
    }

    /// Reads and decodes the document stored under the key: absent keys
    /// give `Ok(None)`, an entry that does not decode gives `Undecodable`.
    pub fn read_into(&self, key: &str) -> (r: Result<Option<PhotoMetadata>, StorageFatal>)
        requires
            self.wf(),
        ensures
            !self@.contains_key(key@) ==> r == Ok::<Option<PhotoMetadata>, StorageFatal>(None),
            self@.contains_key(key@) ==> r == match spec_decode_metadata(self@[key@]) {
                Some(m) => Ok::<Option<PhotoMetadata>, StorageFatal>(Some(m)),
                None => Err::<Option<PhotoMetadata>, StorageFatal>(StorageFatal::Undecodable),
            },
            r matches Ok(Some(m)) ==> m.wf(),
    {
        match self.find(key) {
            None => Ok(None),
            Some(i) => match decode_metadata(self.entries[i].doc.as_slice()) {
                Some(m) => Ok(Some(m)),
                None => Err(StorageFatal::Undecodable),
            },
        }
    }

    /// How many entries the store holds.
    pub fn entry_count(&self) -> (r: usize)
        ensures
            r == self.spec_entry_count(),
    {
        self.entries.len()
    }

    /// The flat file name recorded for the entry at `i`; never holds a
    /// path separator.
    pub fn entry_file_name(&self, i: usize) -> (r: &String)
        requires
            self.wf(),
            i < self.spec_entry_count(),
        ensures
            safe_name(r@),
    {
        &self.entries[i].file_name
    }

    /// The document stored in the entry at `i`.
    pub fn entry_doc(&self, i: usize) -> (r: &Vec<u8>)
        requires
            i < self.spec_entry_count(),
    {
        &self.entries[i].doc
    }

    /// The number of entries, for contracts.
    pub closed spec fn spec_entry_count(self) -> nat {
        self.entries@.len()
    }
}

/// The map's value at an entry's key is that entry's document, when keys
/// are unique.
proof fn lemma_entries_map_value(s: Seq<CacheEntry>, i: int)
    requires
        0 <= i < s.len(),
        forall|a: int, b: int|
            0 <= a < b < s.len() ==> (#[trigger] s[a]).key@ != (#[trigger] s[b]).key@,
    ensures
        entries_map(s).contains_key(s[i].key@),
        entries_map(s)[s[i].key@] == s[i].doc@,
    decreases s.len(),
{
    if i == s.len() - 1 {
    } else {
        assert(forall|a: int, b: int|
            0 <= a < b < s.drop_last().len() ==> (#[trigger] s.drop_last()[a]).key@ != (
            #[trigger] s.drop_last()[b]).key@);
        lemma_entries_map_value(s.drop_last(), i);
        assert(s[i].key@ != s.last().key@);
    }
}

/// Copies a byte vector.
fn copy_bytes(s: &Vec<u8>) -> (r: Vec<u8>)
    ensures
        r@ == s@,
{
    let mut out: Vec<u8> = Vec::new();
    let mut i: usize = 0;
    while i < s.len()
        invariant
            0 <= i <= s@.len(),
            out@ == s@.take(i as int),
        decreases s@.len() - i,
    {
        out.push(s[i]);
        proof {
            assert(out@ =~= s@.take(i + 1));
        }
        i = i + 1;
    }
    proof {
        assert(out@ =~= s@);
    }
    out
}

/// The cache round-trip law: after a document is stored for a key, reading
/// that key finds it, and decoding returns the metadata that was stored.
pub proof fn lemma_cache_roundtrip(c0: Map<Seq<char>, Seq<u8>>, k: Seq<char>, m: PhotoMetadata)
    requires
        m.wf(),
    ensures
        c0.insert(k, spec_encode_metadata(m)).contains_key(k),
        spec_decode_metadata(c0.insert(k, spec_encode_metadata(m))[k]) == Some(m),
{
    lemma_metadata_roundtrip(m);
}

} // verus!
