//! Persistent storage of chunk data in sled trees, one tree per table, keyed
//! by chunk digest or by relative file path. Values are stored as bytes; the
//! file-hash table holds each hash as decimal text.
use crate::store::{dec_text, parse_u64, push_decimal, spec_parse_u64};
use crate::text::{chars_of, utf8_string};
use crate::storage::types::ChunkId;
use vstd::prelude::*;
use vstd::string::StringSliceAdditionalSpecFns;
use vstd::utf8::{decode_utf8, encode_utf8, valid_utf8};

verus! {

#[verifier::external_type_specification]
#[verifier::external_body]
pub struct ExSledDb(sled::Db);

#[verifier::external_type_specification]
#[verifier::external_body]
pub struct ExSledTree(sled::Tree);

#[verifier::external_type_specification]
#[verifier::external_body]
pub struct ExSledError(sled::Error);

/// The key/value pairs that a sled tree holds. Each tree handle is owned by
/// one store and is changed only through the wrappers below that take it by
/// `&mut` (sled itself inserts and removes through `&self`).
pub uninterp spec fn tree_contents(t: sled::Tree) -> Map<Seq<u8>, Seq<u8>>;

/// `sled::open`: opens (or creates) a database at a path.
#[verifier::external_body]
fn sled_open(path: &str) -> (r: Result<sled::Db, sled::Error>) {
    sled::open(path)
}

/// `Db::open_tree`: opens (or creates) the named tree. Nothing is stated of
/// what it holds: that is whatever was stored on disk before.
#[verifier::external_body]
fn db_open_tree(db: &sled::Db, name: &str) -> (r: Result<sled::Tree, sled::Error>) {
    db.open_tree(name)
}

/// `Tree::get`: the value stored under `key`, if any, as the tree's source
/// documents ("Retrieve a value from the Tree if it exists").
#[verifier::external_body]
fn tree_get(t: &sled::Tree, key: &[u8]) -> (r: Result<Option<Vec<u8>>, sled::Error>)
    ensures
        r matches Ok(v) ==> match v {
            Some(x) => tree_contents(*t).contains_key(key@) && tree_contents(*t)[key@] == x@,
            None => !tree_contents(*t).contains_key(key@),
        },
{
    t.get(key).map(|o| o.map(|v| v.to_vec()))
}

/// `Tree::insert`: on success the tree maps `key` to `value` and is otherwise
/// unchanged. Nothing is stated of the tree after an error.
#[verifier::external_body]
fn tree_insert(t: &mut sled::Tree, key: &[u8], value: &[u8]) -> (r: Result<(), sled::Error>)
    ensures
        r is Ok ==> tree_contents(*final(t)) == tree_contents(*old(t)).insert(key@, value@),
{
    t.insert(key, value).map(|_| ())
}

/// `Tree::remove`: on success the tree no longer holds `key` and is otherwise
/// unchanged. Nothing is stated of the tree after an error.
#[verifier::external_body]
fn tree_remove(t: &mut sled::Tree, key: &[u8]) -> (r: Result<(), sled::Error>)
    ensures
        r is Ok ==> tree_contents(*final(t)) == tree_contents(*old(t)).remove(key@),
{
    t.remove(key).map(|_| ())
}

/// `Tree::iter`, collected: on success, every pair that the tree holds, each
/// key once.
#[verifier::external_body]
fn tree_entries(t: &sled::Tree) -> (r: Result<Vec<(Vec<u8>, Vec<u8>)>, sled::Error>)
    ensures
        r matches Ok(es) ==> {
            &&& forall|i: int|
                #![trigger es@[i]]
                0 <= i < es@.len() ==> tree_contents(*t).contains_key(es@[i].0@)
                    && tree_contents(*t)[es@[i].0@] == es@[i].1@
            &&& forall|k: Seq<u8>|
                #![trigger tree_contents(*t).contains_key(k)]
                tree_contents(*t).contains_key(k) ==> exists|i: int|
                    0 <= i < es@.len() && #[trigger] es@[i].0@ == k
            &&& forall|i: int, j: int|
                #![trigger es@[i], es@[j]]
                0 <= i < j < es@.len() ==> es@[i].0@ != es@[j].0@
        },
{
    t.iter().map(|r| r.map(|(k, v)| (k.to_vec(), v.to_vec()))).collect()
}

/// A failure of the store.
#[derive(Debug)]
pub enum StoreError {
    /// The database reported an error.
    Db(sled::Error),
    /// A stored file-hash entry is not UTF-8 text or not a decimal number.
    Corrupt,
}

/// The tables of the store.
#[derive(Clone, Copy, PartialEq, Eq, Structural)]
pub enum Table {
    /// Encoded embeddings, by chunk digest.
    Embeddings,
    /// Encoded chunk metadata, by chunk digest.
    Meta,
    /// Encoded lists of a file's chunk identifiers, by relative path.
    FileIndex,
    /// Encoded file fingerprints, by relative path.
    FileFingerprint,
    /// Content hashes of files as decimal text, by relative path.
    FileHash,
    /// Project settings, by name.
    Settings,
}

/// The chunk store of one project.
pub struct SledStore {
    db: sled::Db,
    embeddings: sled::Tree,
    meta: sled::Tree,
    file_index: sled::Tree,
    file_fingerprint: sled::Tree,
    file_hash: sled::Tree,
    settings: sled::Tree,
}

/// The key of a chunk: its digest.
pub open spec fn id_key(id: ChunkId) -> Seq<u8> {
    id.hash@
}

/// The key of a file: the UTF-8 bytes of its relative path.
pub open spec fn path_key(path: Seq<char>) -> Seq<u8> {
    encode_utf8(path)
}

/// How a file hash is stored: the UTF-8 bytes of its decimal text.
pub open spec fn hash_value(h: u64) -> Seq<u8> {
    encode_utf8(dec_text(h as nat))
}

/// The hash a stored file-hash value denotes, if it denotes one.
pub open spec fn spec_decode_hash(v: Seq<u8>) -> Option<u64> {
    if valid_utf8(v) {
        spec_parse_u64(decode_utf8(v))
    } else {
        None
    }
}

/// The settings key under which the project root is kept.
pub open spec fn project_root_key() -> Seq<u8> {
    encode_utf8("project_root"@)
}

impl SledStore {
    /// What a table holds.
    pub closed spec fn table(&self, t: Table) -> Map<Seq<u8>, Seq<u8>> {
        match t {
            Table::Embeddings => tree_contents(self.embeddings),
            Table::Meta => tree_contents(self.meta),
            Table::FileIndex => tree_contents(self.file_index),
            Table::FileFingerprint => tree_contents(self.file_fingerprint),
            Table::FileHash => tree_contents(self.file_hash),
            Table::Settings => tree_contents(self.settings),
        }
    }

    /// Opens (or creates) the store in the directory at `path`.
    pub fn open(path: &str) -> (r: Result<SledStore, StoreError>)
        ensures
            r matches Err(e) ==> e is Db,
    {
        let db = match sled_open(path) {
            Ok(db) => db,
            Err(e) => {
                return Err(StoreError::Db(e));
            },
        };
        let embeddings = match db_open_tree(&db, "embeddings") {
            Ok(t) => t,
            Err(e) => {
                return Err(StoreError::Db(e));
            },
        };
        let meta = match db_open_tree(&db, "meta") {
            Ok(t) => t,
            Err(e) => {
                return Err(StoreError::Db(e));
            },
        };
        let file_index = match db_open_tree(&db, "file_index") {
            Ok(t) => t,
            Err(e) => {
                return Err(StoreError::Db(e));
            },
        };
        let file_fingerprint = match db_open_tree(&db, "file_fingerprint") {
            Ok(t) => t,
            Err(e) => {
                return Err(StoreError::Db(e));
            },
        };
        let file_hash = match db_open_tree(&db, "file_hash") {
            Ok(t) => t,
            Err(e) => {
                return Err(StoreError::Db(e));
            },
        };
        let settings = match db_open_tree(&db, "settings") {
            Ok(t) => t,
            Err(e) => {
                return Err(StoreError::Db(e));
            },
        };
        Ok(SledStore { db, embeddings, meta, file_index, file_fingerprint, file_hash, settings })
    }

    fn tree_mut(&mut self, t: Table) -> (r: &mut sled::Tree)
        ensures
            *r == tree_of(*old(self), t),
            *final(self) == with_tree(*old(self), t, *final(r)),
    {
        match t {
            Table::Embeddings => &mut self.embeddings,
            Table::Meta => &mut self.meta,
            Table::FileIndex => &mut self.file_index,
            Table::FileFingerprint => &mut self.file_fingerprint,
            Table::FileHash => &mut self.file_hash,
            Table::Settings => &mut self.settings,
        }
    }

    fn get_in(&self, t: Table, key: &[u8]) -> (r: Result<Option<Vec<u8>>, StoreError>)
        ensures
            r matches Ok(v) ==> lookup_matches(self.table(t), key@, v),
            r matches Err(e) ==> e is Db,
    {
        let tree = match t {
            Table::Embeddings => &self.embeddings,
            Table::Meta => &self.meta,
            Table::FileIndex => &self.file_index,
            Table::FileFingerprint => &self.file_fingerprint,
            Table::FileHash => &self.file_hash,
            Table::Settings => &self.settings,
        };
        match tree_get(tree, key) {
            Ok(v) => Ok(v),
            Err(e) => Err(StoreError::Db(e)),
        }
    }

    fn put_in(&mut self, t: Table, key: &[u8], value: &[u8]) -> (r: Result<(), StoreError>)
        ensures
            r matches Err(e) ==> e is Db,
            r is Ok ==> final(self).table(t) == old(self).table(t).insert(key@, value@),
            forall|u: Table| u != t ==> #[trigger] final(self).table(u) == old(self).table(u),
    {
        let tree = self.tree_mut(t);
        match tree_insert(tree, key, value) {
            Ok(()) => Ok(()),
            Err(e) => Err(StoreError::Db(e)),
        }
    }

    fn remove_in(&mut self, t: Table, key: &[u8]) -> (r: Result<(), StoreError>)
        ensures
            r matches Err(e) ==> e is Db,
            r is Ok ==> final(self).table(t) == old(self).table(t).remove(key@),
            forall|u: Table| u != t ==> #[trigger] final(self).table(u) == old(self).table(u),
    {
        let tree = self.tree_mut(t);
        match tree_remove(tree, key) {
            Ok(()) => Ok(()),
            Err(e) => Err(StoreError::Db(e)),
        }
    }
}

impl SledStore {
    /// The encoded embedding stored for a chunk.
    pub fn get_embedding_bytes(&self, id: &ChunkId) -> (r: Result<Option<Vec<u8>>, StoreError>)
        ensures
            r matches Err(e) ==> e is Db,
            r matches Ok(v) ==> lookup_matches(self.table(Table::Embeddings), id_key(*id), v),
    {
        self.get_in(Table::Embeddings, &id.hash)
    }

    /// Stores the encoded embedding of a chunk.
    pub fn put_embedding_bytes(&mut self, id: &ChunkId, value: &[u8]) -> (r: Result<(), StoreError>)
        ensures
            r matches Err(e) ==> e is Db,
            r is Ok ==> final(self).table(Table::Embeddings) == old(self).table(Table::Embeddings).insert(
                id_key(*id),
                value@,
            ),
            forall|u: Table| u != Table::Embeddings ==> #[trigger] final(self).table(u) == old(self).table(u),
    {
        self.put_in(Table::Embeddings, &id.hash, value)
    }

    /// Removes the embedding of a chunk.
    pub fn remove_embedding(&mut self, id: &ChunkId) -> (r: Result<(), StoreError>)
        ensures
            r matches Err(e) ==> e is Db,
            r is Ok ==> final(self).table(Table::Embeddings) == old(self).table(Table::Embeddings).remove(
                id_key(*id),
            ),
            forall|u: Table| u != Table::Embeddings ==> #[trigger] final(self).table(u) == old(self).table(u),
    {
        self.remove_in(Table::Embeddings, &id.hash)
    }

    /// The encoded metadata stored for a chunk.
    pub fn get_meta_bytes(&self, id: &ChunkId) -> (r: Result<Option<Vec<u8>>, StoreError>)
        ensures
            r matches Err(e) ==> e is Db,
            r matches Ok(v) ==> lookup_matches(self.table(Table::Meta), id_key(*id), v),
    {
        self.get_in(Table::Meta, &id.hash)
    }

    /// Stores the encoded metadata of a chunk.
    pub fn put_meta_bytes(&mut self, id: &ChunkId, value: &[u8]) -> (r: Result<(), StoreError>)
        ensures
            r matches Err(e) ==> e is Db,
            r is Ok ==> final(self).table(Table::Meta) == old(self).table(Table::Meta).insert(
                id_key(*id),
                value@,
            ),
            forall|u: Table| u != Table::Meta ==> #[trigger] final(self).table(u) == old(self).table(u),
    {
        self.put_in(Table::Meta, &id.hash, value)
    }

    /// Removes the metadata of a chunk.
    pub fn remove_meta(&mut self, id: &ChunkId) -> (r: Result<(), StoreError>)
        ensures
            r matches Err(e) ==> e is Db,
            r is Ok ==> final(self).table(Table::Meta) == old(self).table(Table::Meta).remove(id_key(*id)),
            forall|u: Table| u != Table::Meta ==> #[trigger] final(self).table(u) == old(self).table(u),
    {
        self.remove_in(Table::Meta, &id.hash)
    }

    /// The encoded list of chunk identifiers stored for a file.
    pub fn get_file_index_bytes(&self, path: &str) -> (r: Result<Option<Vec<u8>>, StoreError>)
        ensures
            r matches Err(e) ==> e is Db,
            r matches Ok(v) ==> lookup_matches(self.table(Table::FileIndex), path_key(path@), v),
    {
        self.get_in(Table::FileIndex, path.as_bytes())
    }

    /// Stores the encoded list of a file's chunk identifiers.
    pub fn set_file_index_bytes(&mut self, path: &str, value: &[u8]) -> (r: Result<(), StoreError>)
        ensures
            r matches Err(e) ==> e is Db,
            r is Ok ==> final(self).table(Table::FileIndex) == old(self).table(Table::FileIndex).insert(
                path_key(path@),
                value@,
            ),
            forall|u: Table| u != Table::FileIndex ==> #[trigger] final(self).table(u) == old(self).table(u),
    {
        self.put_in(Table::FileIndex, path.as_bytes(), value)
    }

    /// Removes the chunk list of a file.
    pub fn remove_file_index(&mut self, path: &str) -> (r: Result<(), StoreError>)
        ensures
            r matches Err(e) ==> e is Db,
            r is Ok ==> final(self).table(Table::FileIndex) == old(self).table(Table::FileIndex).remove(
                path_key(path@),
            ),
            forall|u: Table| u != Table::FileIndex ==> #[trigger] final(self).table(u) == old(self).table(u),
    {
        self.remove_in(Table::FileIndex, path.as_bytes())
    }

    /// The encoded fingerprint stored for a file.
    pub fn get_file_fingerprint_bytes(&self, path: &str) -> (r: Result<Option<Vec<u8>>, StoreError>)
        ensures
            r matches Err(e) ==> e is Db,
            r matches Ok(v) ==> lookup_matches(self.table(Table::FileFingerprint), path_key(path@), v),
    {
        self.get_in(Table::FileFingerprint, path.as_bytes())
    }

    /// Stores the encoded fingerprint of a file.
    pub fn set_file_fingerprint_bytes(&mut self, path: &str, value: &[u8]) -> (r: Result<(), StoreError>)
        ensures
            r matches Err(e) ==> e is Db,
            r is Ok ==> final(self).table(Table::FileFingerprint) == old(self).table(
                Table::FileFingerprint,
            ).insert(path_key(path@), value@),
            forall|u: Table|
                u != Table::FileFingerprint ==> #[trigger] final(self).table(u) == old(self).table(u),
    {
        self.put_in(Table::FileFingerprint, path.as_bytes(), value)
    }

    /// Records the content hash of a file.
    pub fn set_file_hash(&mut self, path: &str, hash: u64) -> (r: Result<(), StoreError>)
        ensures
            r matches Err(e) ==> e is Db,
            r is Ok ==> final(self).table(Table::FileHash) == old(self).table(Table::FileHash).insert(
                path_key(path@),
                hash_value(hash),
            ),
            forall|u: Table| u != Table::FileHash ==> #[trigger] final(self).table(u) == old(self).table(u),
    {
        let mut text = String::new();
        push_decimal(&mut text, hash);
        self.put_in(Table::FileHash, path.as_bytes(), text.as_str().as_bytes())
    }

    /// Forgets the content hash of a file.
    pub fn remove_file_hash(&mut self, path: &str) -> (r: Result<(), StoreError>)
        ensures
            r matches Err(e) ==> e is Db,
            r is Ok ==> final(self).table(Table::FileHash) == old(self).table(Table::FileHash).remove(
                path_key(path@),
            ),
            forall|u: Table| u != Table::FileHash ==> #[trigger] final(self).table(u) == old(self).table(u),
    {
        self.remove_in(Table::FileHash, path.as_bytes())
    }

    /// Records the root directory of the project.
    pub fn set_project_root(&mut self, path: &str) -> (r: Result<(), StoreError>)
        ensures
            r matches Err(e) ==> e is Db,
            r is Ok ==> final(self).table(Table::Settings) == old(self).table(Table::Settings).insert(
                project_root_key(),
                encode_utf8(path@),
            ),
            forall|u: Table| u != Table::Settings ==> #[trigger] final(self).table(u) == old(self).table(u),
    {
        let key = "project_root";
        self.put_in(Table::Settings, key.as_bytes(), path.as_bytes())
    }
}

/// Reads a stored file-hash value.
fn decode_hash(v: &[u8]) -> (r: Option<u64>)
    ensures
        r == spec_decode_hash(v@),
{
    match utf8_string(v) {
        Some(t) => {
            let cs = chars_of(t.as_str());
            parse_u64(&cs)
        },
        None => None,
    }
}

/// A stored file-hash value reads back as the hash it was written for.
pub proof fn law_file_hash_roundtrip(h: u64)
    ensures
        spec_decode_hash(hash_value(h)) == Some(h),
{
    vstd::utf8::encode_utf8_valid_utf8(dec_text(h as nat));
    vstd::utf8::encode_utf8_decode_utf8(dec_text(h as nat));
    crate::store::law_decimal_roundtrip(h);
}

/// Every stored file-hash entry is a UTF-8 path with a readable hash.
pub open spec fn file_hashes_readable(m: Map<Seq<u8>, Seq<u8>>) -> bool {
    forall|k: Seq<u8>| #[trigger] m.contains_key(k) ==> valid_utf8(k) && spec_decode_hash(m[k]) is Some
}

impl SledStore {
    /// The content hash recorded for a file.
    pub fn get_file_hash(&self, path: &str) -> (r: Result<Option<u64>, StoreError>)
        ensures
            match r {
                Ok(Some(h)) => self.table(Table::FileHash).contains_key(path_key(path@))
                    && spec_decode_hash(self.table(Table::FileHash)[path_key(path@)]) == Some(h),
                Ok(None) => !self.table(Table::FileHash).contains_key(path_key(path@)),
                Err(StoreError::Corrupt) => self.table(Table::FileHash).contains_key(path_key(path@))
                    && spec_decode_hash(self.table(Table::FileHash)[path_key(path@)]) is None,
                Err(StoreError::Db(_)) => true,
            },
    {
        let key = path.as_bytes();
        assert(key@ == path_key(path@));
        let got = self.get_in(Table::FileHash, key);
        match got {
            Ok(Some(v)) => match decode_hash(&v) {
                Some(h) => Ok(Some(h)),
                None => Err(StoreError::Corrupt),
            },
            Ok(None) => Ok(None),
            Err(e) => Err(e),
        }
    }

    /// Every file with a recorded content hash, with that hash.
    pub fn iter_file_hashes(&self) -> (r: Result<Vec<(String, u64)>, StoreError>)
        ensures
            match r {
                Ok(v) => {
                    &&& forall|i: int|
                        #![trigger v@[i]]
                        0 <= i < v@.len() ==> self.table(Table::FileHash).contains_key(path_key(v@[i].0@))
                            && spec_decode_hash(self.table(Table::FileHash)[path_key(v@[i].0@)]) == Some(
                            v@[i].1,
                        )
                    &&& forall|k: Seq<u8>|
                        #![trigger self.table(Table::FileHash).contains_key(k)]
                        self.table(Table::FileHash).contains_key(k) ==> exists|i: int|
                            0 <= i < v@.len() && #[trigger] path_key(v@[i].0@) == k
                },
                Err(StoreError::Corrupt) => !file_hashes_readable(self.table(Table::FileHash)),
                Err(StoreError::Db(_)) => true,
            },
    {
        let entries = match tree_entries(&self.file_hash) {
            Ok(es) => es,
            Err(e) => {
                return Err(StoreError::Db(e));
            },
        };
        let ghost m = self.table(Table::FileHash);
        assert(m == tree_contents(self.file_hash));
        let mut out: Vec<(String, u64)> = Vec::new();
        let mut i: usize = 0;
        while i < entries.len()
            invariant
                i <= entries@.len(),
                out@.len() == i,
                m == tree_contents(self.file_hash),
                forall|j: int|
                    #![trigger entries@[j]]
                    0 <= j < entries@.len() ==> m.contains_key(entries@[j].0@) && m[entries@[j].0@]
                        == entries@[j].1@,
                forall|j: int|
                    #![trigger out@[j]]
                    0 <= j < i ==> path_key(out@[j].0@) == entries@[j].0@ && spec_decode_hash(
                        entries@[j].1@,
                    ) == Some(out@[j].1),
            decreases entries@.len() - i,
        {
            let (k, v) = &entries[i];
            assert(m.contains_key(entries@[i as int].0@));
            let path = match utf8_string(k) {
                Some(p) => p,
                None => {
                    assert(!file_hashes_readable(m));
                    return Err(StoreError::Corrupt);
                },
            };
            let h = match decode_hash(v) {
                Some(h) => h,
                None => {
                    assert(!file_hashes_readable(m));
                    return Err(StoreError::Corrupt);
                },
            };
            proof {
                vstd::utf8::decode_utf8_encode_utf8(k@);
            }
            out.push((path, h));
            i = i + 1;
        }
        assert forall|k: Seq<u8>| #[trigger] m.contains_key(k) implies exists|j: int|
            0 <= j < out@.len() && #[trigger] path_key(out@[j].0@) == k by {
            let j = choose|j: int| 0 <= j < entries@.len() && #[trigger] entries@[j].0@ == k;
            assert(path_key(out@[j].0@) == entries@[j].0@);
        }
        assert forall|j: int| #![trigger out@[j]] 0 <= j < out@.len() implies m.contains_key(path_key(out@[j].0@))
            && spec_decode_hash(m[path_key(out@[j].0@)]) == Some(out@[j].1) by {
            assert(path_key(out@[j].0@) == entries@[j].0@);
        }
        Ok(out)
    }
}

spec fn tree_of(s: SledStore, t: Table) -> sled::Tree {
    match t {
        Table::Embeddings => s.embeddings,
        Table::Meta => s.meta,
        Table::FileIndex => s.file_index,
        Table::FileFingerprint => s.file_fingerprint,
        Table::FileHash => s.file_hash,
        Table::Settings => s.settings,
    }
}

spec fn with_tree(s: SledStore, t: Table, tree: sled::Tree) -> SledStore {
    match t {
        Table::Embeddings => SledStore { embeddings: tree, ..s },
        Table::Meta => SledStore { meta: tree, ..s },
        Table::FileIndex => SledStore { file_index: tree, ..s },
        Table::FileFingerprint => SledStore { file_fingerprint: tree, ..s },
        Table::FileHash => SledStore { file_hash: tree, ..s },
        Table::Settings => SledStore { settings: tree, ..s },
    }
}

/// `v` is what table `m` holds under `key`: the stored bytes, or nothing.
pub open spec fn lookup_matches(m: Map<Seq<u8>, Seq<u8>>, key: Seq<u8>, v: Option<Vec<u8>>) -> bool {
    match v {
        Some(x) => m.contains_key(key) && m[key] == x@,
        None => !m.contains_key(key),
    }
}

/// The keys of a list of chunks.
pub open spec fn chunk_keys(ids: Seq<ChunkId>) -> Set<Seq<u8>> {
    Set::new(|k: Seq<u8>| exists|i: int| 0 <= i < ids.len() && #[trigger] id_key(ids[i]) == k)
}

impl SledStore {
    /// Removes everything stored for a file whose chunks are `ids`: the
    /// metadata and embedding of each chunk, then the file's chunk list and
    /// its content hash. Its fingerprint and the settings are left alone.
    pub fn remove_file_chunks(&mut self, path: &str, ids: &Vec<ChunkId>) -> (r: Result<(), StoreError>)
        ensures
            r matches Err(e) ==> e is Db,
            r is Ok ==> {
                &&& final(self).table(Table::Meta) == old(self).table(Table::Meta).remove_keys(
                    chunk_keys(ids@),
                )
                &&& final(self).table(Table::Embeddings) == old(self).table(Table::Embeddings).remove_keys(
                    chunk_keys(ids@),
                )
                &&& final(self).table(Table::FileIndex) == old(self).table(Table::FileIndex).remove(
                    path_key(path@),
                )
                &&& final(self).table(Table::FileHash) == old(self).table(Table::FileHash).remove(
                    path_key(path@),
                )
                &&& final(self).table(Table::FileFingerprint) == old(self).table(Table::FileFingerprint)
                &&& final(self).table(Table::Settings) == old(self).table(Table::Settings)
            },
    {
        let mut i: usize = 0;
        while i < ids.len()
            invariant
                i <= ids@.len(),
                self.table(Table::Meta) == old(self).table(Table::Meta).remove_keys(
                    chunk_keys(ids@.take(i as int)),
                ),
                self.table(Table::Embeddings) == old(self).table(Table::Embeddings).remove_keys(
                    chunk_keys(ids@.take(i as int)),
                ),
                self.table(Table::FileIndex) == old(self).table(Table::FileIndex),
                self.table(Table::FileHash) == old(self).table(Table::FileHash),
                self.table(Table::FileFingerprint) == old(self).table(Table::FileFingerprint),
                self.table(Table::Settings) == old(self).table(Table::Settings),
            decreases ids@.len() - i,
        {
            let ghost m0 = self.table(Table::Meta);
            let ghost e0 = self.table(Table::Embeddings);
            let id = &ids[i];
            match self.remove_meta(id) {
                Ok(()) => {},
                Err(e) => {
                    return Err(e);
                },
            }
            match self.remove_embedding(id) {
                Ok(()) => {},
                Err(e) => {
                    return Err(e);
                },
            }
            proof {
                let before = chunk_keys(ids@.take(i as int));
                let after = chunk_keys(ids@.take(i + 1));
                assert forall|k: Seq<u8>| after.contains(k) <==> (before.contains(k) || k == id_key(ids@[i as int])) by {
                    if after.contains(k) {
                        let j = choose|j: int| 0 <= j < i + 1 && #[trigger] id_key(ids@.take(i + 1)[j]) == k;
                        if j < i {
                            assert(id_key(ids@.take(i as int)[j]) == k);
                        }
                    }
                    if before.contains(k) {
                        let j = choose|j: int| 0 <= j < i && #[trigger] id_key(ids@.take(i as int)[j]) == k;
                        assert(id_key(ids@.take(i + 1)[j]) == k);
                    }
                    if k == id_key(ids@[i as int]) {
                        assert(id_key(ids@.take(i + 1)[i as int]) == k);
                    }
                }
                assert(self.table(Table::Meta) =~= old(self).table(Table::Meta).remove_keys(after));
                assert(self.table(Table::Embeddings) =~= old(self).table(Table::Embeddings).remove_keys(
                    after,
                ));
            }
            i = i + 1;
        }
        assert(ids@.take(ids@.len() as int) =~= ids@);
        match self.remove_file_index(path) {
            Ok(()) => {},
            Err(e) => {
                return Err(e);
            },
        }
        match self.remove_file_hash(path) {
            Ok(()) => {},
            Err(e) => {
                return Err(e);
            },
        }
        Ok(())
    }
}

/// What a read gives back of a write: once table `t` has stored `value`
/// under `key`, a lookup of `key` gives exactly `value`, and a lookup of any
/// other key gives what it gave before.
pub proof fn law_get_after_put(
    before: SledStore,
    after: SledStore,
    t: Table,
    key: Seq<u8>,
    value: Seq<u8>,
    other: Seq<u8>,
    got: Option<Vec<u8>>,
)
    requires
        after.table(t) == before.table(t).insert(key, value),
    ensures
        lookup_matches(after.table(t), key, got) <==> (got matches Some(x) && x@ == value),
        other != key ==> (lookup_matches(after.table(t), other, got) <==> lookup_matches(
            before.table(t),
            other,
            got,
        )),
{
}

/// What a read gives back after a removal: once table `t` has removed
/// `key`, a lookup of `key` gives nothing, and a lookup of any other key
/// gives what it gave before.
pub proof fn law_get_after_remove(
    before: SledStore,
    after: SledStore,
    t: Table,
    key: Seq<u8>,
    other: Seq<u8>,
    got: Option<Vec<u8>>,
)
    requires
        after.table(t) == before.table(t).remove(key),
    ensures
        lookup_matches(after.table(t), key, got) <==> got is None,
        other != key ==> (lookup_matches(after.table(t), other, got) <==> lookup_matches(
            before.table(t),
            other,
            got,
        )),
{
}

/// Once the chunks `ids` of a file have been removed from a table, a lookup
/// of any of them in that table gives nothing.
pub proof fn law_removed_chunks_are_gone(
    before: SledStore,
    after: SledStore,
    t: Table,
    ids: Seq<ChunkId>,
    i: int,
    got: Option<Vec<u8>>,
)
    requires
        after.table(t) == before.table(t).remove_keys(chunk_keys(ids)),
        0 <= i < ids.len(),
    ensures
        lookup_matches(after.table(t), id_key(ids[i]), got) <==> got is None,
{
    assert(chunk_keys(ids).contains(id_key(ids[i])));
}

/// A recorded content hash reads back: once a file's hash `h` has been
/// recorded, the file-hash table holds a value for the file that denotes `h`.
pub proof fn law_file_hash_after_set(before: SledStore, after: SledStore, path: Seq<char>, h: u64)
    requires
        after.table(Table::FileHash) == before.table(Table::FileHash).insert(path_key(path), hash_value(h)),
    ensures
        after.table(Table::FileHash).contains_key(path_key(path)),
        spec_decode_hash(after.table(Table::FileHash)[path_key(path)]) == Some(h),
{
    law_file_hash_roundtrip(h);
}

} // verus!
