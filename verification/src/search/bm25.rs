//! Full-text (BM25) search over chunks with tantivy: which fields a chunk's
//! document carries, and how hits are read back into chunk identifiers.
use crate::storage::types::{
    law_hex_roundtrip, opt_text, spec_from_hex, spec_to_hex, ChunkId, ChunkMeta, MetaView,
};
use vstd::prelude::*;
use vstd::string::StringSliceAdditionalSpecFns;

verus! {

#[verifier::external_type_specification]
#[verifier::external_body]
pub struct ExIndex(tantivy::Index);

#[verifier::external_type_specification]
#[verifier::external_body]
pub struct ExIndexReader(tantivy::IndexReader);

#[verifier::external_type_specification]
#[verifier::external_body]
pub struct ExField(tantivy::schema::Field);

#[verifier::external_type_specification]
#[verifier::external_body]
pub struct ExSchemaBuilder(tantivy::schema::SchemaBuilder);

#[verifier::external_type_specification]
#[verifier::external_body]
pub struct ExSchema(tantivy::schema::Schema);

#[verifier::external_type_specification]
#[verifier::external_body]
pub struct ExMmapDirectory(tantivy::directory::MmapDirectory);

#[verifier::external_type_specification]
#[verifier::external_body]
pub struct ExTantivyError(tantivy::TantivyError);



/// A tantivy index writer for documents of the default kind. Verus cannot
/// take tantivy's `IndexWriter` itself (its document parameter is bounded by
/// a tantivy trait), so the writer is held here and modelled by the
/// operations handed to it.
#[verifier::external_body]
pub struct Bm25Writer {
    inner: tantivy::IndexWriter,
}

/// An operation handed to the index writer.
pub enum IndexOp {
    /// Add a document with these (field, text) values.
    Add(Seq<(tantivy::schema::Field, Seq<char>)>),
    /// Delete every document whose field holds this exact text.
    Delete(tantivy::schema::Field, Seq<char>),
}

/// The operations that a writer has been handed, in order.
pub uninterp spec fn writer_ops(w: Bm25Writer) -> Seq<IndexOp>;

/// How many of the operations handed to a writer its last successful commit
/// applied (the first ones, in order).
pub uninterp spec fn writer_committed(w: Bm25Writer) -> nat;

/// How a field is indexed.
#[derive(Clone, Copy, PartialEq, Eq, Structural)]
pub enum FieldKind {
    /// Indexed as one untokenized term, and stored.
    StringStored,
    /// Tokenized for full-text search, and stored.
    TextStored,
    /// Tokenized for full-text search, not stored.
    TextOnly,
}

/// A failure of the full-text index.
#[derive(Debug)]
pub enum Bm25Error {
    Index(tantivy::TantivyError),
}

/// The names of the fields that a schema builder holds.
pub uninterp spec fn builder_field_names(b: tantivy::schema::SchemaBuilder) -> Set<Seq<char>>;

/// `Schema::builder`: a builder that holds no field.
#[verifier::external_body]
fn schema_builder() -> (b: tantivy::schema::SchemaBuilder)
    ensures
        builder_field_names(b) == Set::<Seq<char>>::empty(),
{
    tantivy::schema::Schema::builder()
}

/// `SchemaBuilder::add_text_field` with the options of `kind` (`STRING |
/// STORED`, `TEXT | STORED` or `TEXT`): the builder then holds the field.
/// The source panics on an empty name, on a name that starts with `-` and on
/// a name the builder already holds; `requires` leaves those out. Nothing is
/// stated of the returned handle (the source numbers fields in the order they
/// are added).
#[verifier::external_body]
fn add_text_field(b: &mut tantivy::schema::SchemaBuilder, name: &str, kind: FieldKind) -> (f: tantivy::schema::Field)
    requires
        name@.len() > 0,
        name@[0] != '-',
        !builder_field_names(*old(b)).contains(name@),
    ensures
        builder_field_names(*final(b)) == builder_field_names(*old(b)).insert(name@),
{
    let opts = match kind {
        FieldKind::StringStored => tantivy::schema::STRING | tantivy::schema::STORED,
        FieldKind::TextStored => tantivy::schema::TEXT | tantivy::schema::STORED,
        FieldKind::TextOnly => tantivy::schema::TEXT,
    };
    b.add_text_field(name, opts)
}

/// `SchemaBuilder::build`.
#[verifier::external_body]
fn build_schema(b: tantivy::schema::SchemaBuilder) -> tantivy::schema::Schema {
    b.build()
}

/// `MmapDirectory::open`, its error converted into a `TantivyError`.
#[verifier::external_body]
fn open_directory(path: &str) -> Result<tantivy::directory::MmapDirectory, tantivy::TantivyError> {
    tantivy::directory::MmapDirectory::open(path).map_err(tantivy::TantivyError::from)
}

/// `Index::open_or_create`.
#[verifier::external_body]
fn open_or_create_index(dir: tantivy::directory::MmapDirectory, schema: tantivy::schema::Schema) -> Result<tantivy::Index, tantivy::TantivyError> {
    tantivy::Index::open_or_create(dir, schema)
}

/// `Index::reader_builder`, reloading after each commit (with a delay).
#[verifier::external_body]
fn open_reader(index: &tantivy::Index) -> Result<tantivy::IndexReader, tantivy::TantivyError> {
    index.reader_builder().reload_policy(tantivy::ReloadPolicy::OnCommitWithDelay).try_into()
}

/// `Index::writer` with a memory budget in bytes. A new writer has been handed
/// no operation.
#[verifier::external_body]
fn open_writer(index: &tantivy::Index, budget: usize) -> (r: Result<Bm25Writer, tantivy::TantivyError>)
    ensures
        r matches Ok(w) ==> writer_ops(w) == Seq::<IndexOp>::empty() && writer_committed(w) == 0,
{
    index.writer(budget).map(|inner| Bm25Writer { inner })
}

pub open spec fn values_view(values: Seq<(tantivy::schema::Field, String)>) -> Seq<(tantivy::schema::Field, Seq<char>)> {
    values.map_values(|v: (tantivy::schema::Field, String)| (v.0, v.1@))
}

/// `IndexWriter::add_document` of a document built with
/// `TantivyDocument::add_text` from each (field, text) pair in order. On
/// success the writer has been handed that document.
#[verifier::external_body]
fn writer_add(w: &mut Bm25Writer, values: &Vec<(tantivy::schema::Field, String)>) -> (r: Result<(), tantivy::TantivyError>)
    ensures
        r is Ok ==> writer_ops(*final(w)) == writer_ops(*old(w)).push(IndexOp::Add(values_view(values@))),
        r is Ok ==> writer_committed(*final(w)) == writer_committed(*old(w)),
{
    let mut doc = tantivy::TantivyDocument::default();
    for (field, text) in values.iter() {
        doc.add_text(*field, text);
    }
    w.inner.add_document(doc).map(|_| ())
}

/// `IndexWriter::delete_term` of `Term::from_field_text(field, text)`: the
/// writer has been handed the deletion.
#[verifier::external_body]
fn writer_delete(w: &mut Bm25Writer, field: tantivy::schema::Field, text: &str)
    ensures
        writer_ops(*final(w)) == writer_ops(*old(w)).push(IndexOp::Delete(field, text@)),
        writer_committed(*final(w)) == writer_committed(*old(w)),
{
    w.inner.delete_term(tantivy::Term::from_field_text(field, text));
}

/// `IndexWriter::commit`: on success every operation handed to the writer so
/// far is applied ("commits all of the pending changes"). The record of what
/// the writer was handed is kept.
#[verifier::external_body]
fn writer_commit(w: &mut Bm25Writer) -> (r: Result<(), tantivy::TantivyError>)
    ensures
        writer_ops(*final(w)) == writer_ops(*old(w)),
        r is Ok ==> writer_committed(*final(w)) == writer_ops(*old(w)).len(),
{
    w.inner.commit().map(|_| ())
}

/// `IndexReader::reload`.
#[verifier::external_body]
fn reader_reload(reader: &tantivy::IndexReader) -> Result<(), tantivy::TantivyError> {
    reader.reload()
}

/// Whether `stored` is what a search of the index gave for `query` parsed
/// over `fields` with at most `top_k` hits: for each hit, best first, the text
/// it stores in `id_field`. This relates a search to its answer; it is no
/// function, since the answer depends on what the index holds when it runs.
pub uninterp spec fn search_answer(
    fields: Seq<tantivy::schema::Field>,
    query: Seq<char>,
    top_k: usize,
    id_field: tantivy::schema::Field,
    stored: Seq<Option<Seq<char>>>,
) -> bool;

/// The text views of optional strings.
pub open spec fn stored_views(hits: Seq<Option<String>>) -> Seq<Option<Seq<char>>> {
    hits.map_values(|h: Option<String>| opt_text(h))
}

/// Runs `query`, parsed by `QueryParser::for_index` over `fields`, on one
/// searcher of `reader` (`TopDocs::with_limit(top_k)`), and reads from the
/// same searcher, for each hit in order, the text its document stores in
/// `id_field` (`TantivyDocument::get_first`: a plain or a pre-tokenized
/// string, nothing for any other value). On success there are at most `top_k`
/// hits, and they are the answer to that query over those fields; which
/// documents match is not stated.
#[verifier::external_body]
fn search_stored(
    index: &tantivy::Index,
    reader: &tantivy::IndexReader,
    fields: Vec<tantivy::schema::Field>,
    query: &str,
    top_k: usize,
    id_field: tantivy::schema::Field,
) -> (r: Result<Vec<Option<String>>, tantivy::TantivyError>)
    requires
        top_k > 0,
    ensures
        r matches Ok(v) ==> v@.len() <= top_k && search_answer(fields@, query@, top_k, id_field, stored_views(v@)),
{
    let q = tantivy::query::QueryParser::for_index(index, fields).parse_query(query)?;
    let searcher = reader.searcher();
    let top = searcher.search(&q, &tantivy::collector::TopDocs::with_limit(top_k))?;
    let mut out = Vec::new();
    for (_score, addr) in top {
        out.push(match searcher.doc::<tantivy::TantivyDocument>(addr)?.get_first(id_field) {
            Some(tantivy::schema::OwnedValue::Str(s)) => Some(s.clone()),
            Some(tantivy::schema::OwnedValue::PreTokStr(s)) => Some(s.text.clone()),
            _ => None,
        });
    }
    Ok(out)
}

/// The fields of a chunk's document.
#[derive(Clone, Copy)]
pub struct Bm25Fields {
    pub doc_id: tantivy::schema::Field,
    pub file_path: tantivy::schema::Field,
    pub mod_path: tantivy::schema::Field,
    pub symbol_name: tantivy::schema::Field,
    pub signature: tantivy::schema::Field,
    pub language: tantivy::schema::Field,
    pub search_text: tantivy::schema::Field,
}

/// A full-text index of chunks.
pub struct Bm25Index {
    index: tantivy::Index,
    reader: tantivy::IndexReader,
    writer: Bm25Writer,
    fields: Bm25Fields,
}

pub open spec fn opt_value(f: tantivy::schema::Field, v: Option<Seq<char>>) -> Seq<(tantivy::schema::Field, Seq<char>)> {
    match v {
        Some(t) => seq![(f, t)],
        None => Seq::empty(),
    }
}

/// The document of a chunk: its identifier in hex, its file path, its module
/// path, symbol name, signature and language where it has them, and its
/// search text.
pub open spec fn spec_bm25_document(f: Bm25Fields, id: ChunkId, m: MetaView, search_text: Seq<char>) -> Seq<(tantivy::schema::Field, Seq<char>)> {
    seq![(f.doc_id, spec_to_hex(id.hash@)), (f.file_path, m.file_path)] + opt_value(f.mod_path, m.mod_path)
        + opt_value(f.symbol_name, m.symbol_name) + opt_value(f.signature, m.signature) + opt_value(
        f.language,
        m.language,
    ) + seq![(f.search_text, search_text)]
}

fn push_opt_value(out: &mut Vec<(tantivy::schema::Field, String)>, f: tantivy::schema::Field, v: &Option<String>)
    ensures
        values_view(final(out)@) == values_view(old(out)@) + opt_value(f, crate::storage::types::opt_text(*v)),
{
    let ghost before = values_view(out@);
    match v {
        Some(t) => {
            out.push((f, t.clone()));
            assert(values_view(out@) =~= before + seq![(f, t@)]);
        },
        None => {
            assert(values_view(out@) =~= before + Seq::<(tantivy::schema::Field, Seq<char>)>::empty());
        },
    }
}

/// The (field, text) values of a chunk's document (see [`spec_bm25_document`]).
pub fn bm25_document(fields: &Bm25Fields, id: &ChunkId, meta: &ChunkMeta, search_text: &str) -> (r: Vec<
    (tantivy::schema::Field, String),
>)
    ensures
        values_view(r@) == spec_bm25_document(*fields, *id, meta@, search_text@),
{
    let mut out: Vec<(tantivy::schema::Field, String)> = Vec::new();
    out.push((fields.doc_id, id.to_hex()));
    out.push((fields.file_path, meta.file_path.clone()));
    assert(values_view(out@) =~= seq![(fields.doc_id, spec_to_hex(id.hash@)), (fields.file_path, meta.file_path@)]);
    push_opt_value(&mut out, fields.mod_path, &meta.mod_path);
    push_opt_value(&mut out, fields.symbol_name, &meta.symbol_name);
    push_opt_value(&mut out, fields.signature, &meta.signature);
    push_opt_value(&mut out, fields.language, &meta.language);
    let ghost before = values_view(out@);
    out.push((fields.search_text, search_text.to_owned()));
    assert(values_view(out@) =~= before + seq![(fields.search_text, search_text@)]);
    out
}

/// The digests named by the stored identifier texts of search hits, in hit
/// order, skipping any text that is not a digest in hex.
pub open spec fn spec_ids_from(hits: Seq<Option<Seq<char>>>) -> Seq<Seq<u8>>
    decreases hits.len(),
{
    if hits.len() == 0 {
        Seq::empty()
    } else {
        let prev = spec_ids_from(hits.drop_last());
        match hits.last() {
            Some(t) => match spec_from_hex(vstd::utf8::encode_utf8(t)) {
                Some(h) => prev.push(h),
                None => prev,
            },
            None => prev,
        }
    }
}

pub open spec fn id_hashes(ids: Seq<ChunkId>) -> Seq<Seq<u8>> {
    ids.map_values(|id: ChunkId| id.hash@)
}

/// The chunk identifiers that search hits store (see [`spec_ids_from`]).
pub fn ids_from_stored(hits: &Vec<Option<String>>) -> (ids: Vec<ChunkId>)
    ensures
        id_hashes(ids@) == spec_ids_from(stored_views(hits@)),
{
    let mut ids: Vec<ChunkId> = Vec::new();
    let mut i: usize = 0;
    while i < hits.len()
        invariant
            i <= hits@.len(),
            id_hashes(ids@) == spec_ids_from(stored_views(hits@.take(i as int))),
        decreases hits@.len() - i,
    {
        assert(stored_views(hits@.take(i + 1)).drop_last() =~= stored_views(hits@.take(i as int)));
        let ghost before = id_hashes(ids@);
        match &hits[i] {
            Some(t) => {
                match ChunkId::from_hex(t.as_str()) {
                    Some(id) => {
                        ids.push(id);
                        assert(id_hashes(ids@) =~= before.push(id.hash@));
                    },
                    None => {},
                }
            },
            None => {},
        }
        i = i + 1;
    }
    assert(hits@.take(hits@.len() as int) =~= hits@);
    ids
}

/// The fields a query is parsed over: search text, symbol name, signature,
/// module path and file path.
pub open spec fn spec_query_fields(f: Bm25Fields) -> Seq<tantivy::schema::Field> {
    seq![f.search_text, f.symbol_name, f.signature, f.mod_path, f.file_path]
}

/// The fields a query is parsed over (see [`spec_query_fields`]).
fn query_fields(f: &Bm25Fields) -> (v: Vec<tantivy::schema::Field>)
    ensures
        v@ == spec_query_fields(*f),
{
    let mut v: Vec<tantivy::schema::Field> = Vec::new();
    v.push(f.search_text);
    v.push(f.symbol_name);
    v.push(f.signature);
    v.push(f.mod_path);
    v.push(f.file_path);
    assert(v@ =~= spec_query_fields(*f));
    v
}

impl Bm25Index {
    /// The operations handed to the index since it was opened.
    pub closed spec fn ops(&self) -> Seq<IndexOp> {
        writer_ops(self.writer)
    }

    /// How many of those operations the last successful commit applied.
    pub closed spec fn committed(&self) -> nat {
        writer_committed(self.writer)
    }

    /// The fields of the index's documents.
    pub closed spec fn spec_fields(&self) -> Bm25Fields {
        self.fields
    }

    /// Opens (or creates) the index stored in directory `path`, with the
    /// document fields of [`Bm25Fields`].
    pub fn open(path: &str) -> (r: Result<Bm25Index, Bm25Error>)
        ensures
            r matches Ok(ix) ==> ix.ops() == Seq::<IndexOp>::empty() && ix.committed() == 0,
    {
        proof {
            reveal_strlit("doc_id");
            reveal_strlit("file_path");
            reveal_strlit("module_path");
            reveal_strlit("symbol_name");
            reveal_strlit("signature");
            reveal_strlit("language");
            reveal_strlit("search_text");
            assert("symbol_name"@[0] != "module_path"@[0]);
            assert("search_text"@[0] != "module_path"@[0]);
            assert("search_text"@[1] != "symbol_name"@[1]);
            assert("signature"@[0] != "file_path"@[0]);
        }
        let mut b = schema_builder();
        let doc_id = add_text_field(&mut b, "doc_id", FieldKind::StringStored);
        let file_path = add_text_field(&mut b, "file_path", FieldKind::StringStored);
        let mod_path = add_text_field(&mut b, "module_path", FieldKind::TextStored);
        let symbol_name = add_text_field(&mut b, "symbol_name", FieldKind::TextStored);
        let signature = add_text_field(&mut b, "signature", FieldKind::TextStored);
        let language = add_text_field(&mut b, "language", FieldKind::StringStored);
        let search_text = add_text_field(&mut b, "search_text", FieldKind::TextOnly);
        let schema = build_schema(b);
        let dir = match open_directory(path) {
            Ok(d) => d,
            Err(e) => {
                return Err(Bm25Error::Index(e));
            },
        };
        let index = match open_or_create_index(dir, schema) {
            Ok(i) => i,
            Err(e) => {
                return Err(Bm25Error::Index(e));
            },
        };
        let reader = match open_reader(&index) {
            Ok(r) => r,
            Err(e) => {
                return Err(Bm25Error::Index(e));
            },
        };
        let writer = match open_writer(&index, 50_000_000) {
            Ok(w) => w,
            Err(e) => {
                return Err(Bm25Error::Index(e));
            },
        };
        Ok(
            Bm25Index {
                index,
                reader,
                writer,
                fields: Bm25Fields {
                    doc_id,
                    file_path,
                    mod_path,
                    symbol_name,
                    signature,
                    language,
                    search_text,
                },
            },
        )
    }

    /// Hands the writer the document of a chunk (see [`spec_bm25_document`]).
    pub fn index_chunk(&mut self, id: ChunkId, meta: &ChunkMeta, search_text: &str) -> (r: Result<
        (),
        Bm25Error,
    >)
        ensures
            final(self).spec_fields() == old(self).spec_fields(),
            r is Ok ==> final(self).ops() == old(self).ops().push(
                IndexOp::Add(spec_bm25_document(old(self).spec_fields(), id, meta@, search_text@)),
            ),
            r is Ok ==> final(self).committed() == old(self).committed(),
    {
        let doc = bm25_document(&self.fields, &id, meta, search_text);
        match writer_add(&mut self.writer, &doc) {
            Ok(()) => Ok(()),
            Err(e) => Err(Bm25Error::Index(e)),
        }
    }

    /// Hands the writer the deletion of every document of file `path`.
    pub fn remove_file(&mut self, path: &str) -> (r: Result<(), Bm25Error>)
        ensures
            r is Ok,
            final(self).spec_fields() == old(self).spec_fields(),
            final(self).ops() == old(self).ops().push(IndexOp::Delete(old(self).spec_fields().file_path, path@)),
            final(self).committed() == old(self).committed(),
    {
        writer_delete(&mut self.writer, self.fields.file_path, path);
        Ok(())
    }

    /// Applies the pending operations and reloads the reader.
    pub fn commit(&mut self) -> (r: Result<(), Bm25Error>)
        ensures
            final(self).spec_fields() == old(self).spec_fields(),
            final(self).ops() == old(self).ops(),
            r is Ok ==> final(self).committed() == old(self).ops().len(),
    {
        match writer_commit(&mut self.writer) {
            Ok(()) => {},
            Err(e) => {
                return Err(Bm25Error::Index(e));
            },
        }
        match reader_reload(&self.reader) {
            Ok(()) => Ok(()),
            Err(e) => Err(Bm25Error::Index(e)),
        }
    }

    /// The chunks that best match `query` in the search text, symbol name,
    /// signature, module path and file path fields: at most `top_k`, best
    /// first, read back from the identifiers their documents store (see
    /// [`ids_from_stored`]).
    pub fn search(&self, query: &str, top_k: usize) -> (r: Result<Vec<ChunkId>, Bm25Error>)
        requires
            top_k > 0,
        ensures
            r matches Ok(v) ==> v@.len() <= top_k && exists|hits: Seq<Option<Seq<char>>>|
                hits.len() <= top_k && #[trigger] search_answer(
                    spec_query_fields(self.spec_fields()),
                    query@,
                    top_k,
                    self.spec_fields().doc_id,
                    hits,
                ) && spec_ids_from(hits) == id_hashes(v@),
    {
        let fields = query_fields(&self.fields);
        let hits = match search_stored(&self.index, &self.reader, fields, query, top_k, self.fields.doc_id) {
            Ok(h) => h,
            Err(e) => {
                return Err(Bm25Error::Index(e));
            },
        };
        let ids = ids_from_stored(&hits);
        proof {
            lemma_ids_from_len(stored_views(hits@));
        }
        assert(search_answer(
            spec_query_fields(self.spec_fields()),
            query@,
            top_k,
            self.spec_fields().doc_id,
            stored_views(hits@),
        ));
        Ok(ids)
    }
}

/// A chunk's document stores the chunk's identifier in its first value, under
/// the identifier field, as text that search reads back as that identifier.
pub proof fn law_document_id_reads_back(
    f: Bm25Fields,
    id: ChunkId,
    m: MetaView,
    search_text: Seq<char>,
)
    ensures
        spec_bm25_document(f, id, m, search_text)[0].0 == f.doc_id,
        spec_ids_from(seq![Some(spec_bm25_document(f, id, m, search_text)[0].1)]) == seq![id.hash@],
{
    law_hex_roundtrip(id);
    let hits = seq![Some(spec_bm25_document(f, id, m, search_text)[0].1)];
    assert(hits.drop_last() =~= Seq::<Option<Seq<char>>>::empty());
    assert(spec_ids_from(hits.drop_last()) =~= Seq::<Seq<u8>>::empty());
    assert(Seq::<Seq<u8>>::empty().push(id.hash@) =~= seq![id.hash@]);
}

proof fn lemma_ids_from_len(hits: Seq<Option<Seq<char>>>)
    ensures
        spec_ids_from(hits).len() <= hits.len(),
    decreases hits.len(),
{
    if hits.len() > 0 {
        lemma_ids_from_len(hits.drop_last());
    }
}

/// Removing a file reaches the documents of its chunks: a chunk's document
/// holds the chunk's file path, as one value, in the field by whose exact
/// text `remove_file` deletes.
pub proof fn law_document_holds_file_path(f: Bm25Fields, id: ChunkId, m: MetaView, search_text: Seq<char>)
    ensures
        spec_bm25_document(f, id, m, search_text).contains((f.file_path, m.file_path)),
{
    assert(spec_bm25_document(f, id, m, search_text)[1] == (f.file_path, m.file_path));
}

/// The ids read back from search hits keep the hits' order: the ids of two
/// runs of hits, one after the other, are the ids of the first run followed
/// by those of the second; a single hit gives its digest when its text is one
/// in hex, and nothing otherwise.
pub proof fn law_ids_keep_hit_order(a: Seq<Option<Seq<char>>>, b: Seq<Option<Seq<char>>>, t: Seq<char>)
    ensures
        spec_ids_from(a + b) == spec_ids_from(a) + spec_ids_from(b),
        spec_ids_from(seq![Some(t)]) == match spec_from_hex(vstd::utf8::encode_utf8(t)) {
            Some(h) => seq![h],
            None => Seq::<Seq<u8>>::empty(),
        },
        spec_ids_from(seq![None::<Seq<char>>]) == Seq::<Seq<u8>>::empty(),
    decreases b.len(),
{
    if b.len() == 0 {
        assert(a + b =~= a);
        assert(spec_ids_from(a) + Seq::<Seq<u8>>::empty() =~= spec_ids_from(a));
    } else {
        law_ids_keep_hit_order(a, b.drop_last(), t);
        assert((a + b).drop_last() =~= a + b.drop_last());
        assert((a + b).last() == b.last());
        match b.last() {
            Some(u) => match spec_from_hex(vstd::utf8::encode_utf8(u)) {
                Some(h) => {
                    assert(spec_ids_from(a) + spec_ids_from(b.drop_last()).push(h) =~= (spec_ids_from(a)
                        + spec_ids_from(b.drop_last())).push(h));
                },
                None => {},
            },
            None => {},
        }
    }
    let e = Seq::<Option<Seq<char>>>::empty();
    assert(spec_ids_from(e) =~= Seq::<Seq<u8>>::empty());
    let one = seq![Some(t)];
    assert(one.drop_last() =~= e);
    assert(one.last() == Some(t));
    match spec_from_hex(vstd::utf8::encode_utf8(t)) {
        Some(h) => {
            assert(Seq::<Seq<u8>>::empty().push(h) =~= seq![h]);
        },
        None => {},
    }
    let none = seq![None::<Seq<char>>];
    assert(none.drop_last() =~= e);
    assert(none.last() == None::<Seq<char>>);
}

} // verus!
