//! Cutting Rust source into chunks along its syntax tree: one chunk for each
//! module, impl block, function, struct, enum, trait, type alias, const and
//! static, and one more for the doc comments right before such an item.
use crate::text::{
    chars_of, join, lossy_string, spec_join, spec_starts_with, spec_trim, starts_with, string_views,
    lossy_text, text_is, trimmed,
};
use crate::storage::types::{copy_opt_string, opt_text, ChunkKind, ChunkMeta, MetaView, SymbolType};
use vstd::prelude::*;

verus! {

/// A chunk cut from a file: its metadata and its byte range.
pub struct CodeChunk {
    pub meta: ChunkMeta,
    pub span: (usize, usize),
}

/// Mathematical form of a [`CodeChunk`].
pub struct ChunkView {
    pub meta: MetaView,
    pub span: (usize, usize),
}

impl View for CodeChunk {
    type V = ChunkView;

    open spec fn view(&self) -> ChunkView {
        ChunkView { meta: self.meta@, span: self.span }
    }
}

pub open spec fn chunk_views(v: Seq<CodeChunk>) -> Seq<ChunkView> {
    v.map_values(|c: CodeChunk| c@)
}

/// A node of a concrete syntax tree: its grammar kind, the field of its parent
/// that it fills (if any), its byte range in the source, and its children in
/// source order.
pub struct SyntaxNode {
    pub kind: String,
    pub field: Option<String>,
    pub start_byte: usize,
    pub end_byte: usize,
    pub children: Vec<SyntaxNode>,
}

/// Siblings come in source order without overlapping.
pub open spec fn siblings_ordered(cs: Seq<SyntaxNode>) -> bool {
    forall|i: int| 0 <= i < cs.len() - 1 ==> #[trigger] cs[i].end_byte <= cs[i + 1].start_byte
}

/// Every node's range lies inside the source and inside its parent's range,
/// and the children of every node come in source order without overlapping.
pub open spec fn node_wf(n: SyntaxNode, len: int) -> bool
    decreases n,
{
    &&& n.start_byte <= n.end_byte <= len
    &&& siblings_ordered(n.children@)
    &&& forall|i: int|
        #![trigger n.children@[i]]
        0 <= i < n.children@.len() ==> {
            &&& n.start_byte <= n.children@[i].start_byte
            &&& n.children@[i].end_byte <= n.end_byte
            &&& node_wf(n.children@[i], len)
        }
}

pub open spec fn all_wf(sibs: Seq<SyntaxNode>, len: int) -> bool {
    forall|k: int| 0 <= k < sibs.len() ==> node_wf(#[trigger] sibs[k], len)
}

/// Index of the first child from `i` on that fills field `f`.
pub open spec fn field_index_from(cs: Seq<SyntaxNode>, f: Seq<char>, i: int) -> Option<int>
    decreases cs.len() - i,
{
    if i < 0 || i >= cs.len() {
        None
    } else if opt_text(cs[i].field) == Some(f) {
        Some(i)
    } else {
        field_index_from(cs, f, i + 1)
    }
}

/// The first child of `n` that fills field `f`.
pub open spec fn field_child(n: SyntaxNode, f: Seq<char>) -> Option<SyntaxNode> {
    match field_index_from(n.children@, f, 0) {
        Some(i) => Some(n.children@[i]),
        None => None,
    }
}

/// The source text of a node, decoded and trimmed.
pub open spec fn node_text(src: Seq<u8>, n: SyntaxNode) -> Seq<char> {
    spec_trim(lossy_text(src.subrange(n.start_byte as int, n.end_byte as int)))
}

/// The text of the child that fills field `f`.
pub open spec fn field_text(src: Seq<u8>, n: SyntaxNode, f: Seq<char>) -> Option<Seq<char>> {
    match field_child(n, f) {
        Some(c) => Some(node_text(src, c)),
        None => None,
    }
}

/// The text of a node up to its body, or all of it when it has no body.
pub open spec fn signature_text(src: Seq<u8>, n: SyntaxNode) -> Seq<char> {
    match field_child(n, "body"@) {
        Some(b) => spec_trim(lossy_text(src.subrange(n.start_byte as int, b.start_byte as int))),
        None => node_text(src, n),
    }
}

pub open spec fn is_pub_marker(src: Seq<u8>, c: SyntaxNode) -> bool {
    c.kind@ == "visibility_modifier"@ && spec_starts_with(node_text(src, c), "pub"@)
}

/// A node is public when one of its children is a visibility modifier that
/// starts with `pub`.
pub open spec fn spec_is_public(src: Seq<u8>, n: SyntaxNode) -> bool {
    exists|i: int| 0 <= i < n.children@.len() && is_pub_marker(src, #[trigger] n.children@[i])
}

pub open spec fn is_comment(c: SyntaxNode) -> bool {
    c.kind@ == "line_comment"@ || c.kind@ == "block_comment"@
}

pub open spec fn is_doc_text(t: Seq<char>) -> bool {
    spec_starts_with(t, "///"@) || spec_starts_with(t, "//!"@) || spec_starts_with(t, "/**"@)
}

pub open spec fn is_doc_comment(src: Seq<u8>, c: SyntaxNode) -> bool {
    is_comment(c) && is_doc_text(node_text(src, c))
}

/// Whether, scanning back from sibling `k` over comments, a doc comment comes
/// before anything that is not a comment.
pub open spec fn docs_before(src: Seq<u8>, sibs: Seq<SyntaxNode>, k: int) -> bool
    decreases k + 1,
{
    if k < 0 || k >= sibs.len() {
        false
    } else if is_comment(sibs[k]) {
        if is_doc_text(node_text(src, sibs[k])) {
            true
        } else {
            docs_before(src, sibs, k - 1)
        }
    } else {
        false
    }
}

/// Index of the first doc comment of the unbroken run of doc comments that
/// ends at sibling `k` (`k + 1` when sibling `k` is no doc comment).
pub open spec fn doc_run_first(src: Seq<u8>, sibs: Seq<SyntaxNode>, k: int) -> int
    decreases k + 1,
{
    if k < 0 || k >= sibs.len() || !is_doc_comment(src, sibs[k]) {
        k + 1
    } else {
        doc_run_first(src, sibs, k - 1)
    }
}

/// The enclosing modules joined with `::`, or nothing at the top level.
pub open spec fn stack_path(stack: Seq<Seq<char>>) -> Option<Seq<char>> {
    if stack.len() == 0 {
        None
    } else {
        Some(spec_join(stack, "::"@))
    }
}

/// Metadata of the item chunk for sibling `idx`.
pub open spec fn meta_for(
    src: Seq<u8>,
    path: Seq<char>,
    upd: u64,
    sibs: Seq<SyntaxNode>,
    idx: int,
    stack: Seq<Seq<char>>,
    sym: SymbolType,
    name: Option<Seq<char>>,
    parent: Option<Seq<char>>,
) -> MetaView {
    let n = sibs[idx];
    MetaView {
        file_path: path,
        file_hash: 0,
        byte_start: n.start_byte as u64,
        byte_end: n.end_byte as u64,
        chunk_kind: ChunkKind::AstNode,
        updated_at: upd,
        language: Some("rust"@),
        symbol_type: Some(sym),
        symbol_name: name,
        mod_path: stack_path(stack),
        parent_symbol: parent,
        signature: Some(signature_text(src, n)),
        ast_node_type: Some(n.kind@),
        is_public: Some(spec_is_public(src, n)),
        has_docs: Some(docs_before(src, sibs, idx - 1)),
    }
}

/// The doc-comment chunk of sibling `idx`: the run of doc comments right
/// before it, if there is one.
pub open spec fn doc_chunk_for(
    src: Seq<u8>,
    path: Seq<char>,
    upd: u64,
    sibs: Seq<SyntaxNode>,
    idx: int,
    stack: Seq<Seq<char>>,
) -> Option<ChunkView> {
    let n = sibs[idx];
    if idx >= 1 && is_doc_comment(src, sibs[idx - 1]) {
        let first = sibs[doc_run_first(src, sibs, idx - 1)];
        let last = sibs[idx - 1];
        Some(
            ChunkView {
                meta: MetaView {
                    file_path: path,
                    file_hash: 0,
                    byte_start: first.start_byte as u64,
                    byte_end: last.end_byte as u64,
                    chunk_kind: ChunkKind::DocComment,
                    updated_at: upd,
                    language: Some("rust"@),
                    symbol_type: None,
                    symbol_name: field_text(src, n, "name"@),
                    mod_path: stack_path(stack),
                    parent_symbol: if n.kind@ == "function_item"@ {
                        None
                    } else {
                        field_text(src, n, "type"@)
                    },
                    signature: None,
                    ast_node_type: Some("doc_comment"@),
                    is_public: None,
                    has_docs: Some(true),
                },
                span: (first.start_byte, last.end_byte),
            },
        )
    } else {
        None
    }
}

pub open spec fn opt_chunk(o: Option<ChunkView>) -> Seq<ChunkView> {
    match o {
        Some(c) => seq![c],
        None => Seq::empty(),
    }
}

/// The item chunk of sibling `idx` followed by its doc-comment chunk.
pub open spec fn item_chunks(
    src: Seq<u8>,
    path: Seq<char>,
    upd: u64,
    sibs: Seq<SyntaxNode>,
    idx: int,
    stack: Seq<Seq<char>>,
    sym: SymbolType,
    name: Option<Seq<char>>,
    parent: Option<Seq<char>>,
) -> Seq<ChunkView> {
    let n = sibs[idx];
    seq![
        ChunkView {
            meta: meta_for(src, path, upd, sibs, idx, stack, sym, name, parent),
            span: (n.start_byte, n.end_byte),
        },
    ] + opt_chunk(doc_chunk_for(src, path, upd, sibs, idx, stack))
}

/// Symbol type of the item kinds that get a chunk of their own.
pub open spec fn spec_map_kind(k: Seq<char>) -> Option<SymbolType> {
    if k == "function_item"@ {
        Some(SymbolType::Function)
    } else if k == "struct_item"@ {
        Some(SymbolType::Struct)
    } else if k == "enum_item"@ {
        Some(SymbolType::Enum)
    } else if k == "trait_item"@ {
        Some(SymbolType::Trait)
    } else if k == "type_item"@ {
        Some(SymbolType::TypeAlias)
    } else if k == "const_item"@ {
        Some(SymbolType::Const)
    } else if k == "static_item"@ {
        Some(SymbolType::Static)
    } else {
        None
    }
}

/// Method chunks of an impl block: one for each of its children from `i` on
/// that is a function item.
pub open spec fn impl_method_chunks(
    src: Seq<u8>,
    path: Seq<char>,
    upd: u64,
    n: SyntaxNode,
    i: int,
    stack: Seq<Seq<char>>,
    parent: Option<Seq<char>>,
) -> Seq<ChunkView>
    decreases n.children@.len() - i,
{
    if i < 0 || i >= n.children@.len() {
        Seq::empty()
    } else {
        let c = n.children@[i];
        let here = if c.kind@ == "function_item"@ {
            item_chunks(
                src,
                path,
                upd,
                n.children@,
                i,
                stack,
                SymbolType::ImplMethod,
                field_text(src, c, "name"@),
                parent,
            )
        } else {
            Seq::empty()
        };
        here + impl_method_chunks(src, path, upd, n, i + 1, stack, parent)
    }
}

/// The chunks cut from sibling `idx` and everything below it, inside the
/// modules `stack`.
pub open spec fn spec_walk_node(
    src: Seq<u8>,
    path: Seq<char>,
    upd: u64,
    sibs: Seq<SyntaxNode>,
    idx: int,
    stack: Seq<Seq<char>>,
) -> Seq<ChunkView>
    decreases sibs[idx], 1int, 0int,
{
    if idx < 0 || idx >= sibs.len() {
        Seq::empty()
    } else {
        let n = sibs[idx];
        if n.kind@ == "mod_item"@ {
            match field_text(src, n, "name"@) {
                Some(name) => {
                    let inner = stack.push(name);
                    item_chunks(src, path, upd, sibs, idx, inner, SymbolType::Module, Some(name), None)
                        + spec_walk_children(src, path, upd, n, 0, inner)
                },
                None => spec_walk_children(src, path, upd, n, 0, stack),
            }
        } else if n.kind@ == "impl_item"@ {
            let parent = field_text(src, n, "type"@);
            item_chunks(src, path, upd, sibs, idx, stack, SymbolType::Impl, parent, None)
                + impl_method_chunks(src, path, upd, n, 0, stack, parent)
        } else {
            match spec_map_kind(n.kind@) {
                Some(sym) => item_chunks(
                    src,
                    path,
                    upd,
                    sibs,
                    idx,
                    stack,
                    sym,
                    field_text(src, n, "name"@),
                    None,
                ),
                None => spec_walk_children(src, path, upd, n, 0, stack),
            }
        }
    }
}

/// The chunks cut from the children of `p` from child `i` on.
pub open spec fn spec_walk_children(
    src: Seq<u8>,
    path: Seq<char>,
    upd: u64,
    p: SyntaxNode,
    i: int,
    stack: Seq<Seq<char>>,
) -> Seq<ChunkView>
    decreases p, 0int, p.children@.len() - i,
{
    if i < 0 || i >= p.children@.len() {
        Seq::empty()
    } else {
        spec_walk_node(src, path, upd, p.children@, i, stack) + spec_walk_children(
            src,
            path,
            upd,
            p,
            i + 1,
            stack,
        )
    }
}


fn field_is(o: &Option<String>, f: &str) -> (r: bool)
    ensures
        r == (opt_text(*o) == Some(f@)),
{
    match o {
        Some(s) => text_is(s, f),
        None => false,
    }
}

/// Index of the first child of `n` that fills field `f`.
fn field_index(n: &SyntaxNode, f: &str) -> (r: Option<usize>)
    ensures
        match r {
            Some(i) => field_index_from(n.children@, f@, 0) == Some(i as int) && i < n.children@.len(),
            None => field_index_from(n.children@, f@, 0) is None,
        },
{
    let mut i: usize = 0;
    while i < n.children.len()
        invariant
            i <= n.children@.len(),
            field_index_from(n.children@, f@, 0) == field_index_from(n.children@, f@, i as int),
        decreases n.children@.len() - i,
    {
        if field_is(&n.children[i].field, f) {
            return Some(i);
        }
        i = i + 1;
    }
    None
}

/// The source text of a node, decoded and trimmed.
fn slice_str(source: &[u8], n: &SyntaxNode) -> (s: String)
    requires
        n.start_byte <= n.end_byte <= source@.len(),
    ensures
        s@ == node_text(source@, *n),
{
    let bytes = &source[n.start_byte..n.end_byte];
    let text = lossy_string(bytes);
    let cs = chars_of(text.as_str());
    trimmed(&cs)
}

/// The text of a node up to its body.
fn slice_signature(source: &[u8], n: &SyntaxNode) -> (s: String)
    requires
        node_wf(*n, source@.len() as int),
    ensures
        s@ == signature_text(source@, *n),
{
    match field_index(n, "body") {
        Some(b) => {
            let body = &n.children[b];
            assert(n.children@[b as int] == *body);
            assert(node_wf(n.children@[b as int], source@.len() as int));
            assert(body.start_byte <= body.end_byte);
            let bytes = &source[n.start_byte..body.start_byte];
            let text = lossy_string(bytes);
            let cs = chars_of(text.as_str());
            trimmed(&cs)
        },
        None => slice_str(source, n),
    }
}

/// The text of the child filling field `f`, if there is one.
fn field_text_exec(source: &[u8], n: &SyntaxNode, f: &str) -> (r: Option<String>)
    requires
        node_wf(*n, source@.len() as int),
    ensures
        opt_text(r) == field_text(source@, *n, f@),
{
    match field_index(n, f) {
        Some(i) => {
            assert(node_wf(n.children@[i as int], source@.len() as int));
            Some(slice_str(source, &n.children[i]))
        },
        None => None,
    }
}

fn is_public(source: &[u8], n: &SyntaxNode) -> (r: bool)
    requires
        node_wf(*n, source@.len() as int),
    ensures
        r == spec_is_public(source@, *n),
{
    let mut i: usize = 0;
    while i < n.children.len()
        invariant
            i <= n.children@.len(),
            node_wf(*n, source@.len() as int),
            forall|k: int| 0 <= k < i ==> !is_pub_marker(source@, #[trigger] n.children@[k]),
        decreases n.children@.len() - i,
    {
        let c = &n.children[i];
        assert(node_wf(n.children@[i as int], source@.len() as int));
        if text_is(&c.kind, "visibility_modifier") {
            let text = slice_str(source, c);
            if starts_with(&text, "pub") {
                assert(is_pub_marker(source@, n.children@[i as int]));
                return true;
            }
        }
        i = i + 1;
    }
    false
}

fn is_comment_exec(c: &SyntaxNode) -> (r: bool)
    ensures
        r == is_comment(*c),
{
    text_is(&c.kind, "line_comment") || text_is(&c.kind, "block_comment")
}

fn is_doc_text_exec(t: &String) -> (r: bool)
    ensures
        r == is_doc_text(t@),
{
    starts_with(t, "///") || starts_with(t, "//!") || starts_with(t, "/**")
}

fn is_doc_comment_exec(source: &[u8], c: &SyntaxNode) -> (r: bool)
    requires
        node_wf(*c, source@.len() as int),
    ensures
        r == is_doc_comment(source@, *c),
{
    if is_comment_exec(c) {
        let text = slice_str(source, c);
        is_doc_text_exec(&text)
    } else {
        false
    }
}

/// Whether doc comments stand right before sibling `idx`, past ordinary
/// comments.
fn has_docs(source: &[u8], sibs: &Vec<SyntaxNode>, idx: usize) -> (r: bool)
    requires
        idx <= sibs@.len(),
        all_wf(sibs@, source@.len() as int),
    ensures
        r == docs_before(source@, sibs@, idx - 1),
{
    let mut k = idx;
    while k > 0 && is_comment_exec(&sibs[k - 1])
        invariant
            k <= idx <= sibs@.len(),
            all_wf(sibs@, source@.len() as int),
            docs_before(source@, sibs@, idx - 1) == docs_before(source@, sibs@, k - 1),
        decreases k,
    {
        assert(node_wf(sibs@[k - 1], source@.len() as int));
        let text = slice_str(source, &sibs[k - 1]);
        if is_doc_text_exec(&text) {
            return true;
        }
        k = k - 1;
    }
    false
}

fn stack_path_exec(stack: &Vec<String>) -> (r: Option<String>)
    ensures
        opt_text(r) == stack_path(string_views(stack@)),
{
    if stack.len() == 0 {
        None
    } else {
        Some(join(stack, "::"))
    }
}

fn rust_text() -> (s: String)
    ensures
        s@ == "rust"@,
{
    "rust".to_owned()
}

/// The chunk of the doc comments right before sibling `idx`, if any.
fn make_doc_chunk(
    source: &[u8],
    file_path: &String,
    updated_at: u64,
    sibs: &Vec<SyntaxNode>,
    idx: usize,
    stack: &Vec<String>,
) -> (r: Option<CodeChunk>)
    requires
        idx < sibs@.len(),
        all_wf(sibs@, source@.len() as int),
    ensures
        match r {
            Some(c) => doc_chunk_for(source@, file_path@, updated_at, sibs@, idx as int, string_views(stack@)) == Some(c@),
            None => doc_chunk_for(source@, file_path@, updated_at, sibs@, idx as int, string_views(stack@)) is None,
        },
{
    let mut k = idx;
    while k > 0 && is_doc_comment_exec(source, &sibs[k - 1])
        invariant
            k <= idx < sibs@.len(),
            all_wf(sibs@, source@.len() as int),
            k < idx ==> is_doc_comment(source@, sibs@[idx - 1]),
            k < idx ==> doc_run_first(source@, sibs@, idx - 1) == doc_run_first(source@, sibs@, k - 1),
        decreases k,
    {
        assert(node_wf(sibs@[k - 1], source@.len() as int));
        k = k - 1;
    }
    if k == idx {
        return None;
    }
    let n = &sibs[idx];
    assert(node_wf(sibs@[idx as int], source@.len() as int));
    let start = sibs[k].start_byte;
    let end = sibs[idx - 1].end_byte;
    let parent = if text_is(&n.kind, "function_item") {
        None
    } else {
        field_text_exec(source, n, "type")
    };
    let dt: String = "doc_comment".to_owned();
    Some(
        CodeChunk {
            meta: ChunkMeta {
                file_path: file_path.clone(),
                file_hash: 0,
                byte_start: start as u64,
                byte_end: end as u64,
                chunk_kind: ChunkKind::DocComment,
                updated_at,
                language: Some(rust_text()),
                symbol_type: None,
                symbol_name: field_text_exec(source, n, "name"),
                mod_path: stack_path_exec(stack),
                parent_symbol: parent,
                signature: None,
                ast_node_type: Some(dt),
                is_public: None,
                has_docs: Some(true),
            },
            span: (start, end),
        },
    )
}

/// Pushes the item chunk of sibling `idx` and then its doc-comment chunk.
fn push_item(
    source: &[u8],
    file_path: &String,
    updated_at: u64,
    sibs: &Vec<SyntaxNode>,
    idx: usize,
    stack: &Vec<String>,
    sym: SymbolType,
    name: Option<String>,
    parent: Option<String>,
    out: &mut Vec<CodeChunk>,
)
    requires
        idx < sibs@.len(),
        all_wf(sibs@, source@.len() as int),
    ensures
        chunk_views(final(out)@) == chunk_views(old(out)@) + item_chunks(
            source@,
            file_path@,
            updated_at,
            sibs@,
            idx as int,
            string_views(stack@),
            sym,
            opt_text(name),
            opt_text(parent),
        ),
{
    let n = &sibs[idx];
    assert(node_wf(sibs@[idx as int], source@.len() as int));
    let meta = ChunkMeta {
        file_path: file_path.clone(),
        file_hash: 0,
        byte_start: n.start_byte as u64,
        byte_end: n.end_byte as u64,
        chunk_kind: ChunkKind::AstNode,
        updated_at,
        language: Some(rust_text()),
        symbol_type: Some(sym),
        symbol_name: name,
        mod_path: stack_path_exec(stack),
        parent_symbol: parent,
        signature: Some(slice_signature(source, n)),
        ast_node_type: Some(n.kind.clone()),
        is_public: Some(is_public(source, n)),
        has_docs: Some(has_docs(source, sibs, idx)),
    };
    let ghost before = chunk_views(out@);
    out.push(CodeChunk { meta, span: (n.start_byte, n.end_byte) });
    let doc = make_doc_chunk(source, file_path, updated_at, sibs, idx, stack);
    match doc {
        Some(d) => {
            out.push(d);
        },
        None => {},
    }
    assert(chunk_views(out@) =~= before + item_chunks(
        source@,
        file_path@,
        updated_at,
        sibs@,
        idx as int,
        string_views(stack@),
        sym,
        opt_text(name),
        opt_text(parent),
    ));
}


/// Symbol type of the item kinds that get a chunk of their own.
fn map_kind(kind: &String) -> (r: Option<SymbolType>)
    ensures
        r == spec_map_kind(kind@),
{
    if text_is(kind, "function_item") {
        Some(SymbolType::Function)
    } else if text_is(kind, "struct_item") {
        Some(SymbolType::Struct)
    } else if text_is(kind, "enum_item") {
        Some(SymbolType::Enum)
    } else if text_is(kind, "trait_item") {
        Some(SymbolType::Trait)
    } else if text_is(kind, "type_item") {
        Some(SymbolType::TypeAlias)
    } else if text_is(kind, "const_item") {
        Some(SymbolType::Const)
    } else if text_is(kind, "static_item") {
        Some(SymbolType::Static)
    } else {
        None
    }
}

/// Pushes the chunks of the function items among the children of impl
/// block `n`.
fn push_impl_methods(
    source: &[u8],
    file_path: &String,
    updated_at: u64,
    n: &SyntaxNode,
    stack: &Vec<String>,
    parent: &Option<String>,
    out: &mut Vec<CodeChunk>,
)
    requires
        node_wf(*n, source@.len() as int),
    ensures
        chunk_views(final(out)@) == chunk_views(old(out)@) + impl_method_chunks(
            source@,
            file_path@,
            updated_at,
            *n,
            0,
            string_views(stack@),
            opt_text(*parent),
        ),
{
    let ghost stk = string_views(stack@);
    let ghost par = opt_text(*parent);
    let ghost total = impl_method_chunks(source@, file_path@, updated_at, *n, 0, stk, par);
    let mut i: usize = 0;
    assert(all_wf(n.children@, source@.len() as int));
    while i < n.children.len()
        invariant
            i <= n.children@.len(),
            node_wf(*n, source@.len() as int),
            all_wf(n.children@, source@.len() as int),
            stk == string_views(stack@),
            par == opt_text(*parent),
            total == impl_method_chunks(source@, file_path@, updated_at, *n, 0, stk, par),
            chunk_views(out@) + impl_method_chunks(source@, file_path@, updated_at, *n, i as int, stk, par)
                == chunk_views(old(out)@) + total,
        decreases n.children@.len() - i,
    {
        let c = &n.children[i];
        let ghost before = chunk_views(out@);
        let ghost rest = impl_method_chunks(source@, file_path@, updated_at, *n, i + 1, stk, par);
        assert(node_wf(n.children@[i as int], source@.len() as int));
        if text_is(&c.kind, "function_item") {
            let name = field_text_exec(source, c, "name");
            push_item(
                source,
                file_path,
                updated_at,
                &n.children,
                i,
                stack,
                SymbolType::ImplMethod,
                name,
                copy_opt_string(parent),
                out,
            );
            assert(chunk_views(out@) + rest =~= before + impl_method_chunks(
                source@,
                file_path@,
                updated_at,
                *n,
                i as int,
                stk,
                par,
            ));
        } else {
            assert(impl_method_chunks(source@, file_path@, updated_at, *n, i as int, stk, par) =~= rest);
        }
        i = i + 1;
    }
    assert(chunk_views(out@) =~= chunk_views(out@) + Seq::<ChunkView>::empty());
}

/// Cuts sibling `idx` and everything below it into chunks, inside the modules
/// `module_stack`.
fn walk(
    source: &[u8],
    file_path: &String,
    updated_at: u64,
    sibs: &Vec<SyntaxNode>,
    idx: usize,
    module_stack: &mut Vec<String>,
    out: &mut Vec<CodeChunk>,
)
    requires
        idx < sibs@.len(),
        all_wf(sibs@, source@.len() as int),
    ensures
        final(module_stack)@ == old(module_stack)@,
        chunk_views(final(out)@) == chunk_views(old(out)@) + spec_walk_node(
            source@,
            file_path@,
            updated_at,
            sibs@,
            idx as int,
            string_views(old(module_stack)@),
        ),
    decreases sibs@[idx as int], 1int, 0int,
{
    let n = &sibs[idx];
    assert(node_wf(sibs@[idx as int], source@.len() as int));
    let ghost stk = string_views(module_stack@);
    if text_is(&n.kind, "mod_item") {
        match field_text_exec(source, n, "name") {
            Some(name) => {
                let ghost before = chunk_views(out@);
                module_stack.push(name.clone());
                assert(string_views(module_stack@) =~= stk.push(name@));
                push_item(
                    source,
                    file_path,
                    updated_at,
                    sibs,
                    idx,
                    module_stack,
                    SymbolType::Module,
                    Some(name),
                    None,
                    out,
                );
                walk_children(source, file_path, updated_at, n, module_stack, out);
                let _ = module_stack.pop();
                assert(module_stack@ =~= old(module_stack)@);
                assert(chunk_views(out@) =~= before + spec_walk_node(
                    source@,
                    file_path@,
                    updated_at,
                    sibs@,
                    idx as int,
                    stk,
                ));
            },
            None => {
                walk_children(source, file_path, updated_at, n, module_stack, out);
            },
        }
    } else if text_is(&n.kind, "impl_item") {
        let ghost before = chunk_views(out@);
        let parent = field_text_exec(source, n, "type");
        push_item(
            source,
            file_path,
            updated_at,
            sibs,
            idx,
            module_stack,
            SymbolType::Impl,
            copy_opt_string(&parent),
            None,
            out,
        );
        push_impl_methods(source, file_path, updated_at, n, module_stack, &parent, out);
        assert(chunk_views(out@) =~= before + spec_walk_node(
            source@,
            file_path@,
            updated_at,
            sibs@,
            idx as int,
            stk,
        ));
    } else {
        match map_kind(&n.kind) {
            Some(sym) => {
                let name = field_text_exec(source, n, "name");
                push_item(
                    source,
                    file_path,
                    updated_at,
                    sibs,
                    idx,
                    module_stack,
                    sym,
                    name,
                    None,
                    out,
                );
            },
            None => {
                walk_children(source, file_path, updated_at, n, module_stack, out);
            },
        }
    }
}

/// Cuts every child of `p` and everything below them into chunks.
fn walk_children(
    source: &[u8],
    file_path: &String,
    updated_at: u64,
    p: &SyntaxNode,
    module_stack: &mut Vec<String>,
    out: &mut Vec<CodeChunk>,
)
    requires
        node_wf(*p, source@.len() as int),
    ensures
        final(module_stack)@ == old(module_stack)@,
        chunk_views(final(out)@) == chunk_views(old(out)@) + spec_walk_children(
            source@,
            file_path@,
            updated_at,
            *p,
            0,
            string_views(old(module_stack)@),
        ),
    decreases *p, 0int, 0int,
{
    let ghost stk = string_views(module_stack@);
    let ghost total = spec_walk_children(source@, file_path@, updated_at, *p, 0, stk);
    let mut i: usize = 0;
    assert(all_wf(p.children@, source@.len() as int));
    while i < p.children.len()
        invariant
            i <= p.children@.len(),
            node_wf(*p, source@.len() as int),
            all_wf(p.children@, source@.len() as int),
            module_stack@ == old(module_stack)@,
            stk == string_views(old(module_stack)@),
            total == spec_walk_children(source@, file_path@, updated_at, *p, 0, stk),
            chunk_views(out@) + spec_walk_children(source@, file_path@, updated_at, *p, i as int, stk)
                == chunk_views(old(out)@) + total,
        decreases p.children@.len() - i,
    {
        let ghost before = chunk_views(out@);
        let ghost rest = spec_walk_children(source@, file_path@, updated_at, *p, i + 1, stk);
        walk(source, file_path, updated_at, &p.children, i, module_stack, out);
        assert(chunk_views(out@) + rest =~= before + spec_walk_children(
            source@,
            file_path@,
            updated_at,
            *p,
            i as int,
            stk,
        ));
        i = i + 1;
    }
    assert(chunk_views(out@) =~= chunk_views(out@) + Seq::<ChunkView>::empty());
}


/// The chunks of a whole source file whose syntax tree is `root`.
pub open spec fn spec_rust_chunks(src: Seq<u8>, path: Seq<char>, upd: u64, root: SyntaxNode) -> Seq<
    ChunkView,
> {
    spec_walk_node(src, path, upd, seq![root], 0, Seq::empty())
}

/// Why a source file could not be cut along its syntax tree.
#[derive(Debug, Clone, Copy, PartialEq, Eq, Structural)]
pub enum ChunkError {
    /// The parser produced no tree.
    ParseFailed,
    /// A node's byte range lies outside the source or its parent.
    MalformedTree,
}

/// Checks that every node's range lies inside the source and its parent.
pub fn check_tree(n: &SyntaxNode, len: usize) -> (r: bool)
    ensures
        r == node_wf(*n, len as int),
    decreases *n,
{
    if n.start_byte > n.end_byte || n.end_byte > len {
        return false;
    }
    let mut j: usize = 1;
    while j < n.children.len()
        invariant
            1 <= j,
            j <= n.children@.len() || n.children@.len() == 0,
            forall|k: int| 0 <= k < j - 1 && k < n.children@.len() - 1 ==> #[trigger] n.children@[k].end_byte <= n.children@[k + 1].start_byte,
        decreases n.children@.len() - j,
    {
        if n.children[j - 1].end_byte > n.children[j].start_byte {
            assert(!siblings_ordered(n.children@));
            return false;
        }
        j = j + 1;
    }
    assert(siblings_ordered(n.children@));
    let mut i: usize = 0;
    while i < n.children.len()
        invariant
            i <= n.children@.len(),
            n.start_byte <= n.end_byte <= len,
            siblings_ordered(n.children@),
            forall|k: int|
                #![trigger n.children@[k]]
                0 <= k < i ==> {
                    &&& n.start_byte <= n.children@[k].start_byte
                    &&& n.children@[k].end_byte <= n.end_byte
                    &&& node_wf(n.children@[k], len as int)
                },
        decreases n.children@.len() - i,
    {
        let c = &n.children[i];
        if c.start_byte < n.start_byte || c.end_byte > n.end_byte || !check_tree(c, len) {
            assert(!(n.start_byte <= n.children@[i as int].start_byte && n.children@[i as int].end_byte
                <= n.end_byte && node_wf(n.children@[i as int], len as int)));
            return false;
        }
        i = i + 1;
    }
    true
}

/// Cuts a source file into chunks along its syntax tree `root`, or reports a
/// tree whose ranges do not fit the source.
pub fn chunks_from_tree(file_path: &String, source: &[u8], updated_at: u64, root: SyntaxNode) -> (r:
    Result<Vec<CodeChunk>, ChunkError>)
    ensures
        match r {
            Ok(cs) => node_wf(root, source@.len() as int) && chunk_views(cs@) == spec_rust_chunks(
                source@,
                file_path@,
                updated_at,
                root,
            ),
            Err(e) => !node_wf(root, source@.len() as int) && e == ChunkError::MalformedTree,
        },
{
    if !check_tree(&root, source.len()) {
        return Err(ChunkError::MalformedTree);
    }
    let ghost r0 = root;
    let mut roots: Vec<SyntaxNode> = Vec::new();
    roots.push(root);
    assert(roots@ =~= seq![r0]);
    let mut stack: Vec<String> = Vec::new();
    let mut out: Vec<CodeChunk> = Vec::new();
    walk(source, file_path, updated_at, &roots, 0, &mut stack, &mut out);
    assert(string_views(Seq::<String>::empty()) =~= Seq::<Seq<char>>::empty());
    assert(chunk_views(Seq::<CodeChunk>::empty()) =~= Seq::<ChunkView>::empty());
    Ok(out)
}

/// What tree-sitter's Rust grammar (`tree_sitter_rust::LANGUAGE`) parses a
/// source into, as a [`SyntaxNode`] tree; nothing when the parser gives no tree.
pub uninterp spec fn rust_syntax_tree(source: Seq<u8>) -> Option<SyntaxNode>;

#[verifier::external_type_specification]
#[verifier::external_body]
pub struct ExTreeSitterNode<'tree>(tree_sitter::Node<'tree>);

/// Copies a tree-sitter node and everything below it into a [`SyntaxNode`]:
/// kind, the field it fills in its parent (`TreeCursor::field_name`), byte
/// range, and children in order. Nothing is stated of the result.
#[verifier::external_body]
fn syntax_node(node: tree_sitter::Node, field: Option<&str>) -> SyntaxNode {
    let mut children = Vec::new();
    let mut cursor = node.walk();
    if cursor.goto_first_child() {
        loop {
            children.push(syntax_node(cursor.node(), cursor.field_name()));
            if !cursor.goto_next_sibling() {
                break;
            }
        }
    }
    let kind = node.kind().to_string();
    let field = field.map(|f| f.to_string());
    SyntaxNode { kind, field, start_byte: node.start_byte(), end_byte: node.end_byte(), children }
}

/// `tree_sitter::Parser::parse` with the Rust grammar, the root converted by
/// `syntax_node`. Claims that the result is a function of the source bytes
/// alone, named `rust_syntax_tree`; a grammar the parser refuses gives nothing,
/// as a parse without a tree does.
#[verifier::external_body]
fn parse_rust(source: &[u8]) -> (r: Option<SyntaxNode>)
    ensures
        r == rust_syntax_tree(source@),
{
    let mut parser = tree_sitter::Parser::new();
    parser.set_language(&tree_sitter_rust::LANGUAGE.into()).ok()?;
    let tree = parser.parse(source, None)?;
    Some(syntax_node(tree.root_node(), None))
}

/// Parses a Rust source file and cuts it into chunks along its syntax tree:
/// one chunk per module, impl block, function, struct, enum, trait, type
/// alias, const and static, each followed by a chunk for the doc comments
/// right before it.
pub fn split_rust_ast(file_path: &String, source: &[u8], updated_at: u64) -> (r: Result<
    Vec<CodeChunk>,
    ChunkError,
>)
    ensures
        match r {
            Ok(cs) => rust_syntax_tree(source@) matches Some(t) && node_wf(t, source@.len() as int)
                && chunk_views(cs@) == spec_rust_chunks(source@, file_path@, updated_at, t),
            Err(ChunkError::ParseFailed) => rust_syntax_tree(source@) is None,
            Err(ChunkError::MalformedTree) => rust_syntax_tree(source@) matches Some(t) && !node_wf(
                t,
                source@.len() as int,
            ),
        },
{
    match parse_rust(source) {
        None => Err(ChunkError::ParseFailed),
        Some(root) => chunks_from_tree(file_path, source, updated_at, root),
    }
}


/// Every chunk's byte range is ordered and ends inside a source of `len` bytes.
pub open spec fn spans_within(cs: Seq<ChunkView>, len: int) -> bool {
    forall|i: int| #![trigger cs[i]] 0 <= i < cs.len() ==> (cs[i].span.0 <= cs[i].span.1 && cs[i].span.1 <= len)
}

proof fn lemma_spans_within_concat(a: Seq<ChunkView>, b: Seq<ChunkView>, len: int)
    requires
        spans_within(a, len),
        spans_within(b, len),
    ensures
        spans_within(a + b, len),
{
    assert forall|i: int| 0 <= i < (a + b).len() implies #[trigger] (a + b)[i].span.0 <= (a + b)[i].span.1
        && (a + b)[i].span.1 <= len by {
        if i < a.len() {
            assert((a + b)[i] == a[i]);
        } else {
            assert((a + b)[i] == b[i - a.len()]);
        }
    }
}

proof fn lemma_ordered_range(sibs: Seq<SyntaxNode>, len: int, j: int, k: int)
    requires
        all_wf(sibs, len),
        siblings_ordered(sibs),
        0 <= j <= k < sibs.len(),
    ensures
        sibs[j].start_byte <= sibs[k].end_byte,
    decreases k - j,
{
    assert(node_wf(sibs[k], len));
    if j < k {
        lemma_ordered_range(sibs, len, j, k - 1);
        assert(sibs[k - 1].end_byte <= sibs[k].start_byte);
    }
}

proof fn lemma_doc_run_first_range(src: Seq<u8>, sibs: Seq<SyntaxNode>, k: int)
    requires
        0 <= k < sibs.len(),
        is_doc_comment(src, sibs[k]),
    ensures
        0 <= doc_run_first(src, sibs, k) <= k,
    decreases k,
{
    assert(doc_run_first(src, sibs, k) == doc_run_first(src, sibs, k - 1));
    if k > 0 && is_doc_comment(src, sibs[k - 1]) {
        lemma_doc_run_first_range(src, sibs, k - 1);
    } else {
        assert(doc_run_first(src, sibs, k - 1) == k);
    }
}

proof fn lemma_item_chunks_within(
    src: Seq<u8>,
    path: Seq<char>,
    upd: u64,
    sibs: Seq<SyntaxNode>,
    idx: int,
    stack: Seq<Seq<char>>,
    sym: SymbolType,
    name: Option<Seq<char>>,
    parent: Option<Seq<char>>,
)
    requires
        0 <= idx < sibs.len(),
        all_wf(sibs, src.len() as int),
        siblings_ordered(sibs),
    ensures
        spans_within(item_chunks(src, path, upd, sibs, idx, stack, sym, name, parent), src.len() as int),
{
    let len = src.len() as int;
    assert(node_wf(sibs[idx], len));
    let cs = item_chunks(src, path, upd, sibs, idx, stack, sym, name, parent);
    if idx >= 1 && is_doc_comment(src, sibs[idx - 1]) {
        lemma_doc_run_first_range(src, sibs, idx - 1);
        let j = doc_run_first(src, sibs, idx - 1);
        lemma_ordered_range(sibs, len, j, idx - 1);
        assert(node_wf(sibs[idx - 1], len));
    }
    assert forall|i: int| 0 <= i < cs.len() implies #[trigger] cs[i].span.0 <= cs[i].span.1 && cs[i].span.1
        <= len by {
    }
}

proof fn lemma_impl_methods_within(
    src: Seq<u8>,
    path: Seq<char>,
    upd: u64,
    n: SyntaxNode,
    i: int,
    stack: Seq<Seq<char>>,
    parent: Option<Seq<char>>,
)
    requires
        node_wf(n, src.len() as int),
    ensures
        spans_within(impl_method_chunks(src, path, upd, n, i, stack, parent), src.len() as int),
    decreases n.children@.len() - i,
{
    let len = src.len() as int;
    if 0 <= i < n.children@.len() {
        let c = n.children@[i];
        assert(all_wf(n.children@, len));
        lemma_impl_methods_within(src, path, upd, n, i + 1, stack, parent);
        if c.kind@ == "function_item"@ {
            lemma_item_chunks_within(
                src,
                path,
                upd,
                n.children@,
                i,
                stack,
                SymbolType::ImplMethod,
                field_text(src, c, "name"@),
                parent,
            );
            lemma_spans_within_concat(
                item_chunks(
                    src,
                    path,
                    upd,
                    n.children@,
                    i,
                    stack,
                    SymbolType::ImplMethod,
                    field_text(src, c, "name"@),
                    parent,
                ),
                impl_method_chunks(src, path, upd, n, i + 1, stack, parent),
                len,
            );
        } else {
            lemma_spans_within_concat(
                Seq::empty(),
                impl_method_chunks(src, path, upd, n, i + 1, stack, parent),
                len,
            );
        }
    }
}

proof fn lemma_walk_node_within(
    src: Seq<u8>,
    path: Seq<char>,
    upd: u64,
    sibs: Seq<SyntaxNode>,
    idx: int,
    stack: Seq<Seq<char>>,
)
    requires
        all_wf(sibs, src.len() as int),
        siblings_ordered(sibs),
    ensures
        spans_within(spec_walk_node(src, path, upd, sibs, idx, stack), src.len() as int),
    decreases sibs[idx], 1int, 0int,
{
    let len = src.len() as int;
    if 0 <= idx < sibs.len() {
        let n = sibs[idx];
        assert(node_wf(n, len));
        if n.kind@ == "mod_item"@ {
            match field_text(src, n, "name"@) {
                Some(name) => {
                    let inner = stack.push(name);
                    lemma_item_chunks_within(src, path, upd, sibs, idx, inner, SymbolType::Module, Some(name), None);
                    lemma_walk_children_within(src, path, upd, n, 0, inner);
                    lemma_spans_within_concat(
                        item_chunks(src, path, upd, sibs, idx, inner, SymbolType::Module, Some(name), None),
                        spec_walk_children(src, path, upd, n, 0, inner),
                        len,
                    );
                },
                None => {
                    lemma_walk_children_within(src, path, upd, n, 0, stack);
                },
            }
        } else if n.kind@ == "impl_item"@ {
            let parent = field_text(src, n, "type"@);
            lemma_item_chunks_within(src, path, upd, sibs, idx, stack, SymbolType::Impl, parent, None);
            lemma_impl_methods_within(src, path, upd, n, 0, stack, parent);
            lemma_spans_within_concat(
                item_chunks(src, path, upd, sibs, idx, stack, SymbolType::Impl, parent, None),
                impl_method_chunks(src, path, upd, n, 0, stack, parent),
                len,
            );
        } else {
            match spec_map_kind(n.kind@) {
                Some(sym) => {
                    lemma_item_chunks_within(src, path, upd, sibs, idx, stack, sym, field_text(src, n, "name"@), None);
                },
                None => {
                    lemma_walk_children_within(src, path, upd, n, 0, stack);
                },
            }
        }
    }
}

proof fn lemma_walk_children_within(
    src: Seq<u8>,
    path: Seq<char>,
    upd: u64,
    p: SyntaxNode,
    i: int,
    stack: Seq<Seq<char>>,
)
    requires
        node_wf(p, src.len() as int),
    ensures
        spans_within(spec_walk_children(src, path, upd, p, i, stack), src.len() as int),
    decreases p, 0int, p.children@.len() - i,
{
    let len = src.len() as int;
    if 0 <= i < p.children@.len() {
        assert(all_wf(p.children@, len));
        lemma_walk_node_within(src, path, upd, p.children@, i, stack);
        lemma_walk_children_within(src, path, upd, p, i + 1, stack);
        lemma_spans_within_concat(
            spec_walk_node(src, path, upd, p.children@, i, stack),
            spec_walk_children(src, path, upd, p, i + 1, stack),
            len,
        );
    }
}

/// Every chunk cut from a well-formed syntax tree lies inside the source:
/// its start is at most its end, and its end at most the source's length.
pub proof fn law_code_chunks_within_source(src: Seq<u8>, path: Seq<char>, upd: u64, root: SyntaxNode)
    requires
        node_wf(root, src.len() as int),
    ensures
        spans_within(spec_rust_chunks(src, path, upd, root), src.len() as int),
{
    assert(all_wf(seq![root], src.len() as int));
    assert(siblings_ordered(seq![root]));
    lemma_walk_node_within(src, path, upd, seq![root], 0, Seq::empty());
}

proof fn lemma_doc_run_first(src: Seq<u8>, sibs: Seq<SyntaxNode>, k: int)
    requires
        -1 <= k < sibs.len(),
    ensures
        0 <= doc_run_first(src, sibs, k) <= k + 1,
        forall|l: int| doc_run_first(src, sibs, k) <= l <= k ==> #[trigger] is_doc_comment(src, sibs[l]),
        doc_run_first(src, sibs, k) == 0 || !is_doc_comment(src, sibs[doc_run_first(src, sibs, k) - 1]),
    decreases k + 1,
{
    if k >= 0 && is_doc_comment(src, sibs[k]) {
        lemma_doc_run_first(src, sibs, k - 1);
    }
}

proof fn lemma_siblings_monotone(sibs: Seq<SyntaxNode>, a: int, b: int)
    requires
        siblings_ordered(sibs),
        forall|k: int| 0 <= k < sibs.len() ==> #[trigger] sibs[k].start_byte <= sibs[k].end_byte,
        0 <= a <= b < sibs.len(),
    ensures
        sibs[a].start_byte <= sibs[b].start_byte,
        sibs[a].end_byte <= sibs[b].end_byte,
    decreases b - a,
{
    if a < b {
        lemma_siblings_monotone(sibs, a, b - 1);
        assert(sibs[b - 1].end_byte <= sibs[b].start_byte);
        assert(sibs[b - 1].start_byte <= sibs[b - 1].end_byte);
        assert(sibs[b].start_byte <= sibs[b].end_byte);
    }
}

proof fn lemma_run_inside(src: Seq<u8>, sibs: Seq<SyntaxNode>, m: int, idx: int, k: int)
    requires
        0 <= m < idx <= sibs.len(),
        0 <= k < idx,
        siblings_ordered(sibs),
        forall|x: int| 0 <= x < sibs.len() ==> #[trigger] sibs[x].start_byte <= sibs[x].end_byte,
        m == 0 || !is_doc_comment(src, sibs[m - 1]),
        forall|l: int| k <= l < idx ==> #[trigger] is_doc_comment(src, sibs[l]),
    ensures
        sibs[m].start_byte <= sibs[k].start_byte,
        sibs[k].end_byte <= sibs[idx - 1].end_byte,
{
    if k < m {
        assert(is_doc_comment(src, sibs[m - 1]));
    }
    lemma_siblings_monotone(sibs, m, k);
    lemma_siblings_monotone(sibs, k, idx - 1);
}

/// The doc-comment chunk of an item covers the whole unbroken run of doc
/// comments right before it: there is one exactly when the sibling right
/// before the item is a doc comment; it starts where the first comment of the
/// run starts (a comment that is the first sibling or follows something that
/// is no doc comment) and ends where the last, right before the item, ends;
/// and every doc comment of that run lies inside it.
#[verifier::rlimit(50)]
pub proof fn law_doc_chunk_covers_doc_run(
    src: Seq<u8>,
    path: Seq<char>,
    upd: u64,
    sibs: Seq<SyntaxNode>,
    idx: int,
    stack: Seq<Seq<char>>,
)
    requires
        0 <= idx < sibs.len(),
        siblings_ordered(sibs),
        forall|k: int| 0 <= k < sibs.len() ==> #[trigger] sibs[k].start_byte <= sibs[k].end_byte,
    ensures
        doc_chunk_for(src, path, upd, sibs, idx, stack) is Some <==> (idx >= 1 && is_doc_comment(
            src,
            sibs[idx - 1],
        )),
        doc_chunk_for(src, path, upd, sibs, idx, stack) matches Some(c) ==> exists|m: int|
            0 <= m < idx && (forall|l: int| m <= l < idx ==> #[trigger] is_doc_comment(src, sibs[l])) && (m
                == 0 || !is_doc_comment(src, sibs[m - 1])) && #[trigger] c.span == (
                sibs[m].start_byte,
                sibs[idx - 1].end_byte,
            ),
        doc_chunk_for(src, path, upd, sibs, idx, stack) matches Some(c) ==> forall|k: int|
            0 <= k < idx && (forall|l: int| k <= l < idx ==> #[trigger] is_doc_comment(src, sibs[l]))
                ==> c.span.0 <= #[trigger] sibs[k].start_byte && sibs[k].end_byte <= c.span.1,
{
    if idx >= 1 && is_doc_comment(src, sibs[idx - 1]) {
        lemma_doc_run_first(src, sibs, idx - 1);
        let m = doc_run_first(src, sibs, idx - 1);
        let c = doc_chunk_for(src, path, upd, sibs, idx, stack).unwrap();
        assert(c.span == (sibs[m].start_byte, sibs[idx - 1].end_byte));
        assert forall|k: int|
            0 <= k < idx && (forall|l: int| k <= l < idx ==> #[trigger] is_doc_comment(src, sibs[l]))
                implies c.span.0 <= #[trigger] sibs[k].start_byte && sibs[k].end_byte <= c.span.1 by {
            lemma_run_inside(src, sibs, m, idx, k);
        }
    }
}

} // verus!
