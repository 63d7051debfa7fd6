//! Grouping of chunks into context groups: an item together with the chunks
//! that belong to it (its documentation, its methods, its impls, the items of
//! a module), and a loose group for every chunk that belongs to none.
use crate::storage::types::{opt_text, ChunkId, ChunkKind, ChunkMeta, SymbolType};
use vstd::prelude::*;
use vstd::string::StringExecFns;

verus! {

/// A group of chunks that are returned together.
#[derive(Debug, Clone)]
pub enum ContextGroup {
    Loose { chunk: ChunkId },
    Function { signature: ChunkId, body: Vec<ChunkId>, docs: Option<ChunkId> },
    Module { declaration: ChunkId, items: Vec<ChunkId> },
    Impl { declaration: ChunkId, methods: Vec<ChunkId>, docs: Option<ChunkId> },
    Struct {
        declaration: ChunkId,
        fields: Vec<ChunkId>,
        impls: Vec<ChunkId>,
        docs: Option<ChunkId>,
    },
    Enum {
        declaration: ChunkId,
        variants: Vec<ChunkId>,
        impls: Vec<ChunkId>,
        docs: Option<ChunkId>,
    },
    Trait { declaration: ChunkId, items: Vec<ChunkId>, impls: Vec<ChunkId>, docs: Option<ChunkId> },
}

/// All groups built from one set of chunks.
#[derive(Debug, Clone)]
pub struct GroupIndex {
    pub groups: Vec<ContextGroup>,
}

/// Mathematical form of a [`ContextGroup`].
pub enum GroupView {
    Loose { chunk: ChunkId },
    Function { signature: ChunkId, body: Seq<ChunkId>, docs: Option<ChunkId> },
    Module { declaration: ChunkId, items: Seq<ChunkId> },
    Impl { declaration: ChunkId, methods: Seq<ChunkId>, docs: Option<ChunkId> },
    Struct {
        declaration: ChunkId,
        fields: Seq<ChunkId>,
        impls: Seq<ChunkId>,
        docs: Option<ChunkId>,
    },
    Enum {
        declaration: ChunkId,
        variants: Seq<ChunkId>,
        impls: Seq<ChunkId>,
        docs: Option<ChunkId>,
    },
    Trait { declaration: ChunkId, items: Seq<ChunkId>, impls: Seq<ChunkId>, docs: Option<ChunkId> },
}

impl View for ContextGroup {
    type V = GroupView;

    open spec fn view(&self) -> GroupView {
        match self {
            ContextGroup::Loose { chunk } => GroupView::Loose { chunk: *chunk },
            ContextGroup::Function { signature, body, docs } => GroupView::Function {
                signature: *signature,
                body: body@,
                docs: *docs,
            },
            ContextGroup::Module { declaration, items } => GroupView::Module {
                declaration: *declaration,
                items: items@,
            },
            ContextGroup::Impl { declaration, methods, docs } => GroupView::Impl {
                declaration: *declaration,
                methods: methods@,
                docs: *docs,
            },
            ContextGroup::Struct { declaration, fields, impls, docs } => GroupView::Struct {
                declaration: *declaration,
                fields: fields@,
                impls: impls@,
                docs: *docs,
            },
            ContextGroup::Enum { declaration, variants, impls, docs } => GroupView::Enum {
                declaration: *declaration,
                variants: variants@,
                impls: impls@,
                docs: *docs,
            },
            ContextGroup::Trait { declaration, items, impls, docs } => GroupView::Trait {
                declaration: *declaration,
                items: items@,
                impls: impls@,
                docs: *docs,
            },
        }
    }
}

impl View for GroupIndex {
    type V = Seq<GroupView>;

    open spec fn view(&self) -> Seq<GroupView> {
        self.groups@.map_values(|g: ContextGroup| g@)
    }
}

pub open spec fn opt_seq(o: Option<ChunkId>) -> Seq<ChunkId> {
    match o {
        Some(x) => seq![x],
        None => Seq::empty(),
    }
}

/// The chunks a group holds, its primary chunk first, then its parts in
/// order, then its documentation.
pub open spec fn members(g: GroupView) -> Seq<ChunkId> {
    match g {
        GroupView::Loose { chunk } => seq![chunk],
        GroupView::Function { signature, body, docs } => seq![signature] + body + opt_seq(docs),
        GroupView::Module { declaration, items } => seq![declaration] + items,
        GroupView::Impl { declaration, methods, docs } => seq![declaration] + methods + opt_seq(
            docs,
        ),
        GroupView::Struct { declaration, fields, impls, docs } => seq![declaration] + fields + impls
            + opt_seq(docs),
        GroupView::Enum { declaration, variants, impls, docs } => seq![declaration] + variants
            + impls + opt_seq(docs),
        GroupView::Trait { declaration, items, impls, docs } => seq![declaration] + items + impls
            + opt_seq(docs),
    }
}

/// The chunk that a group is named after.
pub open spec fn primary(g: GroupView) -> ChunkId {
    match g {
        GroupView::Loose { chunk } => chunk,
        GroupView::Function { signature, .. } => signature,
        GroupView::Module { declaration, .. } => declaration,
        GroupView::Impl { declaration, .. } => declaration,
        GroupView::Struct { declaration, .. } => declaration,
        GroupView::Enum { declaration, .. } => declaration,
        GroupView::Trait { declaration, .. } => declaration,
    }
}

fn push_all(out: &mut Vec<ChunkId>, src: &Vec<ChunkId>)
    ensures
        final(out)@ == old(out)@ + src@,
{
    let mut i: usize = 0;
    while i < src.len()
        invariant
            i <= src@.len(),
            out@ == old(out)@ + src@.take(i as int),
        decreases src@.len() - i,
    {
        out.push(src[i]);
        assert(src@.take(i + 1) =~= src@.take(i as int).push(src@[i as int]));
        i = i + 1;
    }
    assert(src@.take(src@.len() as int) =~= src@);
}

fn push_opt(out: &mut Vec<ChunkId>, o: &Option<ChunkId>)
    ensures
        final(out)@ == old(out)@ + opt_seq(*o),
{
    if let Some(d) = o {
        out.push(*d);
    }
    assert(old(out)@ + Seq::<ChunkId>::empty() =~= old(out)@);
}

/// The identifiers of the chunks that a group holds, primary chunk first.
pub fn member_ids(group: &ContextGroup) -> (ids: Vec<ChunkId>)
    ensures
        ids@ == members(group@),
{
    let mut ids: Vec<ChunkId> = Vec::new();
    match group {
        ContextGroup::Loose { chunk } => {
            ids.push(*chunk);
        },
        ContextGroup::Function { signature, body, docs } => {
            ids.push(*signature);
            push_all(&mut ids, body);
            push_opt(&mut ids, docs);
        },
        ContextGroup::Module { declaration, items } => {
            ids.push(*declaration);
            push_all(&mut ids, items);
        },
        ContextGroup::Impl { declaration, methods, docs } => {
            ids.push(*declaration);
            push_all(&mut ids, methods);
            push_opt(&mut ids, docs);
        },
        ContextGroup::Struct { declaration, fields, impls, docs } => {
            ids.push(*declaration);
            push_all(&mut ids, fields);
            push_all(&mut ids, impls);
            push_opt(&mut ids, docs);
        },
        ContextGroup::Enum { declaration, variants, impls, docs } => {
            ids.push(*declaration);
            push_all(&mut ids, variants);
            push_all(&mut ids, impls);
            push_opt(&mut ids, docs);
        },
        ContextGroup::Trait { declaration, items, impls, docs } => {
            ids.push(*declaration);
            push_all(&mut ids, items);
            push_all(&mut ids, impls);
            push_opt(&mut ids, docs);
        },
    }
    assert(ids@ =~= members(group@));
    ids
}

/// The chunk a group is named after.
pub fn primary_id(group: &ContextGroup) -> (id: ChunkId)
    ensures
        id == primary(group@),
{
    match group {
        ContextGroup::Loose { chunk } => *chunk,
        ContextGroup::Function { signature, .. } => *signature,
        ContextGroup::Module { declaration, .. } => *declaration,
        ContextGroup::Impl { declaration, .. } => *declaration,
        ContextGroup::Struct { declaration, .. } => *declaration,
        ContextGroup::Enum { declaration, .. } => *declaration,
        ContextGroup::Trait { declaration, .. } => *declaration,
    }
}


/// The name a documentation chunk documents: its symbol name, or else the
/// name of its parent symbol. Other chunks document nothing.
pub open spec fn doc_key(m: ChunkMeta) -> Option<Seq<char>> {
    if m.chunk_kind == ChunkKind::DocComment {
        if m.symbol_name is Some {
            opt_text(m.symbol_name)
        } else {
            opt_text(m.parent_symbol)
        }
    } else {
        None
    }
}

/// The documentation chunk of `name`: the last chunk that documents it.
pub open spec fn docs_for(s: Seq<(ChunkId, ChunkMeta)>, name: Seq<char>) -> Option<ChunkId>
    decreases s.len(),
{
    if s.len() == 0 {
        None
    } else if doc_key(s.last().1) == Some(name) {
        Some(s.last().0)
    } else {
        docs_for(s.drop_last(), name)
    }
}

/// How a chunk can belong to a named item.
#[derive(Clone, Copy, PartialEq, Eq, Structural)]
pub enum Relation {
    /// An impl block whose target is the name.
    ImplOf,
    /// A method of an impl block whose target is the name.
    MethodOf,
    /// Any chunk whose module path is the name.
    InModule,
}

pub open spec fn related(m: ChunkMeta, rel: Relation, name: Seq<char>) -> bool {
    match rel {
        Relation::ImplOf => m.symbol_type == Some(SymbolType::Impl) && opt_text(m.symbol_name)
            == Some(name),
        Relation::MethodOf => m.symbol_type == Some(SymbolType::ImplMethod) && opt_text(
            m.parent_symbol,
        ) == Some(name),
        Relation::InModule => opt_text(m.mod_path) == Some(name),
    }
}

/// The chunks, in order, that stand in relation `rel` to `name`.
pub open spec fn related_ids(s: Seq<(ChunkId, ChunkMeta)>, rel: Relation, name: Seq<char>) -> Seq<
    ChunkId,
>
    decreases s.len(),
{
    if s.len() == 0 {
        Seq::empty()
    } else {
        let prev = related_ids(s.drop_last(), rel, name);
        if related(s.last().1, rel, name) {
            prev.push(s.last().0)
        } else {
            prev
        }
    }
}

pub open spec fn related_or_none(s: Seq<(ChunkId, ChunkMeta)>, rel: Relation, key: Option<Seq<char>>) -> Seq<ChunkId> {
    match key {
        Some(k) => related_ids(s, rel, k),
        None => Seq::empty(),
    }
}

pub open spec fn docs_or_none(s: Seq<(ChunkId, ChunkMeta)>, key: Option<Seq<char>>) -> Option<ChunkId> {
    match key {
        Some(k) => docs_for(s, k),
        None => None,
    }
}

/// `parent::name` when the chunk has a module path, `name` when it has none.
pub open spec fn spec_full_module_path(m: ChunkMeta) -> Option<Seq<char>> {
    match m.symbol_name {
        None => None,
        Some(n) => match m.mod_path {
            Some(p) => Some(p@ + seq![':', ':'] + n@),
            None => Some(n@),
        },
    }
}

/// The group a chunk heads, if its symbol type heads one; `all` is every chunk.
pub open spec fn group_of(all: Seq<(ChunkId, ChunkMeta)>, c: (ChunkId, ChunkMeta)) -> Option<GroupView> {
    let id = c.0;
    let m = c.1;
    let name = opt_text(m.symbol_name);
    match m.symbol_type {
        Some(SymbolType::Function) => Some(
            GroupView::Function { signature: id, body: Seq::empty(), docs: docs_or_none(all, name) },
        ),
        Some(SymbolType::Impl) => Some(
            GroupView::Impl {
                declaration: id,
                methods: related_or_none(all, Relation::MethodOf, name),
                docs: docs_or_none(all, name),
            },
        ),
        Some(SymbolType::Struct) => Some(
            GroupView::Struct {
                declaration: id,
                fields: Seq::empty(),
                impls: related_or_none(all, Relation::ImplOf, name),
                docs: docs_or_none(all, name),
            },
        ),
        Some(SymbolType::Enum) => Some(
            GroupView::Enum {
                declaration: id,
                variants: Seq::empty(),
                impls: related_or_none(all, Relation::ImplOf, name),
                docs: docs_or_none(all, name),
            },
        ),
        Some(SymbolType::Trait) => Some(
            GroupView::Trait {
                declaration: id,
                items: Seq::empty(),
                impls: related_or_none(all, Relation::ImplOf, name),
                docs: docs_or_none(all, name),
            },
        ),
        Some(SymbolType::Module) => Some(
            GroupView::Module {
                declaration: id,
                items: related_or_none(all, Relation::InModule, spec_full_module_path(m)),
            },
        ),
        _ => None,
    }
}

/// The groups headed by the first `k` chunks, in chunk order.
pub open spec fn structured_groups(all: Seq<(ChunkId, ChunkMeta)>, k: int) -> Seq<GroupView>
    decreases k,
{
    if k <= 0 {
        Seq::empty()
    } else {
        let prev = structured_groups(all, k - 1);
        match group_of(all, all[k - 1]) {
            Some(g) => prev.push(g),
            None => prev,
        }
    }
}

/// The members of the groups headed by the first `k` chunks.
pub open spec fn structured_members(all: Seq<(ChunkId, ChunkMeta)>, k: int) -> Seq<ChunkId>
    decreases k,
{
    if k <= 0 {
        Seq::empty()
    } else {
        let prev = structured_members(all, k - 1);
        match group_of(all, all[k - 1]) {
            Some(g) => prev + members(g),
            None => prev,
        }
    }
}

pub open spec fn chunk_ids(s: Seq<(ChunkId, ChunkMeta)>) -> Seq<ChunkId> {
    s.map_values(|c: (ChunkId, ChunkMeta)| c.0)
}

/// Chunk `j` stands alone when no group holds it and no earlier chunk has the
/// same identifier.
pub open spec fn is_loose_at(all: Seq<(ChunkId, ChunkMeta)>, j: int) -> bool {
    &&& !structured_members(all, all.len() as int).contains(all[j].0)
    &&& !chunk_ids(all.take(j)).contains(all[j].0)
}

/// The loose groups of the first `k` chunks, in chunk order.
pub open spec fn loose_groups(all: Seq<(ChunkId, ChunkMeta)>, k: int) -> Seq<GroupView>
    decreases k,
{
    if k <= 0 {
        Seq::empty()
    } else {
        let prev = loose_groups(all, k - 1);
        if is_loose_at(all, k - 1) {
            prev.push(GroupView::Loose { chunk: all[k - 1].0 })
        } else {
            prev
        }
    }
}

/// The groups that `build_groups` returns: first the groups that functions,
/// impls, structs, enums, traits and modules head, in chunk order, then one
/// loose group for each chunk that none of them holds.
pub open spec fn spec_build_groups(all: Seq<(ChunkId, ChunkMeta)>) -> Seq<GroupView> {
    structured_groups(all, all.len() as int) + loose_groups(all, all.len() as int)
}

fn opt_string_is(o: &Option<String>, name: &String) -> (r: bool)
    ensures
        r == (opt_text(*o) == Some(name@)),
{
    match o {
        Some(s) => *s == *name,
        None => false,
    }
}

fn doc_key_is(m: &ChunkMeta, name: &String) -> (r: bool)
    ensures
        r == (doc_key(*m) == Some(name@)),
{
    if m.chunk_kind == ChunkKind::DocComment {
        if m.symbol_name.is_some() {
            opt_string_is(&m.symbol_name, name)
        } else {
            opt_string_is(&m.parent_symbol, name)
        }
    } else {
        false
    }
}

fn related_exec(m: &ChunkMeta, rel: Relation, name: &String) -> (r: bool)
    ensures
        r == related(*m, rel, name@),
{
    match rel {
        Relation::ImplOf => m.symbol_type == Some(SymbolType::Impl) && opt_string_is(
            &m.symbol_name,
            name,
        ),
        Relation::MethodOf => m.symbol_type == Some(SymbolType::ImplMethod) && opt_string_is(
            &m.parent_symbol,
            name,
        ),
        Relation::InModule => opt_string_is(&m.mod_path, name),
    }
}

fn find_docs(chunks: &[(ChunkId, ChunkMeta)], name: &String) -> (r: Option<ChunkId>)
    ensures
        r == docs_for(chunks@, name@),
{
    let mut found: Option<ChunkId> = None;
    let mut i: usize = 0;
    while i < chunks.len()
        invariant
            i <= chunks@.len(),
            found == docs_for(chunks@.take(i as int), name@),
        decreases chunks@.len() - i,
    {
        assert(chunks@.take(i + 1).drop_last() =~= chunks@.take(i as int));
        if doc_key_is(&chunks[i].1, name) {
            found = Some(chunks[i].0);
        }
        i = i + 1;
    }
    assert(chunks@.take(chunks@.len() as int) =~= chunks@);
    found
}

fn collect_related(chunks: &[(ChunkId, ChunkMeta)], rel: Relation, name: &String) -> (r: Vec<
    ChunkId,
>)
    ensures
        r@ == related_ids(chunks@, rel, name@),
{
    let mut out: Vec<ChunkId> = Vec::new();
    let mut i: usize = 0;
    while i < chunks.len()
        invariant
            i <= chunks@.len(),
            out@ == related_ids(chunks@.take(i as int), rel, name@),
        decreases chunks@.len() - i,
    {
        assert(chunks@.take(i + 1).drop_last() =~= chunks@.take(i as int));
        if related_exec(&chunks[i].1, rel, name) {
            out.push(chunks[i].0);
        }
        i = i + 1;
    }
    assert(chunks@.take(chunks@.len() as int) =~= chunks@);
    out
}

/// `parent::name` for a chunk with a module path, `name` for one without, and
/// nothing for a chunk without a name.
pub fn full_module_path(meta: &ChunkMeta) -> (r: Option<String>)
    ensures
        opt_text(r) == spec_full_module_path(*meta),
{
    match &meta.symbol_name {
        None => None,
        Some(name) => match &meta.mod_path {
            Some(parent) => {
                let mut s = parent.clone();
                s.append("::");
                s.append(name.as_str());
                proof {
                    reveal_strlit("::");
                }
                Some(s)
            },
            None => Some(name.clone()),
        },
    }
}

fn docs_lookup(chunks: &[(ChunkId, ChunkMeta)], key: &Option<String>) -> (r: Option<ChunkId>)
    ensures
        r == docs_or_none(chunks@, opt_text(*key)),
{
    match key {
        Some(k) => find_docs(chunks, k),
        None => None,
    }
}

fn related_lookup(chunks: &[(ChunkId, ChunkMeta)], rel: Relation, key: &Option<String>) -> (r: Vec<
    ChunkId,
>)
    ensures
        r@ == related_or_none(chunks@, rel, opt_text(*key)),
{
    match key {
        Some(k) => collect_related(chunks, rel, k),
        None => Vec::new(),
    }
}

fn make_group(chunks: &[(ChunkId, ChunkMeta)], id: ChunkId, meta: &ChunkMeta) -> (r: Option<
    ContextGroup,
>)
    ensures
        match r {
            Some(g) => group_of(chunks@, (id, *meta)) == Some(g@),
            None => group_of(chunks@, (id, *meta)) is None,
        },
{
    match meta.symbol_type {
        Some(SymbolType::Function) => Some(
            ContextGroup::Function {
                signature: id,
                body: Vec::new(),
                docs: docs_lookup(chunks, &meta.symbol_name),
            },
        ),
        Some(SymbolType::Impl) => Some(
            ContextGroup::Impl {
                declaration: id,
                methods: related_lookup(chunks, Relation::MethodOf, &meta.symbol_name),
                docs: docs_lookup(chunks, &meta.symbol_name),
            },
        ),
        Some(SymbolType::Struct) => Some(
            ContextGroup::Struct {
                declaration: id,
                fields: Vec::new(),
                impls: related_lookup(chunks, Relation::ImplOf, &meta.symbol_name),
                docs: docs_lookup(chunks, &meta.symbol_name),
            },
        ),
        Some(SymbolType::Enum) => Some(
            ContextGroup::Enum {
                declaration: id,
                variants: Vec::new(),
                impls: related_lookup(chunks, Relation::ImplOf, &meta.symbol_name),
                docs: docs_lookup(chunks, &meta.symbol_name),
            },
        ),
        Some(SymbolType::Trait) => Some(
            ContextGroup::Trait {
                declaration: id,
                items: Vec::new(),
                impls: related_lookup(chunks, Relation::ImplOf, &meta.symbol_name),
                docs: docs_lookup(chunks, &meta.symbol_name),
            },
        ),
        Some(SymbolType::Module) => {
            let path = full_module_path(meta);
            Some(
                ContextGroup::Module {
                    declaration: id,
                    items: related_lookup(chunks, Relation::InModule, &path),
                },
            )
        },
        _ => None,
    }
}

fn contains_id(v: &Vec<ChunkId>, id: &ChunkId) -> (r: bool)
    ensures
        r == v@.contains(*id),
{
    let mut i: usize = 0;
    while i < v.len()
        invariant
            i <= v@.len(),
            forall|j: int| 0 <= j < i ==> v@[j] != *id,
        decreases v@.len() - i,
    {
        if v[i].same(id) {
            return true;
        }
        i = i + 1;
    }
    false
}

proof fn lemma_push_contains<A>(s: Seq<A>, a: A, x: A)
    ensures
        s.push(a).contains(x) <==> (s.contains(x) || x == a),
{
    if s.contains(x) {
        let k = choose|k: int| 0 <= k < s.len() && s[k] == x;
        assert(s.push(a)[k] == x);
    }
    if x == a {
        assert(s.push(a)[s.len() as int] == x);
    }
    if s.push(a).contains(x) {
        let k = choose|k: int| 0 <= k < s.push(a).len() && s.push(a)[k] == x;
        if k < s.len() {
            assert(s[k] == x);
        }
    }
}

/// Builds the context groups of a set of chunks (see [`spec_build_groups`]).
pub fn build_groups(chunks: &[(ChunkId, ChunkMeta)]) -> (index: GroupIndex)
    ensures
        index@ == spec_build_groups(chunks@),
{
    let ghost all = chunks@;
    let n = chunks.len();
    let mut groups: Vec<ContextGroup> = Vec::new();
    let mut grouped: Vec<ChunkId> = Vec::new();
    let mut i: usize = 0;
    while i < n
        invariant
            n == all.len(),
            all == chunks@,
            i <= n,
            groups@.map_values(|g: ContextGroup| g@) == structured_groups(all, i as int),
            grouped@ == structured_members(all, i as int),
        decreases n - i,
    {
        let id = chunks[i].0;
        let made = make_group(chunks, id, &chunks[i].1);
        assert((id, chunks@[i as int].1) == all[i as int]);
        match made {
            Some(g) => {
                let m = member_ids(&g);
                push_all(&mut grouped, &m);
                groups.push(g);
                assert(groups@.map_values(|g: ContextGroup| g@) =~= structured_groups(
                    all,
                    i as int,
                ).push(g@));
            },
            None => {},
        }
        i = i + 1;
    }
    let ghost structured = grouped@;
    let ghost sgroups = groups@.map_values(|g: ContextGroup| g@);
    let mut seen: Vec<ChunkId> = Vec::new();
    i = 0;
    while i < n
        invariant
            n == all.len(),
            all == chunks@,
            i <= n,
            structured == structured_members(all, n as int),
            grouped@ == structured,
            sgroups == structured_groups(all, n as int),
            groups@.map_values(|g: ContextGroup| g@) == sgroups + loose_groups(all, i as int),
            forall|x: ChunkId|
                #![trigger seen@.contains(x)]
                seen@.contains(x) <==> (!structured.contains(x) && chunk_ids(
                    all.take(i as int),
                ).contains(x)),
        decreases n - i,
    {
        let id = chunks[i].0;
        let ghost ids_before = chunk_ids(all.take(i as int));
        let ghost seen_before = seen@;
        let ghost groups_before = groups@.map_values(|g: ContextGroup| g@);
        assert(chunk_ids(all.take(i + 1)) =~= ids_before.push(id));
        assert(all[i as int].0 == id);
        if contains_id(&grouped, &id) || contains_id(&seen, &id) {
            assert(!is_loose_at(all, i as int));
            assert forall|x: ChunkId| #![trigger seen@.contains(x)]
                seen@.contains(x) <==> (!structured.contains(x) && chunk_ids(
                    all.take(i + 1),
                ).contains(x)) by {
                lemma_push_contains(ids_before, id, x);
            }
        } else {
            assert(is_loose_at(all, i as int));
            groups.push(ContextGroup::Loose { chunk: id });
            seen.push(id);
            assert(groups@.map_values(|g: ContextGroup| g@) =~= groups_before.push(GroupView::Loose { chunk: id }));
            assert forall|x: ChunkId| #![trigger seen@.contains(x)]
                seen@.contains(x) <==> (!structured.contains(x) && chunk_ids(
                    all.take(i + 1),
                ).contains(x)) by {
                lemma_push_contains(ids_before, id, x);
                lemma_push_contains(seen_before, id, x);
            }
        }
        i = i + 1;
    }
    GroupIndex { groups }
}


proof fn lemma_structured_member_in_group(all: Seq<(ChunkId, ChunkMeta)>, k: int, x: ChunkId)
    requires
        0 <= k <= all.len(),
        structured_members(all, k).contains(x),
    ensures
        exists|g: int|
            0 <= g < structured_groups(all, k).len() && #[trigger] members(
                structured_groups(all, k)[g],
            ).contains(x),
    decreases k,
{
    let prev_m = structured_members(all, k - 1);
    let prev_g = structured_groups(all, k - 1);
    match group_of(all, all[k - 1]) {
        Some(grp) => {
            assert(structured_groups(all, k) == prev_g.push(grp));
            if prev_m.contains(x) {
                lemma_structured_member_in_group(all, k - 1, x);
                let g = choose|g: int| 0 <= g < prev_g.len() && #[trigger] members(prev_g[g]).contains(x);
                assert(structured_groups(all, k)[g] == prev_g[g]);
            } else {
                let t = choose|t: int| 0 <= t < (prev_m + members(grp)).len() && (prev_m + members(grp))[t] == x;
                assert(members(grp)[t - prev_m.len()] == x);
                assert(members(grp).contains(x));
                assert(structured_groups(all, k)[prev_g.len() as int] == grp);
            }
        },
        None => {
            lemma_structured_member_in_group(all, k - 1, x);
        },
    }
}

proof fn lemma_loose_group_present(all: Seq<(ChunkId, ChunkMeta)>, k: int, j: int)
    requires
        0 <= j < k <= all.len(),
        is_loose_at(all, j),
    ensures
        loose_groups(all, k).contains(GroupView::Loose { chunk: all[j].0 }),
    decreases k,
{
    let prev = loose_groups(all, k - 1);
    if j == k - 1 {
        assert(loose_groups(all, k) == prev.push(GroupView::Loose { chunk: all[j].0 }));
        assert(loose_groups(all, k)[prev.len() as int] == GroupView::Loose { chunk: all[j].0 });
    } else {
        lemma_loose_group_present(all, k - 1, j);
        let t = choose|t: int| 0 <= t < prev.len() && prev[t] == GroupView::Loose { chunk: all[j].0 };
        if is_loose_at(all, k - 1) {
            assert(loose_groups(all, k)[t] == prev[t]);
        }
    }
}

/// Every chunk lands in some group: for each input chunk there is a group
/// among those `build_groups` returns whose members include its identifier.
pub proof fn law_every_chunk_grouped(chunks: Seq<(ChunkId, ChunkMeta)>, j: int)
    requires
        0 <= j < chunks.len(),
    ensures
        exists|g: int|
            0 <= g < spec_build_groups(chunks).len() && #[trigger] members(
                spec_build_groups(chunks)[g],
            ).contains(chunks[j].0),
{
    let n = chunks.len() as int;
    let sg = structured_groups(chunks, n);
    let lg = loose_groups(chunks, n);
    let all_g = spec_build_groups(chunks);
    let x = chunks[j].0;
    if structured_members(chunks, n).contains(x) {
        lemma_structured_member_in_group(chunks, n, x);
        let g = choose|g: int| 0 <= g < sg.len() && #[trigger] members(sg[g]).contains(x);
        assert(all_g[g] == sg[g]);
        assert(members(all_g[g]).contains(x));
    } else {
        let ids = chunk_ids(chunks);
        let first = ids.index_of_first(x);
        ids.index_of_first_ensures(x);
        assert(ids[j] == x);
        let j0 = first.unwrap();
        assert(!chunk_ids(chunks.take(j0)).contains(x)) by {
            if chunk_ids(chunks.take(j0)).contains(x) {
                let t = choose|t: int| 0 <= t < j0 && chunk_ids(chunks.take(j0))[t] == x;
                assert(ids[t] == x);
            }
        }
        assert(chunks[j0].0 == x);
        assert(is_loose_at(chunks, j0));
        lemma_loose_group_present(chunks, n, j0);
        let t = choose|t: int| 0 <= t < lg.len() && lg[t] == GroupView::Loose { chunk: x };
        assert(all_g[sg.len() + t] == lg[t]);
        assert(members(GroupView::Loose { chunk: x })[0] == x);
        assert(members(all_g[sg.len() + t]).contains(x));
    }
}

/// A group's members begin with its primary chunk.
pub proof fn law_primary_is_first_member(g: GroupView)
    ensures
        members(g).len() > 0,
        members(g)[0] == primary(g),
{
}

/// Whether `x` is one of the chunks that group `g` holds in any of its parts:
/// its primary chunk, its body, items, methods, fields, variants or impls, or
/// its documentation.
pub open spec fn held_by(g: GroupView, x: ChunkId) -> bool {
    match g {
        GroupView::Loose { chunk } => x == chunk,
        GroupView::Function { signature, body, docs } => x == signature || body.contains(x) || docs
            == Some(x),
        GroupView::Module { declaration, items } => x == declaration || items.contains(x),
        GroupView::Impl { declaration, methods, docs } => x == declaration || methods.contains(x)
            || docs == Some(x),
        GroupView::Struct { declaration, fields, impls, docs } => x == declaration || fields.contains(
            x,
        ) || impls.contains(x) || docs == Some(x),
        GroupView::Enum { declaration, variants, impls, docs } => x == declaration
            || variants.contains(x) || impls.contains(x) || docs == Some(x),
        GroupView::Trait { declaration, items, impls, docs } => x == declaration || items.contains(x)
            || impls.contains(x) || docs == Some(x),
    }
}

/// How many chunk references group `g` holds over all its parts.
pub open spec fn held_count(g: GroupView) -> int {
    match g {
        GroupView::Loose { .. } => 1,
        GroupView::Function { body, docs, .. } => 1 + body.len() + if docs is Some { 1int } else { 0 },
        GroupView::Module { items, .. } => 1 + items.len() as int,
        GroupView::Impl { methods, docs, .. } => 1 + methods.len() + if docs is Some { 1int } else { 0 },
        GroupView::Struct { fields, impls, docs, .. } => 1 + fields.len() + impls.len() + if docs is Some {
            1int
        } else {
            0
        },
        GroupView::Enum { variants, impls, docs, .. } => 1 + variants.len() + impls.len() + if docs is Some {
            1int
        } else {
            0
        },
        GroupView::Trait { items, impls, docs, .. } => 1 + items.len() + impls.len() + if docs is Some {
            1int
        } else {
            0
        },
    }
}

proof fn lemma_add_contains(a: Seq<ChunkId>, b: Seq<ChunkId>, x: ChunkId)
    ensures
        (a + b).contains(x) <==> (a.contains(x) || b.contains(x)),
{
    if (a + b).contains(x) {
        let k = choose|k: int| 0 <= k < (a + b).len() && (a + b)[k] == x;
        if k < a.len() {
            assert(a[k] == x);
        } else {
            assert(b[k - a.len()] == x);
        }
    }
    if a.contains(x) {
        let k = choose|k: int| 0 <= k < a.len() && a[k] == x;
        assert((a + b)[k] == x);
    }
    if b.contains(x) {
        let k = choose|k: int| 0 <= k < b.len() && b[k] == x;
        assert((a + b)[a.len() + k] == x);
    }
}

proof fn lemma_opt_seq(o: Option<ChunkId>, x: ChunkId)
    ensures
        opt_seq(o).contains(x) <==> o == Some(x),
        opt_seq(o).len() == if o is Some { 1int } else { 0 },
{
    if o == Some(x) {
        assert(opt_seq(o)[0] == x);
    }
}

/// The members of a group are exactly the chunks it holds in its parts, each
/// reference once: every chunk in the primary, body, items, methods, fields,
/// variants, impls or documentation of a group is a member (and no other
/// chunk is), and there are as many members as references.
pub proof fn law_members_are_the_group_parts(g: GroupView, x: ChunkId)
    ensures
        members(g).contains(x) <==> held_by(g, x),
        members(g).len() == held_count(g),
{
    match g {
        GroupView::Loose { chunk } => {
            if x == chunk {
                assert(members(g)[0] == x);
            }
        },
        GroupView::Function { signature, body, docs } => {
            lemma_add_contains(seq![signature], body, x);
            lemma_add_contains(seq![signature] + body, opt_seq(docs), x);
            lemma_opt_seq(docs, x);
        },
        GroupView::Module { declaration, items } => {
            lemma_add_contains(seq![declaration], items, x);
        },
        GroupView::Impl { declaration, methods, docs } => {
            lemma_add_contains(seq![declaration], methods, x);
            lemma_add_contains(seq![declaration] + methods, opt_seq(docs), x);
            lemma_opt_seq(docs, x);
        },
        GroupView::Struct { declaration, fields, impls, docs } => {
            lemma_add_contains(seq![declaration], fields, x);
            lemma_add_contains(seq![declaration] + fields, impls, x);
            lemma_add_contains(seq![declaration] + fields + impls, opt_seq(docs), x);
            lemma_opt_seq(docs, x);
        },
        GroupView::Enum { declaration, variants, impls, docs } => {
            lemma_add_contains(seq![declaration], variants, x);
            lemma_add_contains(seq![declaration] + variants, impls, x);
            lemma_add_contains(seq![declaration] + variants + impls, opt_seq(docs), x);
            lemma_opt_seq(docs, x);
        },
        GroupView::Trait { declaration, items, impls, docs } => {
            lemma_add_contains(seq![declaration], items, x);
            lemma_add_contains(seq![declaration] + items, impls, x);
            lemma_add_contains(seq![declaration] + items + impls, opt_seq(docs), x);
            lemma_opt_seq(docs, x);
        },
    }
    if x == primary(g) {
        law_primary_is_first_member(g);
    }
}

/// Chunk `j` is a `sym` item with identifier `decl`, and `impls` are exactly
/// the impl blocks for its name, in input order.
pub open spec fn heads_with_impls(
    chunks: Seq<(ChunkId, ChunkMeta)>,
    j: int,
    sym: SymbolType,
    decl: ChunkId,
    impls: Seq<ChunkId>,
) -> bool {
    &&& 0 <= j < chunks.len()
    &&& chunks[j].0 == decl
    &&& chunks[j].1.symbol_type == Some(sym)
    &&& impls == related_or_none(chunks, Relation::ImplOf, opt_text(chunks[j].1.symbol_name))
}

proof fn lemma_structured_origin(all: Seq<(ChunkId, ChunkMeta)>, k: int, i: int)
    requires
        0 <= k <= all.len(),
        0 <= i < structured_groups(all, k).len(),
    ensures
        exists|j: int| 0 <= j < k && #[trigger] group_of(all, all[j]) == Some(structured_groups(all, k)[i]),
    decreases k,
{
    let prev = structured_groups(all, k - 1);
    match group_of(all, all[k - 1]) {
        Some(g) => {
            if i < prev.len() {
                lemma_structured_origin(all, k - 1, i);
                assert(structured_groups(all, k)[i] == prev[i]);
            } else {
                assert(structured_groups(all, k)[i] == g);
                assert(group_of(all, all[k - 1]) == Some(structured_groups(all, k)[i]));
            }
        },
        None => {
            lemma_structured_origin(all, k - 1, i);
        },
    }
}

proof fn lemma_structured_has(all: Seq<(ChunkId, ChunkMeta)>, k: int, j: int)
    requires
        0 <= j < k <= all.len(),
        group_of(all, all[j]) is Some,
    ensures
        structured_groups(all, k).contains(group_of(all, all[j]).unwrap()),
    decreases k,
{
    let prev = structured_groups(all, k - 1);
    let g = group_of(all, all[j]).unwrap();
    if j == k - 1 {
        assert(structured_groups(all, k)[prev.len() as int] == g);
    } else {
        lemma_structured_has(all, k - 1, j);
        let t = choose|t: int| 0 <= t < prev.len() && prev[t] == g;
        match group_of(all, all[k - 1]) {
            Some(h) => {
                assert(structured_groups(all, k)[t] == g);
            },
            None => {},
        }
    }
}

proof fn lemma_loose_only(all: Seq<(ChunkId, ChunkMeta)>, k: int, i: int)
    requires
        0 <= i < loose_groups(all, k).len(),
    ensures
        loose_groups(all, k)[i] is Loose,
    decreases k,
{
    if k > 0 {
        let prev = loose_groups(all, k - 1);
        if i < prev.len() {
            lemma_loose_only(all, k - 1, i);
            if is_loose_at(all, k - 1) {
                assert(loose_groups(all, k)[i] == prev[i]);
            }
        }
    }
}

/// The impl blocks that struct, enum and trait groups hold: every such group
/// that `build_groups` returns is headed by an input chunk of that kind and
/// holds exactly the impl blocks whose target is that chunk's name, in input
/// order; and every struct, enum or trait chunk heads such a group.
pub proof fn law_type_groups_hold_their_impls(chunks: Seq<(ChunkId, ChunkMeta)>)
    ensures
        forall|i: int|
            0 <= i < spec_build_groups(chunks).len() ==> match #[trigger] spec_build_groups(chunks)[i] {
                GroupView::Struct { declaration, impls, .. } => exists|j: int|
                    heads_with_impls(chunks, j, SymbolType::Struct, declaration, impls),
                GroupView::Enum { declaration, impls, .. } => exists|j: int|
                    heads_with_impls(chunks, j, SymbolType::Enum, declaration, impls),
                GroupView::Trait { declaration, impls, .. } => exists|j: int|
                    heads_with_impls(chunks, j, SymbolType::Trait, declaration, impls),
                _ => true,
            },
        forall|j: int|
            0 <= j < chunks.len() && #[trigger] chunks[j].1.symbol_type == Some(SymbolType::Enum)
                ==> exists|i: int|
                #![trigger spec_build_groups(chunks)[i]]
                0 <= i < spec_build_groups(chunks).len() && (spec_build_groups(chunks)[i] matches GroupView::Enum {
                    declaration,
                    impls,
                    ..
                } && heads_with_impls(chunks, j, SymbolType::Enum, declaration, impls)),
        forall|j: int|
            0 <= j < chunks.len() && #[trigger] chunks[j].1.symbol_type == Some(SymbolType::Struct)
                ==> exists|i: int|
                #![trigger spec_build_groups(chunks)[i]]
                0 <= i < spec_build_groups(chunks).len() && (spec_build_groups(chunks)[i] matches GroupView::Struct {
                    declaration,
                    impls,
                    ..
                } && heads_with_impls(chunks, j, SymbolType::Struct, declaration, impls)),
        forall|j: int|
            0 <= j < chunks.len() && #[trigger] chunks[j].1.symbol_type == Some(SymbolType::Trait)
                ==> exists|i: int|
                #![trigger spec_build_groups(chunks)[i]]
                0 <= i < spec_build_groups(chunks).len() && (spec_build_groups(chunks)[i] matches GroupView::Trait {
                    declaration,
                    impls,
                    ..
                } && heads_with_impls(chunks, j, SymbolType::Trait, declaration, impls)),
{
    let n = chunks.len() as int;
    let sg = structured_groups(chunks, n);
    let all_g = spec_build_groups(chunks);
    assert forall|i: int| 0 <= i < all_g.len() implies match #[trigger] all_g[i] {
        GroupView::Struct { declaration, impls, .. } => exists|j: int|
            heads_with_impls(chunks, j, SymbolType::Struct, declaration, impls),
        GroupView::Enum { declaration, impls, .. } => exists|j: int|
            heads_with_impls(chunks, j, SymbolType::Enum, declaration, impls),
        GroupView::Trait { declaration, impls, .. } => exists|j: int|
            heads_with_impls(chunks, j, SymbolType::Trait, declaration, impls),
        _ => true,
    } by {
        if i < sg.len() {
            assert(all_g[i] == sg[i]);
            lemma_structured_origin(chunks, n, i);
            let j = choose|j: int| 0 <= j < n && #[trigger] group_of(chunks, chunks[j]) == Some(sg[i]);
            match all_g[i] {
                GroupView::Struct { declaration, impls, .. } => {
                    assert(heads_with_impls(chunks, j, SymbolType::Struct, declaration, impls));
                },
                GroupView::Enum { declaration, impls, .. } => {
                    assert(heads_with_impls(chunks, j, SymbolType::Enum, declaration, impls));
                },
                GroupView::Trait { declaration, impls, .. } => {
                    assert(heads_with_impls(chunks, j, SymbolType::Trait, declaration, impls));
                },
                _ => {},
            }
        } else {
            lemma_loose_only(chunks, n, i - sg.len());
            assert(all_g[i] == loose_groups(chunks, n)[i - sg.len()]);
        }
    }
    assert forall|j: int|
        0 <= j < chunks.len() && #[trigger] chunks[j].1.symbol_type == Some(SymbolType::Enum) implies exists|i: int|
        #![trigger all_g[i]]
        0 <= i < all_g.len() && (all_g[i] matches GroupView::Enum { declaration, impls, .. }
            && heads_with_impls(chunks, j, SymbolType::Enum, declaration, impls)) by {
        lemma_structured_has(chunks, n, j);
        let g = group_of(chunks, chunks[j]).unwrap();
        let i = choose|i: int| 0 <= i < sg.len() && sg[i] == g;
        assert(all_g[i] == g);
    }
    assert forall|j: int|
        0 <= j < chunks.len() && #[trigger] chunks[j].1.symbol_type == Some(SymbolType::Struct) implies exists|i: int|
        #![trigger all_g[i]]
        0 <= i < all_g.len() && (all_g[i] matches GroupView::Struct { declaration, impls, .. }
            && heads_with_impls(chunks, j, SymbolType::Struct, declaration, impls)) by {
        lemma_structured_has(chunks, n, j);
        let g = group_of(chunks, chunks[j]).unwrap();
        let i = choose|i: int| 0 <= i < sg.len() && sg[i] == g;
        assert(all_g[i] == g);
    }
    assert forall|j: int|
        0 <= j < chunks.len() && #[trigger] chunks[j].1.symbol_type == Some(SymbolType::Trait) implies exists|i: int|
        #![trigger all_g[i]]
        0 <= i < all_g.len() && (all_g[i] matches GroupView::Trait { declaration, impls, .. }
            && heads_with_impls(chunks, j, SymbolType::Trait, declaration, impls)) by {
        lemma_structured_has(chunks, n, j);
        let g = group_of(chunks, chunks[j]).unwrap();
        let i = choose|i: int| 0 <= i < sg.len() && sg[i] == g;
        assert(all_g[i] == g);
    }
}

} // verus!
