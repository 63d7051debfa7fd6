//! Cutting plain text into chunks.
use crate::code_chunker::{
    chunk_views, node_wf, rust_syntax_tree, spec_rust_chunks, split_rust_ast, ChunkError, ChunkView,
    CodeChunk,
};
use crate::storage::types::{ChunkKind, ChunkMeta, MetaView};
use vstd::prelude::*;
use vstd::utf8::*;

verus! {

/// A half-open byte range `[start, end)` of a file.
#[derive(Debug, Clone, Copy)]
pub struct ChunkSpan {
    pub start: usize,
    pub end: usize,
}

/// A UTF-8 continuation byte (`10xxxxxx`): it never starts a character.
pub open spec fn is_continuation(b: u8) -> bool {
    128 <= b < 192
}

/// Whether byte `x` of the span that starts at `start` begins a character,
/// given how many bytes of the current character came before it (`tail`):
/// the span's first byte, a byte that is not a continuation byte, or a
/// continuation byte after three others (no character is longer than four
/// bytes, so such a stray byte counts as a character of its own).
pub open spec fn begins_at(data: Seq<u8>, start: int, x: int, tail: nat) -> bool {
    x == start || !is_continuation(data[x]) || tail >= 3
}

/// The scan of the span that starts at `start` up to byte `e`: how many
/// characters have begun, and how many bytes of the last one follow its
/// first byte.
pub open spec fn scan(data: Seq<u8>, start: int, e: int) -> (nat, nat)
    decreases e - start,
{
    if e <= start {
        (0, 0)
    } else {
        let prev = scan(data, start, e - 1);
        if begins_at(data, start, e - 1, prev.1) {
            (prev.0 + 1, 0)
        } else {
            (prev.0, prev.1 + 1)
        }
    }
}

/// The number of characters in bytes `start..e` of a span that starts at
/// `start` (see [`begins_at`]).
pub open spec fn char_count(data: Seq<u8>, start: int, e: int) -> nat {
    scan(data, start, e).0
}

/// Whether byte `e` begins a character of the span that starts at `start`.
pub open spec fn begins_char(data: Seq<u8>, start: int, e: int) -> bool {
    begins_at(data, start, e, scan(data, start, e).1)
}

/// Whether a chunk that starts at `start` may end at `end`: at the end of the
/// data; once it holds `limit` characters, where the next character begins;
/// or right after a blank line (`"\n\n"`) that lies inside the chunk.
pub open spec fn is_cut(data: Seq<u8>, start: int, end: int, limit: int) -> bool {
    ||| end == data.len()
    ||| (end < data.len() && char_count(data, start, end) >= limit && begins_char(data, start, end))
    ||| (end - start >= 2 && data[end - 2] == 10u8 && data[end - 1] == 10u8)
}

/// The chunk that starts at `start` ends at the first place where it may end.
pub open spec fn ends_at_first_cut(data: Seq<u8>, start: int, end: int, limit: int) -> bool {
    &&& start < end <= data.len()
    &&& is_cut(data, start, end, limit)
    &&& forall|e: int| start <= e < end ==> !is_cut(data, start, e, limit)
}

/// `spans` cut `data` into consecutive chunks from first byte to last, each
/// ending at its first possible cut for `limit` characters.
pub open spec fn spans_cut_data(data: Seq<u8>, spans: Seq<ChunkSpan>, limit: int) -> bool {
    &&& (spans.len() == 0 <==> data.len() == 0)
    &&& spans.len() > 0 ==> spans[0].start == 0 && spans.last().end == data.len()
    &&& forall|i: int| 0 <= i < spans.len() - 1 ==> #[trigger] spans[i].end == spans[i + 1].start
    &&& forall|i: int|
        0 <= i < spans.len() ==> ends_at_first_cut(
            data,
            #[trigger] spans[i].start as int,
            spans[i].end as int,
            limit,
        )
}

/// Cuts `data` into spans of at most `chunk_size` characters, keeping each
/// character whole and ending a span early right after a blank line. Spans
/// are byte offsets into `data`; a character is at most four bytes, so no
/// span is longer than `4 * chunk_size` bytes.
pub fn split_chunk_spans(data: &[u8], chunk_size: usize) -> (spans: Vec<ChunkSpan>)
    requires
        chunk_size > 0 || data@.len() == 0,
    ensures
        spans_cut_data(data@, spans@, chunk_size as int),
{
    let ghost limit = chunk_size as int;
    let mut spans: Vec<ChunkSpan> = Vec::new();
    let mut start: usize = 0;
    while start < data.len()
        invariant
            limit == chunk_size,
            chunk_size > 0 || data@.len() == 0,
            start <= data@.len(),
            (spans@.len() == 0 <==> start == 0),
            spans@.len() > 0 ==> spans@[0].start == 0 && spans@.last().end == start,
            forall|i: int| 0 <= i < spans@.len() - 1 ==> #[trigger] spans@[i].end == spans@[i + 1].start,
            forall|i: int|
                0 <= i < spans@.len() ==> ends_at_first_cut(
                    data@,
                    #[trigger] spans@[i].start as int,
                    spans@[i].end as int,
                    limit,
                ),
        decreases data@.len() - start,
    {
        let mut end = start;
        let mut chars: usize = 0;
        let mut tail: usize = 0;
        while end < data.len() && !(chars >= chunk_size && (end == start || !(128 <= data[end]
            && data[end] < 192) || tail >= 3)) && !(end - start >= 2 && data[end - 2] == 10
            && data[end - 1] == 10)
            invariant
                limit == chunk_size,
                start < data@.len(),
                chunk_size > 0,
                start <= end <= data@.len(),
                scan(data@, start as int, end as int) == (chars as nat, tail as nat),
                chars <= end - start,
                tail <= 3,
                forall|e: int| start <= e < end ==> !is_cut(data@, start as int, e, limit),
            decreases data@.len() - end,
        {
            if end == start || !(128 <= data[end] && data[end] < 192) || tail >= 3 {
                chars = chars + 1;
                tail = 0;
            } else {
                tail = tail + 1;
            }
            end = end + 1;
        }
        let ghost old_spans = spans@;
        spans.push(ChunkSpan { start, end });
        assert forall|i: int| 0 <= i < spans@.len() - 1 implies #[trigger] spans@[i].end == spans@[i + 1].start by {
            if i < old_spans.len() - 1 {
                assert(spans@[i] == old_spans[i]);
                assert(spans@[i + 1] == old_spans[i + 1]);
            }
        }
        assert forall|i: int| 0 <= i < spans@.len() implies ends_at_first_cut(
            data@,
            #[trigger] spans@[i].start as int,
            spans@[i].end as int,
            limit,
        ) by {
            if i < old_spans.len() {
                assert(spans@[i] == old_spans[i]);
            }
        }
        start = end;
    }
    spans
}

/// The plain-text chunk of `file_path` covering `span`: a paragraph chunk
/// with the span's byte range and no code metadata.
pub open spec fn paragraph_chunk_view(file_path: Seq<char>, span: ChunkSpan, updated_at: u64) -> ChunkView {
    ChunkView {
        meta: MetaView {
            file_path,
            file_hash: 0,
            byte_start: span.start as u64,
            byte_end: span.end as u64,
            chunk_kind: ChunkKind::Paragraph,
            updated_at,
            language: None,
            symbol_type: None,
            symbol_name: None,
            mod_path: None,
            parent_symbol: None,
            signature: None,
            ast_node_type: None,
            is_public: None,
            has_docs: None,
        },
        span: (span.start, span.end),
    }
}

/// Turns each span into a plain-text chunk of `file_path`, in order.
pub fn wrap_chunk_spans(file_path: &String, spans: Vec<ChunkSpan>, updated_at: u64) -> (chunks: Vec<
    CodeChunk,
>)
    ensures
        chunks@.len() == spans@.len(),
        forall|i: int|
            0 <= i < spans@.len() ==> #[trigger] chunks@[i]@ == paragraph_chunk_view(
                file_path@,
                spans@[i],
                updated_at,
            ),
{
    let mut chunks: Vec<CodeChunk> = Vec::new();
    let mut i: usize = 0;
    while i < spans.len()
        invariant
            i <= spans@.len(),
            chunks@.len() == i,
            forall|k: int|
                0 <= k < i ==> #[trigger] chunks@[k]@ == paragraph_chunk_view(
                    file_path@,
                    spans@[k],
                    updated_at,
                ),
        decreases spans@.len() - i,
    {
        let span = spans[i];
        chunks.push(
            CodeChunk {
                meta: ChunkMeta {
                    file_path: file_path.clone(),
                    file_hash: 0,
                    byte_start: span.start as u64,
                    byte_end: span.end as u64,
                    chunk_kind: ChunkKind::Paragraph,
                    updated_at,
                    language: None,
                    symbol_type: None,
                    symbol_name: None,
                    mod_path: None,
                    parent_symbol: None,
                    signature: None,
                    ast_node_type: None,
                    is_public: None,
                    has_docs: None,
                },
                span: (span.start, span.end),
            },
        );
        i = i + 1;
    }
    chunks
}


/// Byte `k` lies in one of the spans.
pub open spec fn covered(spans: Seq<ChunkSpan>, k: int) -> bool {
    exists|i: int| 0 <= i < spans.len() && #[trigger] spans[i].start <= k < spans[i].end
}

/// Cuts a Rust source file into chunks along its syntax tree (see
/// [`split_rust_ast`]). A source the parser gives no tree for, or a tree that
/// does not fit it, is reported as an error, which the caller indexing the
/// file reports for that file, in place of stopping the program.
pub fn split_code_chunks(path: &String, data: &[u8], updated_at: u64) -> (r: Result<
    Vec<CodeChunk>,
    ChunkError,
>)
    ensures
        match r {
            Ok(cs) => rust_syntax_tree(data@) matches Some(t) && node_wf(t, data@.len() as int)
                && chunk_views(cs@) == spec_rust_chunks(data@, path@, updated_at, t),
            Err(ChunkError::ParseFailed) => rust_syntax_tree(data@) is None,
            Err(ChunkError::MalformedTree) => rust_syntax_tree(data@) matches Some(t) && !node_wf(
                t,
                data@.len() as int,
            ),
        },
{
    split_rust_ast(path, data, updated_at)
}

proof fn lemma_spans_cover_prefix(data: Seq<u8>, spans: Seq<ChunkSpan>, limit: int, m: int, k: int)
    requires
        spans_cut_data(data, spans, limit),
        0 <= m < spans.len(),
        0 <= k < spans[m].end,
    ensures
        exists|i: int| 0 <= i <= m && #[trigger] spans[i].start <= k < spans[i].end,
    decreases m,
{
    assert(ends_at_first_cut(data, spans[m].start as int, spans[m].end as int, limit));
    if k >= spans[m].start {
        assert(spans[m].start <= k < spans[m].end);
    } else {
        assert(m > 0);
        assert(spans[m - 1].end == spans[m].start);
        lemma_spans_cover_prefix(data, spans, limit, m - 1, k);
        let i = choose|i: int| 0 <= i <= m - 1 && #[trigger] spans[i].start <= k < spans[i].end;
        assert(spans[i].start <= k < spans[i].end);
    }
}

proof fn lemma_scan_bounds(data: Seq<u8>, start: int, e: int)
    requires
        start <= e,
    ensures
        scan(data, start, e).1 <= 3,
        e - start <= 4 * scan(data, start, e).0,
        e > start ==> e - start + 3 <= 4 * scan(data, start, e).0 + scan(data, start, e).1,
    decreases e - start,
{
    if e > start {
        lemma_scan_bounds(data, start, e - 1);
    }
}

proof fn lemma_count_within_limit(data: Seq<u8>, start: int, end: int, limit: int, e: int)
    requires
        limit > 0,
        start <= e <= end <= data.len(),
        forall|x: int| start <= x < end ==> !is_cut(data, start, x, limit),
    ensures
        char_count(data, start, e) <= limit,
    decreases e - start,
{
    if e > start {
        lemma_count_within_limit(data, start, end, limit, e - 1);
        assert(!is_cut(data, start, e - 1, limit));
    }
}

/// The spans of `split_chunk_spans` partition the data into non-empty pieces
/// of at most `limit` characters and at most `4 * limit` bytes: every byte
/// lies in some span, and no span is empty or longer.
pub proof fn law_spans_partition(data: Seq<u8>, spans: Seq<ChunkSpan>, limit: int)
    requires
        limit > 0,
        spans_cut_data(data, spans, limit),
    ensures
        forall|i: int|
            0 <= i < spans.len() ==> spans[i].start < spans[i].end && #[trigger] char_count(
                data,
                spans[i].start as int,
                spans[i].end as int,
            ) <= limit && spans[i].end - spans[i].start <= 4 * limit,
        forall|k: int| 0 <= k < data.len() ==> #[trigger] covered(spans, k),
{
    assert forall|i: int| 0 <= i < spans.len() implies spans[i].start < spans[i].end && #[trigger] char_count(
        data,
        spans[i].start as int,
        spans[i].end as int,
    ) <= limit && spans[i].end - spans[i].start <= 4 * limit by {
        let st = spans[i].start as int;
        let en = spans[i].end as int;
        assert(ends_at_first_cut(data, st, en, limit));
        lemma_count_within_limit(data, st, en, limit, en);
        lemma_scan_bounds(data, st, en);
    }
    assert forall|k: int| 0 <= k < data.len() implies #[trigger] covered(spans, k) by {
        lemma_spans_cover_prefix(data, spans, limit, spans.len() - 1, k);
    }
}

proof fn lemma_tail_bytes_continue(data: Seq<u8>, start: int, e: int)
    requires
        0 <= start <= e <= data.len(),
    ensures
        e > start ==> scan(data, start, e).1 < e - start,
        forall|j: int| 1 <= j <= scan(data, start, e).1 ==> #[trigger] is_continuation(data[e - j]),
    decreases e - start,
{
    if e > start {
        lemma_tail_bytes_continue(data, start, e - 1);
        let prev = scan(data, start, e - 1);
        if !begins_at(data, start, e - 1, prev.1) {
            assert(e - 1 != start);
        }
        assert forall|j: int| 1 <= j <= scan(data, start, e).1 implies #[trigger] is_continuation(
            data[e - j],
        ) by {
            assert(!begins_at(data, start, e - 1, prev.1));
            assert(scan(data, start, e).1 == prev.1 + 1);
            if j >= 2 {
                assert(1 <= j - 1 <= prev.1);
                assert((e - 1) - (j - 1) == e - j);
                assert(is_continuation(data[(e - 1) - (j - 1)]));
            }
        }
    } else {
        assert(scan(data, start, e).1 == 0);
    }
}

/// In valid UTF-8 every continuation byte follows, within three bytes, a byte
/// that is not one.
proof fn lemma_valid_continuation_near_lead(data: Seq<u8>, i: int)
    requires
        valid_utf8(data),
        0 <= i < data.len(),
        is_continuation(data[i]),
    ensures
        i >= 1,
        !is_continuation(data[i - 1]) || (i >= 2 && !is_continuation(data[i - 2])) || (i >= 3
            && !is_continuation(data[i - 3])),
    decreases data.len(),
{
    let w = length_of_first_scalar(data);
    assert(valid_first_scalar(data));
    assert(!is_continuation(data[0]));
    if i >= w {
        let rest = pop_first_scalar(data);
        assert(rest.len() == data.len() - w);
        assert(rest[i - w] == data[i]);
        lemma_valid_continuation_near_lead(rest, i - w);
        assert(rest[i - w - 1] == data[i - 1]);
        if i - w >= 2 {
            assert(rest[i - w - 2] == data[i - 2]);
        }
        if i - w >= 3 {
            assert(rest[i - w - 3] == data[i - 3]);
        }
    }
}

proof fn lemma_cut_starts_char(data: Seq<u8>, start: int, e: int, limit: int)
    requires
        valid_utf8(data),
        0 <= start < e <= data.len(),
        is_cut(data, start, e, limit),
    ensures
        e == data.len() || !is_continuation_byte(data[e]),
{
    if e < data.len() && char_count(data, start, e) >= limit && begins_char(data, start, e) {
        if is_continuation(data[e]) {
            lemma_tail_bytes_continue(data, start, e);
            assert(scan(data, start, e).1 >= 3);
            assert(is_continuation(data[e - 1]));
            assert(is_continuation(data[e - 2]));
            assert(is_continuation(data[e - 3]));
            lemma_valid_continuation_near_lead(data, e);
        }
    } else if e < data.len() {
        let n = data.len() as int;
        assert(data[e - 1] == 10u8);
        is_char_boundary_iff_not_is_continuation_byte(data, e - 1);
        valid_utf8_split(data, e - 1);
        let suf = data.subrange(e - 1, n);
        assert(suf[0] == 10u8);
        let rest = pop_first_scalar(suf);
        assert(rest =~= data.subrange(e, n));
        is_char_boundary_start_end_of_seq(rest);
        is_char_boundary_iff_not_is_continuation_byte(rest, 0);
        assert(rest[0] == data[e]);
    }
}

proof fn lemma_valid_between(data: Seq<u8>, s: int, e: int)
    requires
        valid_utf8(data),
        0 <= s <= e <= data.len(),
        s == data.len() || !is_continuation_byte(data[s]),
        e == data.len() || !is_continuation_byte(data[e]),
    ensures
        valid_utf8(data.subrange(s, e)),
{
    let n = data.len() as int;
    let suf = data.subrange(s, n);
    if s < n {
        is_char_boundary_iff_not_is_continuation_byte(data, s);
        valid_utf8_split(data, s);
    } else {
        assert(suf.len() == 0);
    }
    if e < n {
        is_char_boundary_iff_not_is_continuation_byte(suf, e - s);
        assert(suf[e - s] == data[e]);
    } else {
        is_char_boundary_start_end_of_seq(suf);
    }
    valid_utf8_split(suf, e - s);
    assert(suf.subrange(0, e - s) =~= data.subrange(s, e));
}

/// Cutting valid UTF-8 text with `split_chunk_spans` keeps every character
/// whole: each span of valid UTF-8 data is itself valid UTF-8.
pub proof fn law_spans_keep_characters_whole(data: Seq<u8>, spans: Seq<ChunkSpan>, limit: int)
    requires
        valid_utf8(data),
        spans_cut_data(data, spans, limit),
    ensures
        forall|i: int|
            0 <= i < spans.len() ==> valid_utf8(
                #[trigger] data.subrange(spans[i].start as int, spans[i].end as int),
            ),
{
    assert forall|i: int| 0 <= i < spans.len() implies valid_utf8(
        #[trigger] data.subrange(spans[i].start as int, spans[i].end as int),
    ) by {
        let st = spans[i].start as int;
        let en = spans[i].end as int;
        assert(ends_at_first_cut(data, st, en, limit));
        lemma_cut_starts_char(data, st, en, limit);
        if i > 0 {
            assert(spans[i - 1].end == spans[i].start);
            assert(ends_at_first_cut(data, spans[i - 1].start as int, spans[i - 1].end as int, limit));
            lemma_cut_starts_char(data, spans[i - 1].start as int, st, limit);
        } else {
            is_char_boundary_start_end_of_seq(data);
            if data.len() > 0 {
                is_char_boundary_iff_not_is_continuation_byte(data, 0);
            }
        }
        lemma_valid_between(data, st, en);
    }
}

} // verus!
