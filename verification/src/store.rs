//! The computing parts of indexing a project: where the index lives, the
//! active-project record, which files an update touches, and the chunks,
//! identifiers and search texts of a file.
use crate::text::{
    chars_of, join, lossy_string, spec_join, string_from_chars, string_push, string_views, text_is,
    lossy_text, utf8_string,
};
use crate::code_chunker::{
    chunk_views, law_code_chunks_within_source, node_wf, rust_syntax_tree, spans_within,
    spec_rust_chunks, ChunkError, ChunkView, CodeChunk,
};
use crate::storage::hash::{blake3_digest, hash_chunk};
use crate::ingest::{
    paragraph_chunk_view, spans_cut_data, split_chunk_spans, split_code_chunks, wrap_chunk_spans,
    ChunkSpan,
};
use crate::storage::types::{hex_digit, opt_text, ChunkId, ChunkMeta, MetaView};
use vstd::prelude::*;
use vstd::string::StringExecFns;

verus! {

/// The decimal digit for a value below ten.
pub open spec fn dec_digit(n: nat) -> char {
    (n + 48) as char
}

/// Decimal text of a number, without leading zeros (`"0"` for zero).
pub open spec fn dec_text(n: nat) -> Seq<char>
    decreases n,
{
    if n < 10 {
        seq![dec_digit(n)]
    } else {
        dec_text(n / 10).push(dec_digit(n % 10))
    }
}

/// Appends the decimal text of `n`.
pub fn push_decimal(s: &mut String, n: u64)
    ensures
        final(s)@ == old(s)@ + dec_text(n as nat),
    decreases n,
{
    if n >= 10 {
        push_decimal(s, n / 10);
    }
    let d = (n % 10) as u8;
    string_push(s, (d + 48) as char);
    assert(dec_digit((n % 10) as nat) == (d + 48) as char);
}

/// Whether a character is a decimal digit.
pub open spec fn is_dec_digit(c: char) -> bool {
    '0' <= c <= '9'
}

/// Value of a string of decimal digits.
pub open spec fn dec_value(d: Seq<char>) -> nat
    decreases d.len(),
{
    if d.len() == 0 {
        0
    } else {
        dec_value(d.drop_last()) * 10 + ((d.last() as nat) - 48) as nat
    }
}

/// The digits of a number's text: all of it but a leading `+`.
pub open spec fn unsigned_digits(s: Seq<char>) -> Seq<char> {
    if s.len() > 0 && s[0] == '+' {
        s.drop_first()
    } else {
        s
    }
}

pub open spec fn all_digits(d: Seq<char>) -> bool {
    forall|i: int| 0 <= i < d.len() ==> is_dec_digit(#[trigger] d[i])
}

/// What `str::parse::<u64>` accepts: an optional `+`, then one or more
/// decimal digits whose value fits in 64 bits.
pub open spec fn spec_parse_u64(s: Seq<char>) -> Option<u64> {
    let d = unsigned_digits(s);
    if d.len() > 0 && all_digits(d) && dec_value(d) <= u64::MAX {
        Some(dec_value(d) as u64)
    } else {
        None
    }
}

proof fn lemma_dec_value_prefix(d: Seq<char>, i: int)
    requires
        0 <= i <= d.len(),
        forall|k: int| 0 <= k < d.len() ==> is_dec_digit(#[trigger] d[k]),
    ensures
        dec_value(d.take(i)) <= dec_value(d),
    decreases d.len() - i,
{
    if i < d.len() {
        lemma_dec_value_prefix(d, i + 1);
        assert(d.take(i + 1).drop_last() =~= d.take(i));
    } else {
        assert(d.take(i) =~= d);
    }
}

/// Reads a 64-bit unsigned decimal number as `str::parse::<u64>` does.
pub fn parse_u64(s: &Vec<char>) -> (r: Option<u64>)
    ensures
        r == spec_parse_u64(s@),
{
    let mut i: usize = 0;
    if s.len() > 0 && s[0] == '+' {
        i = 1;
    }
    let ghost d = unsigned_digits(s@);
    assert(d =~= s@.skip(i as int));
    if i >= s.len() {
        return None;
    }
    let mut v: u64 = 0;
    let mut j: usize = i;
    while j < s.len()
        invariant
            i <= j <= s@.len(),
            d == s@.skip(i as int),
            d == unsigned_digits(s@),
            forall|k: int| 0 <= k < j - i ==> is_dec_digit(#[trigger] d[k]),
            v as nat == dec_value(d.take(j - i)),
        decreases s@.len() - j,
    {
        let c = s[j];
        if !('0' <= c && c <= '9') {
            assert(d[j - i] == c);
            assert(!is_dec_digit(d[j - i]));
            assert(!all_digits(d));
            return None;
        }
        let digit = (c as u32 - 48) as u64;
        assert(d.take(j - i + 1).drop_last() =~= d.take(j - i));
        assert(d.take(j - i + 1).last() == c);
        if v > (u64::MAX - digit) / 10 {
            proof {
                assert(dec_value(d.take(j - i + 1)) == v * 10 + digit);
                assert(v * 10 + digit > u64::MAX) by (nonlinear_arith)
                    requires
                        v > (u64::MAX - digit) / 10,
                        digit <= 9,
                ;
                if all_digits(d) {
                    lemma_dec_value_prefix(d, j - i + 1);
                    assert(dec_value(d) > u64::MAX);
                }
            }
            return None;
        }
        assert(v * 10 + digit <= u64::MAX) by (nonlinear_arith)
            requires
                v <= (u64::MAX - digit) / 10,
                digit <= 9,
        ;
        v = v * 10 + digit;
        j = j + 1;
    }
    assert(d.take(d.len() as int) =~= d);
    Some(v)
}

proof fn lemma_dec_text_digits(n: nat)
    ensures
        dec_text(n).len() > 0,
        forall|i: int| 0 <= i < dec_text(n).len() ==> is_dec_digit(#[trigger] dec_text(n)[i]),
        dec_text(n)[0] != '+',
        dec_value(dec_text(n)) == n,
    decreases n,
{
    let t = dec_text(n);
    assert((dec_digit(n % 10) as nat) == n % 10 + 48);
    if n < 10 {
        assert(t.drop_last() =~= Seq::<char>::empty());
        assert(dec_value(Seq::<char>::empty()) == 0);
    }
    if n >= 10 {
        lemma_dec_text_digits(n / 10);
        assert(t.drop_last() =~= dec_text(n / 10));
        assert(t.last() == dec_digit(n % 10));
        assert((n / 10) * 10 + n % 10 == n) by (nonlinear_arith);
        assert(dec_value(t) == dec_value(dec_text(n / 10)) * 10 + n % 10);
        assert forall|i: int| 0 <= i < t.len() implies is_dec_digit(#[trigger] t[i]) by {
            if i < t.len() - 1 {
                assert(t[i] == dec_text(n / 10)[i]);
            }
        }
    }
}

/// Reading back the decimal text of a number gives the number.
pub proof fn law_decimal_roundtrip(n: u64)
    ensures
        spec_parse_u64(dec_text(n as nat)) == Some(n),
{
    lemma_dec_text_digits(n as nat);
}


/// Position of the first line feed at or after `i`.
pub open spec fn find_newline(s: Seq<char>, i: int) -> Option<int>
    decreases s.len() - i,
{
    if i < 0 || i >= s.len() {
        None
    } else if s[i] == '\n' {
        Some(i)
    } else {
        find_newline(s, i + 1)
    }
}

/// A line without the carriage return of a `\r\n` ending.
pub open spec fn strip_cr(l: Seq<char>) -> Seq<char> {
    if l.len() > 0 && l.last() == '\r' {
        l.drop_last()
    } else {
        l
    }
}

/// The first line of a text, as `str::lines` yields it, and the text after
/// its line ending (nothing when the text holds no line feed).
pub open spec fn split_line(s: Seq<char>) -> (Seq<char>, Option<Seq<char>>) {
    match find_newline(s, 0) {
        Some(i) => (strip_cr(s.take(i)), Some(s.skip(i + 1))),
        None => (s, None),
    }
}

/// What is wrong with an active-project record.
#[derive(Debug, Clone, Copy, PartialEq, Eq, Structural)]
pub enum ActiveProjectError {
    /// The record is empty.
    MissingHash,
    /// The first line is not a 64-bit unsigned decimal number.
    InvalidHash,
    /// There is no second line.
    MissingRoot,
}

/// The record of the active project: its hash in decimal, a line feed, and
/// its root path.
pub open spec fn spec_active_project_content(hash: u64, root: Seq<char>) -> Seq<char> {
    dec_text(hash as nat) + seq!['\n'] + root
}

/// Reading an active-project record: the hash from the first line, the root
/// from the second.
pub open spec fn spec_parse_active_project(s: Seq<char>) -> Result<(u64, Seq<char>), ActiveProjectError> {
    if s.len() == 0 {
        Err(ActiveProjectError::MissingHash)
    } else {
        let (first, rest) = split_line(s);
        match spec_parse_u64(first) {
            None => Err(ActiveProjectError::InvalidHash),
            Some(h) => match rest {
                Some(r) => if r.len() > 0 {
                    Ok((h, split_line(r).0))
                } else {
                    Err(ActiveProjectError::MissingRoot)
                },
                None => Err(ActiveProjectError::MissingRoot),
            },
        }
    }
}

/// The record that marks `root`, with hash `hash`, as the active project.
pub fn active_project_content(hash: u64, root: &str) -> (s: String)
    ensures
        s@ == spec_active_project_content(hash, root@),
{
    let mut s = String::new();
    push_decimal(&mut s, hash);
    string_push(&mut s, '\n');
    s.append(root);
    s
}

fn find_newline_exec(s: &Vec<char>, from: usize) -> (r: Option<usize>)
    requires
        from <= s@.len(),
    ensures
        match r {
            Some(i) => find_newline(s@, from as int) == Some(i as int) && from <= i < s@.len(),
            None => find_newline(s@, from as int) is None,
        },
{
    let mut i = from;
    while i < s.len()
        invariant
            from <= i <= s@.len(),
            find_newline(s@, from as int) == find_newline(s@, i as int),
        decreases s@.len() - i,
    {
        if s[i] == '\n' {
            return Some(i);
        }
        i = i + 1;
    }
    None
}

/// The line of `s[from..]` up to its first line feed, without the carriage
/// return of a `\r\n`, and where the text after that line feed starts.
fn line_at(s: &Vec<char>, from: usize) -> (r: (Vec<char>, Option<usize>))
    requires
        from <= s@.len(),
    ensures
        split_line(s@.skip(from as int)).0 == r.0@,
        match r.1 {
            Some(k) => split_line(s@.skip(from as int)).1 == Some(s@.skip(k as int)) && k <= s@.len(),
            None => split_line(s@.skip(from as int)).1 is None,
        },
{
    let ghost t = s@.skip(from as int);
    let nl = find_newline_exec(s, from);
    proof {
        lemma_find_newline_shift(s@, from as int, from as int);
    }
    let len = s.len();
    match nl {
        Some(i) => {
            assert(i < len);
            let mut end = i;
            if end > from && s[end - 1] == '\r' {
                end = end - 1;
            }
            let mut line: Vec<char> = Vec::new();
            let mut k = from;
            while k < end
                invariant
                    from <= k <= end <= i < s@.len(),
                    line@ == s@.subrange(from as int, k as int),
                decreases end - k,
            {
                line.push(s[k]);
                assert(s@.subrange(from as int, k + 1) =~= s@.subrange(from as int, k as int).push(s@[k as int]));
                k = k + 1;
            }
            assert(t.take(i - from) =~= s@.subrange(from as int, i as int));
            assert(line@ =~= strip_cr(t.take(i - from)));
            assert(t.skip(i - from + 1) =~= s@.skip(i + 1));
            let next = i + 1;
            (line, Some(next))
        },
        None => {
            let mut line: Vec<char> = Vec::new();
            let mut k = from;
            while k < s.len()
                invariant
                    from <= k <= s@.len(),
                    line@ == s@.subrange(from as int, k as int),
                decreases s@.len() - k,
            {
                line.push(s[k]);
                assert(s@.subrange(from as int, k + 1) =~= s@.subrange(from as int, k as int).push(s@[k as int]));
                k = k + 1;
            }
            assert(line@ =~= t);
            (line, None)
        },
    }
}

proof fn lemma_find_newline_shift(s: Seq<char>, from: int, i: int)
    requires
        0 <= from <= i <= s.len(),
    ensures
        match find_newline(s, i) {
            Some(p) => find_newline(s.skip(from), i - from) == Some(p - from),
            None => find_newline(s.skip(from), i - from) is None,
        },
    decreases s.len() - i,
{
    if i < s.len() {
        assert(s.skip(from)[i - from] == s[i]);
        lemma_find_newline_shift(s, from, i + 1);
    }
}

/// Reads an active-project record: the hash on the first line, the root path
/// on the second.
pub fn parse_active_project(content: &str) -> (r: Result<(u64, String), ActiveProjectError>)
    ensures
        match r {
            Ok((h, root)) => spec_parse_active_project(content@) == Ok::<(u64, Seq<char>), ActiveProjectError>((h, root@)),
            Err(e) => spec_parse_active_project(content@) == Err::<(u64, Seq<char>), ActiveProjectError>(e),
        },
{
    let cs = chars_of(content);
    assert(cs@.skip(0) =~= cs@);
    if cs.len() == 0 {
        return Err(ActiveProjectError::MissingHash);
    }
    let (first, next) = line_at(&cs, 0);
    let h = match parse_u64(&first) {
        Some(h) => h,
        None => {
            return Err(ActiveProjectError::InvalidHash);
        },
    };
    match next {
        Some(k) => {
            if k >= cs.len() {
                assert(cs@.skip(k as int).len() == 0);
                return Err(ActiveProjectError::MissingRoot);
            }
            let (second, _) = line_at(&cs, k);
            let root = string_from_chars(&second, 0, second.len());
            assert(second@.subrange(0, second@.len() as int) =~= second@);
            Ok((h, root))
        },
        None => Err(ActiveProjectError::MissingRoot),
    }
}

proof fn lemma_find_newline_none(s: Seq<char>, i: int)
    requires
        0 <= i <= s.len(),
        !s.contains('\n'),
    ensures
        find_newline(s, i) is None,
    decreases s.len() - i,
{
    if i < s.len() {
        assert(s[i] != '\n');
        lemma_find_newline_none(s, i + 1);
    }
}

/// Reading back the record written for a project gives its hash and root,
/// for any root that is not empty and holds no line feed.
pub proof fn law_active_project_roundtrip(hash: u64, root: Seq<char>)
    requires
        root.len() > 0,
        !root.contains('\n'),
    ensures
        spec_parse_active_project(spec_active_project_content(hash, root)) == Ok::<(u64, Seq<char>), ActiveProjectError>((hash, root)),
{
    let d = dec_text(hash as nat);
    let c = spec_active_project_content(hash, root);
    lemma_dec_text_digits(hash as nat);
    assert forall|k: int| 0 <= k < d.len() implies c[k] != '\n' by {
        assert(c[k] == d[k]);
        assert(is_dec_digit(d[k]));
    }
    assert(c[d.len() as int] == '\n');
    lemma_find_newline_skip_digits(c, d.len() as int, 0);
    assert(c.take(d.len() as int) =~= d);
    assert(d.last() != '\r');
    assert(c.skip(d.len() as int + 1) =~= root);
    lemma_find_newline_none(root, 0);
    law_decimal_roundtrip(hash);
}

proof fn lemma_find_newline_skip_digits(c: Seq<char>, n: int, i: int)
    requires
        0 <= i <= n < c.len(),
        c[n] == '\n',
        forall|k: int| 0 <= k < n ==> c[k] != '\n',
    ensures
        find_newline(c, i) == Some(n),
    decreases n - i,
{
    if i < n {
        lemma_find_newline_skip_digits(c, n, i + 1);
    }
}


/// `width` lower-case hexadecimal digits of `n`, zero-padded, most significant
/// first.
pub open spec fn hex_text(n: nat, width: nat) -> Seq<char>
    decreases width,
{
    if width == 0 {
        Seq::empty()
    } else {
        hex_text(n / 16, (width - 1) as nat).push(hex_digit((n % 16) as u8))
    }
}

fn push_hex(s: &mut String, n: u64, width: u32)
    requires
        width <= 16,
    ensures
        final(s)@ == old(s)@ + hex_text(n as nat, width as nat),
    decreases width,
{
    if width > 0 {
        push_hex(s, n / 16, width - 1);
        let d = (n % 16) as u8;
        let c = if d < 10 {
            (d + 48) as char
        } else {
            (d + 87) as char
        };
        string_push(s, c);
        assert(hex_digit(((n as nat) % 16) as u8) == c);
    }
}

/// The directory that holds the index of the project with hash `hash`:
/// `vector_db/` and the hash as 16 hexadecimal digits.
pub fn project_dir(hash: u64) -> (dir: String)
    ensures
        dir@ == "vector_db/"@ + hex_text(hash as nat, 16),
{
    let mut dir: String = "vector_db/".to_owned();
    push_hex(&mut dir, hash, 16);
    dir
}

/// Where the record of the active project is kept.
pub fn active_project_file() -> (path: String)
    ensures
        path@ == "vector_db/active_project"@,
{
    "vector_db/active_project".to_owned()
}

/// What `DefaultHasher` gives for a string: a function of the text alone for
/// a given standard library.
pub uninterp spec fn default_hash_str(s: Seq<char>) -> u64;

/// Hashes a string with `std::collections::hash_map::DefaultHasher::new()`.
/// Claims that the result depends on the text alone: `DefaultHasher::new`
/// instances are documented to be identical, and a string is hashed through
/// `Hasher::write_str`, which writes no machine-sized length.
#[verifier::external_body]
fn std_hash_str(s: &str) -> (h: u64)
    ensures
        h == default_hash_str(s@),
{
    let mut hasher = std::collections::hash_map::DefaultHasher::new();
    std::hash::Hash::hash(s, &mut hasher);
    std::hash::Hasher::finish(&hasher)
}

/// What `DefaultHasher` gives for a byte slice (`[u8]`'s `Hash`: the length
/// written as a machine word, then the bytes), on a machine whose words are
/// `word_bytes` bytes long in little- or big-endian order.
pub uninterp spec fn default_hash_bytes(bytes: Seq<u8>, word_bytes: nat, little_endian: bool) -> u64;

/// The hash `DefaultHasher` gives for `bytes` on some 64- or 32-bit machine
/// of either byte order.
pub open spec fn is_default_hash_of_bytes(h: u64, bytes: Seq<u8>) -> bool {
    ||| h == default_hash_bytes(bytes, 8, true)
    ||| h == default_hash_bytes(bytes, 8, false)
    ||| h == default_hash_bytes(bytes, 4, true)
    ||| h == default_hash_bytes(bytes, 4, false)
}

/// Hashes bytes with `std::collections::hash_map::DefaultHasher::new()`.
/// A byte slice is hashed after its length, written as a `usize` in the
/// machine's byte order, so the claim is that the result is the default hash
/// of the bytes for the word size and byte order of the machine it runs on.
#[verifier::external_body]
fn std_hash_bytes(b: &[u8]) -> (h: u64)
    ensures
        h == default_hash_bytes(b@, 8, true) || h == default_hash_bytes(b@, 8, false) || h
            == default_hash_bytes(b@, 4, true) || h == default_hash_bytes(b@, 4, false),
{
    let mut hasher = std::collections::hash_map::DefaultHasher::new();
    std::hash::Hash::hash(b, &mut hasher);
    std::hash::Hasher::finish(&hasher)
}

/// The hash that names a project: the default hash of its canonical root path.
pub fn project_hash(canonical_root: &str) -> (h: u64)
    ensures
        h == default_hash_str(canonical_root@),
{
    std_hash_str(canonical_root)
}

/// The hash of a file's contents, by which a changed file is recognised: the
/// default hash of its bytes on the machine it runs on.
pub fn hash_file_contents(content: &[u8]) -> (h: u64)
    ensures
        is_default_hash_of_bytes(h, content@),
{
    std_hash_bytes(content)
}

/// The last component of a path, as `Path::file_name` gives it (nothing for a
/// path that ends in `..` or is a root).
pub uninterp spec fn path_file_name(p: Seq<char>) -> Option<Seq<char>>;

/// `Path::file_name`, as text. Claims only that the result is a function of
/// the path, named `path_file_name`.
#[verifier::external_body]
fn file_name_of(p: &str) -> (r: Option<String>)
    ensures
        opt_text(r) == path_file_name(p@),
{
    std::path::Path::new(p).file_name().map(|n| n.to_string_lossy().into_owned())
}

/// Directories that are never walked: build output, version control, and the
/// index itself.
pub open spec fn spec_is_ignored_dir(p: Seq<char>) -> bool {
    match path_file_name(p) {
        Some(n) => n == "target"@ || n == ".git"@ || n == "vector_db"@,
        None => false,
    }
}

/// Whether a directory is skipped when the project is walked.
pub fn is_ignored_dir(path: &str) -> (r: bool)
    ensures
        r == spec_is_ignored_dir(path@),
{
    match file_name_of(path) {
        Some(n) => text_is(&n, "target") || text_is(&n, ".git") || text_is(&n, "vector_db"),
        None => false,
    }
}

/// The path that remains of `path` once the leading components of `base` are
/// removed, as `Path::strip_prefix` gives it; nothing when `base` is not a
/// prefix of `path`.
pub uninterp spec fn path_strip_prefix(path: Seq<char>, base: Seq<char>) -> Option<Seq<char>>;

/// `Path::strip_prefix`, as text. Claims only that the result is a function of
/// the two paths, named `path_strip_prefix`.
#[verifier::external_body]
fn strip_path_prefix(path: &str, base: &str) -> (r: Option<String>)
    ensures
        opt_text(r) == path_strip_prefix(path@, base@),
{
    match std::path::Path::new(path).strip_prefix(base) {
        Ok(rest) => Some(rest.to_string_lossy().into_owned()),
        Err(_) => None,
    }
}

/// A file path that does not lie under the project root.
#[derive(Debug, Clone, Copy, PartialEq, Eq, Structural)]
pub struct NotUnderRoot;

/// The path of `path` relative to `root`.
pub fn relative_path(root: &str, path: &str) -> (r: Result<String, NotUnderRoot>)
    ensures
        match r {
            Ok(rel) => path_strip_prefix(path@, root@) == Some(rel@),
            Err(_) => path_strip_prefix(path@, root@) is None,
        },
{
    match strip_path_prefix(path, root) {
        Some(rel) => Ok(rel),
        None => Err(NotUnderRoot),
    }
}

/// The extension of a path's file name, as `Path::extension` gives it.
pub uninterp spec fn path_extension(p: Seq<char>) -> Option<Seq<char>>;

/// `Path::extension`, as text. Claims only that the result is a function of
/// the path, named `path_extension`.
#[verifier::external_body]
fn extension_of(p: &str) -> (r: Option<String>)
    ensures
        opt_text(r) == path_extension(p@),
{
    std::path::Path::new(p).extension().map(|e| e.to_string_lossy().into_owned())
}

pub open spec fn opt_part(o: Option<Seq<char>>) -> Seq<Seq<char>> {
    match o {
        Some(t) => seq![t],
        None => Seq::empty(),
    }
}

/// The text that a chunk is found by in full-text search: its symbol name,
/// signature and module path where it has them, its file path, and its text,
/// one per line.
pub open spec fn spec_search_text(m: MetaView, text: Seq<char>) -> Seq<char> {
    spec_join(
        opt_part(m.symbol_name) + opt_part(m.signature) + opt_part(m.mod_path) + seq![
            m.file_path,
            text,
        ],
        "\n"@,
    )
}

fn push_opt_part(parts: &mut Vec<String>, o: &Option<String>)
    ensures
        string_views(final(parts)@) == string_views(old(parts)@) + opt_part(opt_text(*o)),
{
    let ghost before = string_views(parts@);
    match o {
        Some(t) => {
            parts.push(t.clone());
            assert(string_views(parts@) =~= before + seq![t@]);
        },
        None => {
            assert(string_views(parts@) =~= before + Seq::<Seq<char>>::empty());
        },
    }
}

/// The full-text search text of a chunk (see [`spec_search_text`]).
pub fn build_search_text(meta: &ChunkMeta, text: &str) -> (s: String)
    ensures
        s@ == spec_search_text(meta@, text@),
{
    let mut parts: Vec<String> = Vec::new();
    assert(string_views(parts@) =~= Seq::<Seq<char>>::empty());
    push_opt_part(&mut parts, &meta.symbol_name);
    push_opt_part(&mut parts, &meta.signature);
    push_opt_part(&mut parts, &meta.mod_path);
    let ghost before = string_views(parts@);
    parts.push(meta.file_path.clone());
    parts.push(text.to_owned());
    assert(string_views(parts@) =~= before + seq![meta.file_path@, text@]);
    assert(opt_part(opt_text(meta.symbol_name)) == opt_part(meta@.symbol_name));
    join(&parts, "\n")
}


/// The text of a chunk from its file's bytes, or a marker when the recorded
/// range does not fit the file.
pub open spec fn spec_chunk_text(bytes: Seq<u8>, m: MetaView) -> Seq<char> {
    if m.byte_start >= bytes.len() || m.byte_end > bytes.len() || m.byte_start >= m.byte_end {
        "[invalid chunk range]"@
    } else {
        lossy_text(bytes.subrange(m.byte_start as int, m.byte_end as int))
    }
}

/// The text of a chunk, decoded from the bytes of its file.
pub fn chunk_text(bytes: &[u8], meta: &ChunkMeta) -> (s: String)
    ensures
        s@ == spec_chunk_text(bytes@, meta@),
{
    let len = bytes.len() as u64;
    if meta.byte_start >= len || meta.byte_end > len || meta.byte_start >= meta.byte_end {
        return "[invalid chunk range]".to_owned();
    }
    let start = meta.byte_start as usize;
    let end = meta.byte_end as usize;
    lossy_string(&bytes[start..end])
}

/// A chunk of a file ready to be stored: its identifier, its metadata, its
/// byte range, its text when its bytes are valid UTF-8, and then its
/// full-text search text.
pub struct PreparedChunk {
    pub id: ChunkId,
    pub meta: ChunkMeta,
    pub span: (usize, usize),
    pub text: Option<String>,
    pub search_text: Option<String>,
}

/// `p` is chunk `c` of a file with contents `data`, relative path `rel` and
/// content hash `file_hash`, made ready to store.
pub open spec fn prepared_from(p: PreparedChunk, c: ChunkView, data: Seq<u8>, rel: Seq<char>, file_hash: u64) -> bool {
    let bytes = data.subrange(c.span.0 as int, c.span.1 as int);
    &&& p.span == c.span
    &&& p.id.hash@ == blake3_digest(bytes)
    &&& p.meta@ == MetaView { file_path: rel, file_hash, ..c.meta }
    &&& (p.text is Some <==> vstd::utf8::valid_utf8(bytes))
    &&& (p.text matches Some(t) ==> t@ == vstd::utf8::decode_utf8(bytes))
    &&& (p.search_text is Some <==> p.text is Some)
    &&& (p.search_text matches Some(st) ==> st@ == spec_search_text(p.meta@, opt_text(p.text).unwrap()))
}

pub open spec fn prepared_spans(ps: Seq<PreparedChunk>) -> Seq<ChunkSpan> {
    ps.map_values(|p: PreparedChunk| ChunkSpan { start: p.span.0, end: p.span.1 })
}

/// The size of a plain-text chunk, in characters.
pub open spec fn paragraph_limit() -> int {
    512
}

proof fn lemma_span_at(cs: Seq<ChunkView>, len: int, i: int)
    requires
        spans_within(cs, len),
        0 <= i < cs.len(),
    ensures
        cs[i].span.0 <= cs[i].span.1 <= len,
{
    assert(cs[i].span.0 <= cs[i].span.1 && cs[i].span.1 <= len);
}

fn prepare_one(c: &CodeChunk, data: &[u8], rel_path: &String, file_hash: u64) -> (p: PreparedChunk)
    requires
        c.span.0 <= c.span.1 <= data@.len(),
    ensures
        prepared_from(p, c@, data@, rel_path@, file_hash),
{
    let (start, end) = c.span;
    let bytes = &data[start..end];
    let id = hash_chunk(bytes);
    let mut meta = c.meta.duplicate();
    meta.file_path = rel_path.clone();
    meta.file_hash = file_hash;
    let text = utf8_string(bytes);
    let search_text = match &text {
        Some(t) => Some(build_search_text(&meta, t.as_str())),
        None => None,
    };
    PreparedChunk { id, meta, span: (start, end), text, search_text }
}

/// Cuts a file into chunks and makes each ready to store: Rust files (by
/// extension `rs`) along their syntax tree, other files into paragraphs of at
/// most 512 characters; each chunk gets the file's relative path and content hash.
pub fn prepare_file_chunks(
    path: &str,
    rel_path: &String,
    data: &[u8],
    file_hash: u64,
    modified: u64,
) -> (r: Result<Vec<PreparedChunk>, ChunkError>)
    ensures
        match r {
            Ok(ps) => if path_extension(path@) == Some("rs"@) {
                &&& rust_syntax_tree(data@) matches Some(t)
                &&& node_wf(t, data@.len() as int)
                &&& ps@.len() == spec_rust_chunks(data@, rel_path@, modified, t).len()
                &&& forall|i: int|
                    0 <= i < ps@.len() ==> prepared_from(
                        #[trigger] ps@[i],
                        spec_rust_chunks(data@, rel_path@, modified, t)[i],
                        data@,
                        rel_path@,
                        file_hash,
                    )
            } else {
                &&& spans_cut_data(data@, prepared_spans(ps@), paragraph_limit())
                &&& forall|i: int|
                    0 <= i < ps@.len() ==> prepared_from(
                        #[trigger] ps@[i],
                        paragraph_chunk_view(
                            rel_path@,
                            ChunkSpan { start: ps@[i].span.0, end: ps@[i].span.1 },
                            modified,
                        ),
                        data@,
                        rel_path@,
                        file_hash,
                    )
            },
            Err(e) => {
                &&& path_extension(path@) == Some("rs"@)
                &&& (e == ChunkError::ParseFailed ==> rust_syntax_tree(data@) is None)
                &&& (e == ChunkError::MalformedTree ==> (rust_syntax_tree(data@) matches Some(t)
                    && !node_wf(t, data@.len() as int)))
            },
        },
{
    let ext = extension_of(path);
    let is_rust = match &ext {
        Some(e) => text_is(e, "rs"),
        None => false,
    };
    let ghost views: Seq<ChunkView>;
    let chunks = if is_rust {
        match split_code_chunks(rel_path, data, modified) {
            Ok(cs) => {
                proof {
                    let t = rust_syntax_tree(data@).unwrap();
                    law_code_chunks_within_source(data@, rel_path@, modified, t);
                    views = spec_rust_chunks(data@, rel_path@, modified, t);
                }
                cs
            },
            Err(e) => {
                return Err(e);
            },
        }
    } else {
        let spans = split_chunk_spans(data, 512);
        proof {
            crate::ingest::law_spans_partition(data@, spans@, 512);
            views = spans@.map_values(|sp: ChunkSpan| paragraph_chunk_view(rel_path@, sp, modified));
        }
        let wrapped = wrap_chunk_spans(rel_path, spans, modified);
        assert(chunk_views(wrapped@) =~= views);
        wrapped
    };
    assert(chunk_views(chunks@) == views);
    assert(spans_within(views, data@.len() as int));
    let mut out: Vec<PreparedChunk> = Vec::new();
    let mut i: usize = 0;
    while i < chunks.len()
        invariant
            i <= chunks@.len(),
            chunk_views(chunks@) == views,
            spans_within(views, data@.len() as int),
            out@.len() == i,
            forall|k: int|
                0 <= k < i ==> prepared_from(#[trigger] out@[k], views[k], data@, rel_path@, file_hash),
        decreases chunks@.len() - i,
    {
        assert(views.len() == chunks@.len());
        assert(views[i as int] == chunks@[i as int]@);
        proof {
            lemma_span_at(views, data@.len() as int, i as int);
        }
        out.push(prepare_one(&chunks[i], data, rel_path, file_hash));
        i = i + 1;
    }
    proof {
        if !is_rust {
            assert(prepared_spans(out@) =~= chunk_views(chunks@).map_values(|c: ChunkView| ChunkSpan { start: c.span.0, end: c.span.1 }));
        }
    }
    Ok(out)
}

/// Chunks are addressed by content: two prepared chunks whose bytes are the
/// same get the same identifier, whichever files they come from, so an
/// embedding stored for one serves the other.
pub proof fn law_equal_chunks_share_identifier(
    p1: PreparedChunk,
    c1: ChunkView,
    data1: Seq<u8>,
    rel1: Seq<char>,
    hash1: u64,
    p2: PreparedChunk,
    c2: ChunkView,
    data2: Seq<u8>,
    rel2: Seq<char>,
    hash2: u64,
)
    requires
        prepared_from(p1, c1, data1, rel1, hash1),
        prepared_from(p2, c2, data2, rel2, hash2),
        data1.subrange(c1.span.0 as int, c1.span.1 as int) == data2.subrange(
            c2.span.0 as int,
            c2.span.1 as int,
        ),
    ensures
        p1.id == p2.id,
{
    broadcast use vstd::array::group_array_axioms;

    assert(p1.id.hash@ =~= p2.id.hash@);
    assert(p1.id.hash == p2.id.hash);
}

} // verus!
