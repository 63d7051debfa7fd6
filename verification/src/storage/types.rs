//! Identifiers and metadata records shared by every part of the index.
use crate::text::string_push;
use vstd::prelude::*;
use vstd::string::StringSliceAdditionalSpecFns;

verus! {

broadcast use vstd::array::group_array_axioms;

/// Content address of a chunk: the 32-byte digest of its bytes.
#[derive(Clone, Copy, Debug, PartialEq, Eq, Hash)]
pub struct ChunkId {
    pub hash: [u8; 32],
}

/// Lower-case hexadecimal digit for a value below sixteen.
pub open spec fn hex_digit(n: u8) -> char {
    if n < 10 { (n + 48) as char } else { (n + 87) as char }
}

/// Two lower-case hex digits per byte, most significant first.
pub open spec fn spec_to_hex(bytes: Seq<u8>) -> Seq<char>
    decreases bytes.len(),
{
    if bytes.len() == 0 {
        Seq::empty()
    } else {
        spec_to_hex(bytes.drop_last()).push(hex_digit(bytes.last() / 16)).push(
            hex_digit(bytes.last() % 16),
        )
    }
}

fn hex_digit_exec(n: u8) -> (c: char)
    requires
        n < 16,
    ensures
        c == hex_digit(n),
{
    if n < 10 {
        (n + 48) as char
    } else {
        (n + 87) as char
    }
}

impl ChunkId {
    /// The 64-character lower-case hexadecimal rendering of the digest.
    pub fn to_hex(&self) -> (s: String)
        ensures
            s@ == spec_to_hex(self.hash@),
            s@.len() == 64,
    {
        let mut s = String::new();
        let mut i: usize = 0;
        while i < 32
            invariant
                i <= 32,
                self.hash@.len() == 32,
                s@ == spec_to_hex(self.hash@.take(i as int)),
            decreases 32 - i,
        {
            let b = self.hash[i];
            string_push(&mut s, hex_digit_exec(b / 16));
            string_push(&mut s, hex_digit_exec(b % 16));
            assert(self.hash@.take(i + 1).drop_last() =~= self.hash@.take(i as int));
            i = i + 1;
        }
        assert(self.hash@.take(32) =~= self.hash@);
        proof {
            lemma_to_hex_len(self.hash@);
        }
        s
    }
}

/// The hex rendering is exactly twice as long as its input.
pub proof fn lemma_to_hex_len(bytes: Seq<u8>)
    ensures
        spec_to_hex(bytes).len() == 2 * bytes.len(),
    decreases bytes.len(),
{
    if bytes.len() > 0 {
        lemma_to_hex_len(bytes.drop_last());
    }
}


/// Value of one hexadecimal digit, upper or lower case.
pub open spec fn hex_val(b: u8) -> Option<u8> {
    if 48 <= b <= 57 {
        Some((b - 48) as u8)
    } else if 97 <= b <= 102 {
        Some((b - 87) as u8)
    } else if 65 <= b <= 70 {
        Some((b - 55) as u8)
    } else {
        None
    }
}

/// Value of a two-byte group read as an unsigned radix-16 number: two hex
/// digits, or a `+` sign followed by one hex digit.
pub open spec fn pair_val(hi: u8, lo: u8) -> Option<u8> {
    if hi == 43 {
        hex_val(lo)
    } else {
        match (hex_val(hi), hex_val(lo)) {
            (Some(h), Some(l)) => Some((h * 16 + l) as u8),
            _ => None,
        }
    }
}

/// Whether every two-byte group of a 64-byte text has a value.
pub open spec fn all_pairs_valid(b: Seq<u8>) -> bool {
    forall|i: int| 0 <= i < 32 ==> (#[trigger] pair_val(b[2 * i], b[2 * i + 1])) is Some
}

/// The digest that a 64-byte hexadecimal text denotes, if it denotes one.
pub open spec fn spec_from_hex(b: Seq<u8>) -> Option<Seq<u8>> {
    if b.len() == 64 && all_pairs_valid(b) {
        Some(Seq::new(32, |i: int| pair_val(b[2 * i], b[2 * i + 1]).unwrap()))
    } else {
        None
    }
}

fn hex_val_exec(b: u8) -> (r: Option<u8>)
    ensures
        r == hex_val(b),
{
    if 48 <= b && b <= 57 {
        Some(b - 48)
    } else if 97 <= b && b <= 102 {
        Some(b - 87)
    } else if 65 <= b && b <= 70 {
        Some(b - 55)
    } else {
        None
    }
}

fn pair_val_exec(hi: u8, lo: u8) -> (r: Option<u8>)
    ensures
        r == pair_val(hi, lo),
{
    if hi == 43 {
        hex_val_exec(lo)
    } else {
        match (hex_val_exec(hi), hex_val_exec(lo)) {
            (Some(h), Some(l)) => Some(h * 16 + l),
            _ => None,
        }
    }
}

impl ChunkId {
    /// Reads a digest back from its hexadecimal text: 64 bytes, taken two at a
    /// time, each pair read as a radix-16 number.
    pub fn from_hex(s: &str) -> (r: Option<ChunkId>)
        ensures
            match r {
                Some(id) => spec_from_hex(s.spec_bytes()) == Some(id.hash@),
                None => spec_from_hex(s.spec_bytes()) is None,
            },
    {
        let b = s.as_bytes();
        if b.len() != 64 {
            return None;
        }
        let mut hash = [0u8; 32];
        let mut i: usize = 0;
        while i < 32
            invariant
                i <= 32,
                b@.len() == 64,
                b@ == s.spec_bytes(),
                hash@.len() == 32,
                forall|j: int| 0 <= j < i ==> #[trigger] pair_val(b@[2 * j], b@[2 * j + 1]) == Some(hash@[j]),
            decreases 32 - i,
        {
            match pair_val_exec(b[2 * i], b[2 * i + 1]) {
                Some(v) => {
                    hash[i] = v;
                },
                None => {
                    assert(pair_val(b@[2 * (i as int)], b@[2 * (i as int) + 1]) is None);
                    assert(!all_pairs_valid(b@));
                    return None;
                },
            }
            i = i + 1;
        }
        assert(all_pairs_valid(b@));
        assert(hash@ =~= Seq::new(32, |k: int| pair_val(b@[2 * k], b@[2 * k + 1]).unwrap()));
        Some(ChunkId { hash })
    }

    /// Whether two identifiers carry the same digest.
    pub fn same(&self, other: &ChunkId) -> (r: bool)
        ensures
            r == (*self == *other),
    {
        let mut i: usize = 0;
        while i < 32
            invariant
                i <= 32,
                self.hash@.len() == 32,
                other.hash@.len() == 32,
                forall|j: int| 0 <= j < i ==> self.hash@[j] == other.hash@[j],
            decreases 32 - i,
        {
            if self.hash[i] != other.hash[i] {
                return false;
            }
            i = i + 1;
        }
        assert(self.hash@ =~= other.hash@);
        assert(self.hash == other.hash);
        true
    }
}


proof fn lemma_to_hex_index(bytes: Seq<u8>, i: int)
    requires
        0 <= i < bytes.len(),
    ensures
        spec_to_hex(bytes).len() == 2 * bytes.len(),
        spec_to_hex(bytes)[2 * i] == hex_digit(bytes[i] / 16),
        spec_to_hex(bytes)[2 * i + 1] == hex_digit(bytes[i] % 16),
    decreases bytes.len(),
{
    lemma_to_hex_len(bytes);
    lemma_to_hex_len(bytes.drop_last());
    if i < bytes.len() - 1 {
        lemma_to_hex_index(bytes.drop_last(), i);
    }
}

proof fn lemma_to_hex_ascii(bytes: Seq<u8>)
    ensures
        vstd::utf8::is_ascii_chars(spec_to_hex(bytes)),
    decreases bytes.len(),
{
    lemma_to_hex_len(bytes);
    if bytes.len() > 0 {
        lemma_to_hex_ascii(bytes.drop_last());
        let prev = spec_to_hex(bytes.drop_last());
        assert forall|k: int| 0 <= k < spec_to_hex(bytes).len() implies (spec_to_hex(bytes)[k] as nat)
            < 128 by {
            if k < prev.len() {
                assert(spec_to_hex(bytes)[k] == prev[k]);
            }
        }
    }
}

/// Reading back the hexadecimal text of a digest gives the digest: the UTF-8
/// bytes of `to_hex` are accepted by `from_hex`, which returns the same
/// 32 bytes.
pub proof fn law_hex_roundtrip(id: ChunkId)
    ensures
        spec_from_hex(vstd::utf8::encode_utf8(spec_to_hex(id.hash@))) == Some(id.hash@),
{
    let h = id.hash@;
    let t = spec_to_hex(h);
    lemma_to_hex_len(h);
    lemma_to_hex_ascii(h);
    vstd::utf8::is_ascii_chars_encode_utf8(t);
    let b = vstd::utf8::encode_utf8(t);
    assert(b.len() == 64);
    assert forall|i: int| 0 <= i < 32 implies #[trigger] pair_val(b[2 * i], b[2 * i + 1]) == Some(h[i]) by {
        lemma_to_hex_index(h, i);
        assert(b[2 * i] == t[2 * i] as u8);
        assert(b[2 * i + 1] == t[2 * i + 1] as u8);
    }
    assert(all_pairs_valid(b));
    assert(Seq::new(32, |i: int| pair_val(b[2 * i], b[2 * i + 1]).unwrap()) =~= h);
}



/// An ASCII hexadecimal digit, in either case.
pub open spec fn is_hex_char(c: char) -> bool {
    ('0' <= c <= '9') || ('a' <= c <= 'f') || ('A' <= c <= 'F')
}

/// A character with ASCII upper-case letters turned to lower case.
pub open spec fn ascii_lower(c: char) -> char {
    if 'A' <= c <= 'Z' {
        ((c as u32) + 32) as char
    } else {
        c
    }
}

/// Writing back an identifier read from 64 hexadecimal digits gives the same
/// digits in lower case: `from_hex` accepts the text, and `to_hex` of what it
/// reads is the text lower-cased.
pub proof fn law_hex_rewritten_lowercase(s: Seq<char>)
    requires
        s.len() == 64,
        forall|i: int| 0 <= i < 64 ==> is_hex_char(#[trigger] s[i]),
    ensures
        spec_from_hex(vstd::utf8::encode_utf8(s)) is Some,
        spec_to_hex(spec_from_hex(vstd::utf8::encode_utf8(s)).unwrap()) == s.map_values(
            |c: char| ascii_lower(c),
        ),
{
    assert(vstd::utf8::is_ascii_chars(s)) by {
        assert forall|i: int| 0 <= i < s.len() implies '\0' <= #[trigger] s[i] <= '\u{7f}' by {
            assert(is_hex_char(s[i]));
        }
    }
    vstd::utf8::is_ascii_chars_encode_utf8(s);
    let b = vstd::utf8::encode_utf8(s);
    assert forall|i: int| 0 <= i < 32 implies (#[trigger] pair_val(b[2 * i], b[2 * i + 1])) is Some by {
        assert(b[2 * i] == s[2 * i] as u8);
        assert(b[2 * i + 1] == s[2 * i + 1] as u8);
        assert(is_hex_char(s[2 * i]));
        assert(is_hex_char(s[2 * i + 1]));
    }
    assert(all_pairs_valid(b));
    let h = Seq::new(32, |i: int| pair_val(b[2 * i], b[2 * i + 1]).unwrap());
    assert(spec_from_hex(b) == Some(h));
    lemma_to_hex_len(h);
    let t = spec_to_hex(h);
    let l = s.map_values(|c: char| ascii_lower(c));
    assert forall|k: int| 0 <= k < 64 implies t[k] == l[k] by {
        let i = k / 2;
        lemma_to_hex_index(h, i);
        let hi = b[2 * i];
        let lo = b[2 * i + 1];
        assert(hi == s[2 * i] as u8);
        assert(lo == s[2 * i + 1] as u8);
        assert(is_hex_char(s[2 * i]));
        assert(is_hex_char(s[2 * i + 1]));
        let vh = hex_val(hi).unwrap();
        let vl = hex_val(lo).unwrap();
        assert(h[i] == (vh * 16 + vl) as u8);
        assert(h[i] / 16 == vh && h[i] % 16 == vl) by (nonlinear_arith)
            requires
                h[i] == (vh * 16 + vl) as u8,
                vh < 16,
                vl < 16,
        ;
        if k % 2 == 0 {
            assert(k == 2 * i);
            assert(t[k] == hex_digit(vh));
        } else {
            assert(k == 2 * i + 1);
            assert(t[k] == hex_digit(vl));
        }
    }
    assert(t =~= l);
}

/// Kind of Rust item that a code chunk covers.
#[derive(Clone, Copy, Debug, PartialEq, Eq, Structural)]
pub enum SymbolType {
    Function,
    Impl,
    ImplMethod,
    Struct,
    Enum,
    Trait,
    Module,
    TypeAlias,
    Const,
    Static,
}

/// How a chunk was cut from its file.
#[derive(Clone, Copy, Debug, PartialEq, Eq, Structural)]
pub enum ChunkKind {
    Paragraph,
    AstNode,
    DocComment,
}

/// Everything recorded about a chunk besides its bytes and embedding.
/// `file_path` is the path relative to the project root.
#[derive(Clone, Debug)]
pub struct ChunkMeta {
    pub file_path: String,
    pub file_hash: u64,
    pub byte_start: u64,
    pub byte_end: u64,
    pub chunk_kind: ChunkKind,
    pub updated_at: u64,
    pub language: Option<String>,
    pub symbol_type: Option<SymbolType>,
    pub symbol_name: Option<String>,
    pub mod_path: Option<String>,
    pub parent_symbol: Option<String>,
    pub signature: Option<String>,
    pub ast_node_type: Option<String>,
    pub is_public: Option<bool>,
    pub has_docs: Option<bool>,
}

/// Mathematical form of [`ChunkMeta`]: strings as character sequences.
pub struct MetaView {
    pub file_path: Seq<char>,
    pub file_hash: u64,
    pub byte_start: u64,
    pub byte_end: u64,
    pub chunk_kind: ChunkKind,
    pub updated_at: u64,
    pub language: Option<Seq<char>>,
    pub symbol_type: Option<SymbolType>,
    pub symbol_name: Option<Seq<char>>,
    pub mod_path: Option<Seq<char>>,
    pub parent_symbol: Option<Seq<char>>,
    pub signature: Option<Seq<char>>,
    pub ast_node_type: Option<Seq<char>>,
    pub is_public: Option<bool>,
    pub has_docs: Option<bool>,
}

/// The text of an optional string.
pub open spec fn opt_text(o: Option<String>) -> Option<Seq<char>> {
    match o {
        Some(s) => Some(s@),
        None => None,
    }
}

impl View for ChunkMeta {
    type V = MetaView;

    open spec fn view(&self) -> MetaView {
        MetaView {
            file_path: self.file_path@,
            file_hash: self.file_hash,
            byte_start: self.byte_start,
            byte_end: self.byte_end,
            chunk_kind: self.chunk_kind,
            updated_at: self.updated_at,
            language: opt_text(self.language),
            symbol_type: self.symbol_type,
            symbol_name: opt_text(self.symbol_name),
            mod_path: opt_text(self.mod_path),
            parent_symbol: opt_text(self.parent_symbol),
            signature: opt_text(self.signature),
            ast_node_type: opt_text(self.ast_node_type),
            is_public: self.is_public,
            has_docs: self.has_docs,
        }
    }
}

/// Copy of an optional string.
pub fn copy_opt_string(s: &Option<String>) -> (r: Option<String>)
    ensures
        r == *s,
{
    match s {
        Some(t) => Some(t.clone()),
        None => None,
    }
}

impl ChunkMeta {
    /// A field-for-field copy.
    pub fn duplicate(&self) -> (r: ChunkMeta)
        ensures
            r == *self,
    {
        ChunkMeta {
            file_path: self.file_path.clone(),
            file_hash: self.file_hash,
            byte_start: self.byte_start,
            byte_end: self.byte_end,
            chunk_kind: self.chunk_kind,
            updated_at: self.updated_at,
            language: copy_opt_string(&self.language),
            symbol_type: self.symbol_type,
            symbol_name: copy_opt_string(&self.symbol_name),
            mod_path: copy_opt_string(&self.mod_path),
            parent_symbol: copy_opt_string(&self.parent_symbol),
            signature: copy_opt_string(&self.signature),
            ast_node_type: copy_opt_string(&self.ast_node_type),
            is_public: self.is_public,
            has_docs: self.has_docs,
        }
    }
}

/// Size and modification time (seconds since the epoch) of a file.
#[derive(Clone, Copy, Debug, PartialEq, Eq, Structural)]
pub struct FileFingerprint {
    pub size: u64,
    pub modified: u64,
}

} // verus!
