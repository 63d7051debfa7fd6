//! The content hash recorded for each indexed file, by relative path, and
//! what an update decides from it: which files to index again and which
//! files are gone.
use crate::text::string_views;
use vstd::prelude::*;

verus! {

/// The paths of a list of (path, hash) entries.
pub open spec fn entry_paths(s: Seq<(String, u64)>) -> Seq<Seq<char>> {
    s.map_values(|e: (String, u64)| e.0@)
}

/// The entry that holds path `p`.
pub open spec fn entry_index(s: Seq<(String, u64)>, p: Seq<char>) -> int {
    choose|i: int| 0 <= i < s.len() && s[i].0@ == p
}

/// The map from path to hash that a list of entries holds.
pub open spec fn entries_map(s: Seq<(String, u64)>) -> Map<Seq<char>, u64> {
    Map::new(|p: Seq<char>| entry_paths(s).contains(p), |p: Seq<char>| s[entry_index(s, p)].1)
}

/// Recorded content hashes by relative path: each path at most once.
pub struct FileHashes {
    entries: Vec<(String, u64)>,
}

impl FileHashes {
    #[verifier::type_invariant]
    spec fn paths_unique(&self) -> bool {
        entry_paths(self.entries@).no_duplicates()
    }
}

impl View for FileHashes {
    type V = Map<Seq<char>, u64>;

    closed spec fn view(&self) -> Map<Seq<char>, u64> {
        entries_map(self.entries@)
    }
}

proof fn lemma_lookup(s: Seq<(String, u64)>, i: int)
    requires
        entry_paths(s).no_duplicates(),
        0 <= i < s.len(),
    ensures
        entries_map(s).contains_key(s[i].0@),
        entries_map(s)[s[i].0@] == s[i].1,
{
    assert(entry_paths(s)[i] == s[i].0@);
    let j = entry_index(s, s[i].0@);
    assert(entry_paths(s)[j] == entry_paths(s)[i]);
}

proof fn lemma_absent(s: Seq<(String, u64)>, p: Seq<char>)
    requires
        forall|i: int| 0 <= i < s.len() ==> s[i].0@ != p,
    ensures
        !entries_map(s).contains_key(p),
{
    if entry_paths(s).contains(p) {
        let i = choose|i: int| 0 <= i < entry_paths(s).len() && entry_paths(s)[i] == p;
        assert(s[i].0@ == p);
    }
}

impl FileHashes {
    /// No recorded hash.
    pub fn new() -> (r: FileHashes)
        ensures
            r@ == Map::<Seq<char>, u64>::empty(),
    {
        let r = FileHashes { entries: Vec::new() };
        assert(r@ =~= Map::<Seq<char>, u64>::empty());
        r
    }

    /// The number of files with a recorded hash.
    pub fn len(&self) -> (n: usize)
        ensures
            n == self@.len(),
    {
        proof {
            use_type_invariant(self);
            entry_paths(self.entries@).unique_seq_to_set();
            assert(self@.dom() =~= entry_paths(self.entries@).to_set());
        }
        self.entries.len()
    }

    fn position(&self, path: &String) -> (r: Option<usize>)
        ensures
            match r {
                Some(i) => i < self.entries@.len() && self.entries@[i as int].0@ == path@,
                None => forall|i: int| 0 <= i < self.entries@.len() ==> self.entries@[i].0@ != path@,
            },
    {
        let mut i: usize = 0;
        while i < self.entries.len()
            invariant
                i <= self.entries@.len(),
                forall|k: int| 0 <= k < i ==> self.entries@[k].0@ != path@,
            decreases self.entries@.len() - i,
        {
            if self.entries[i].0 == *path {
                return Some(i);
            }
            i = i + 1;
        }
        None
    }

    /// The hash recorded for `path`.
    pub fn get(&self, path: &String) -> (r: Option<u64>)
        ensures
            r == (if self@.contains_key(path@) {
                Some(self@[path@])
            } else {
                None
            }),
    {
        proof {
            use_type_invariant(self);
        }
        match self.position(path) {
            Some(i) => {
                proof {
                    lemma_lookup(self.entries@, i as int);
                }
                Some(self.entries[i].1)
            },
            None => {
                proof {
                    lemma_absent(self.entries@, path@);
                }
                None
            },
        }
    }

    /// Records `hash` for `path`, replacing any hash recorded before.
    pub fn insert(&mut self, path: String, hash: u64)
        ensures
            final(self)@ == old(self)@.insert(path@, hash),
    {
        proof {
            use_type_invariant(&*self);
        }
        let ghost s = self.entries@;
        let ghost p = path@;
        let found = self.position(&path);
        let mut entries: Vec<(String, u64)> = Vec::new();
        std::mem::swap(&mut entries, &mut self.entries);
        match found {
            Some(i) => {
                entries.set(i, (path, hash));
                proof {
                    let t = entries@;
                    assert(t[i as int].0@ == p);
                    assert(entry_paths(s)[i as int] == p);
                    assert(entry_paths(t) =~= entry_paths(s));
                    assert forall|q: Seq<char>| #[trigger] entries_map(t).contains_key(q) implies entries_map(
                        t,
                    )[q] == entries_map(s).insert(p, hash)[q] by {
                        let j = choose|j: int| 0 <= j < entry_paths(t).len() && entry_paths(t)[j] == q;
                        lemma_lookup(t, j);
                        if j != i {
                            assert(entry_paths(t)[j] != entry_paths(t)[i as int]);
                            assert(t[j] == s[j]);
                            lemma_lookup(s, j);
                        }
                    }
                    assert forall|q: Seq<char>| #[trigger] entries_map(s).contains_key(q) implies entries_map(
                        t,
                    ).contains_key(q) by {
                        assert(entry_paths(s).contains(q));
                    }
                    assert(entries_map(t).contains_key(p));
                    assert(entries_map(t) =~= entries_map(s).insert(p, hash));
                }
            },
            None => {
                entries.push((path, hash));
                proof {
                    let t = entries@;
                    assert(entry_paths(t) =~= entry_paths(s).push(p));
                    assert forall|q: Seq<char>| #[trigger] entries_map(t).contains_key(q) implies entries_map(
                        t,
                    )[q] == entries_map(s).insert(p, hash)[q] by {
                        let j = choose|j: int| 0 <= j < entry_paths(t).len() && entry_paths(t)[j] == q;
                        lemma_lookup(t, j);
                        if j < s.len() {
                            lemma_lookup(s, j);
                        }
                    }
                    assert forall|q: Seq<char>| #[trigger] entries_map(s).contains_key(q) implies entries_map(
                        t,
                    ).contains_key(q) by {
                        let j = choose|j: int| 0 <= j < entry_paths(s).len() && entry_paths(s)[j] == q;
                        assert(entry_paths(t)[j] == q);
                    }
                    assert(entry_paths(t)[s.len() as int] == p);
                    assert(entries_map(t) =~= entries_map(s).insert(p, hash));
                }
            },
        }
        self.entries = entries;
    }

    /// Forgets the hash recorded for `path`.
    pub fn remove(&mut self, path: &String)
        ensures
            final(self)@ == old(self)@.remove(path@),
    {
        proof {
            use_type_invariant(&*self);
        }
        let ghost s = self.entries@;
        let ghost p = path@;
        let found = self.position(path);
        let mut entries: Vec<(String, u64)> = Vec::new();
        std::mem::swap(&mut entries, &mut self.entries);
        match found {
            Some(i) => {
                entries.remove(i);
                proof {
                    let t = entries@;
                    assert(t =~= s.remove(i as int));
                    assert(entry_paths(t) =~= entry_paths(s).remove(i as int));
                    assert forall|q: Seq<char>| #[trigger] entries_map(t).contains_key(q) implies entries_map(
                        s,
                    ).remove(p).contains_key(q) && entries_map(t)[q] == entries_map(s).remove(p)[q] by {
                        let j = choose|j: int| 0 <= j < entry_paths(t).len() && entry_paths(t)[j] == q;
                        lemma_lookup(t, j);
                        let k = if j < i { j } else { j + 1 };
                        assert(s[k] == t[j]);
                        lemma_lookup(s, k);
                        assert(entry_paths(s)[k] != entry_paths(s)[i as int]);
                    }
                    assert forall|q: Seq<char>| #[trigger] entries_map(s).remove(p).contains_key(q) implies entries_map(
                        t,
                    ).contains_key(q) by {
                        let k = choose|k: int| 0 <= k < entry_paths(s).len() && entry_paths(s)[k] == q;
                        assert(k != i);
                        let j = if k < i { k } else { k - 1 };
                        assert(entry_paths(t)[j] == q);
                    }
                    assert(entries_map(t) =~= entries_map(s).remove(p));
                }
            },
            None => {
                proof {
                    lemma_absent(s, p);
                    assert(entries_map(s) =~= entries_map(s).remove(p));
                }
            },
        }
        self.entries = entries;
    }
}

fn contains_text(v: &Vec<String>, s: &String) -> (r: bool)
    ensures
        r == string_views(v@).contains(s@),
{
    let mut i: usize = 0;
    while i < v.len()
        invariant
            i <= v@.len(),
            forall|k: int| 0 <= k < i ==> v@[k]@ != s@,
        decreases v@.len() - i,
    {
        if v[i] == *s {
            assert(string_views(v@)[i as int] == s@);
            return true;
        }
        i = i + 1;
    }
    assert forall|k: int| 0 <= k < string_views(v@).len() implies string_views(v@)[k] != s@ by {
        assert(string_views(v@)[k] == v@[k]@);
    }
    false
}

/// A file is indexed again when no hash is recorded for it or the recorded
/// hash differs from its current one.
pub fn needs_reindex(known: &FileHashes, path: &String, hash: u64) -> (r: bool)
    ensures
        r == !(known@.contains_key(path@) && known@[path@] == hash),
{
    match known.get(path) {
        Some(h) => h != hash,
        None => true,
    }
}

/// The recorded files that are no longer among the files on disk, each once;
/// an update removes their chunks.
pub fn stale_paths(known: &FileHashes, on_disk: &Vec<String>) -> (r: Vec<String>)
    ensures
        string_views(r@).no_duplicates(),
        forall|p: Seq<char>|
            #[trigger] string_views(r@).contains(p) <==> (known@.contains_key(p) && !string_views(
                on_disk@,
            ).contains(p)),
{
    proof {
        use_type_invariant(known);
    }
    let ghost s = known.entries@;
    let mut out: Vec<String> = Vec::new();
    let mut idx: Vec<usize> = Vec::new();
    let mut i: usize = 0;
    while i < known.entries.len()
        invariant
            s == known.entries@,
            entry_paths(s).no_duplicates(),
            i <= s.len(),
            out@.len() == idx@.len(),
            forall|k: int| 0 <= k < idx@.len() ==> #[trigger] idx@[k] < i && out@[k]@ == s[idx@[k] as int].0@,
            forall|k: int, l: int| 0 <= k < l < idx@.len() ==> #[trigger] idx@[k] < #[trigger] idx@[l],
            forall|j: int|
                0 <= j < i ==> (!string_views(on_disk@).contains(s[j].0@) <==> exists|k: int|
                    0 <= k < idx@.len() && #[trigger] idx@[k] == j),
        decreases s.len() - i,
    {
        let ghost old_idx = idx@;
        if !contains_text(on_disk, &known.entries[i].0) {
            out.push(known.entries[i].0.clone());
            idx.push(i);
            assert(idx@[idx@.len() - 1] == i);
        }
        assert forall|j: int|
            0 <= j < i + 1 implies (!string_views(on_disk@).contains(s[j].0@) <==> exists|k: int|
                0 <= k < idx@.len() && #[trigger] idx@[k] == j) by {
            if j < i {
                if !string_views(on_disk@).contains(s[j].0@) {
                    let k = choose|k: int| 0 <= k < old_idx.len() && #[trigger] old_idx[k] == j;
                    assert(idx@[k] == j);
                }
                if exists|k: int| 0 <= k < idx@.len() && #[trigger] idx@[k] == j {
                    let k = choose|k: int| 0 <= k < idx@.len() && #[trigger] idx@[k] == j;
                    assert(k < old_idx.len());
                    assert(old_idx[k] == j);
                }
            } else {
                if exists|k: int| 0 <= k < idx@.len() && #[trigger] idx@[k] == j {
                    let k = choose|k: int| 0 <= k < idx@.len() && #[trigger] idx@[k] == j;
                    if k < old_idx.len() {
                        assert(old_idx[k] < i);
                    }
                }
            }
        }
        i = i + 1;
    }
    proof {
        assert forall|a: int, b: int|
            0 <= a < string_views(out@).len() && 0 <= b < string_views(out@).len() && a != b implies string_views(
            out@,
        )[a] != string_views(out@)[b] by {
            assert(string_views(out@)[a] == out@[a]@);
            assert(string_views(out@)[b] == out@[b]@);
            if a < b {
                assert(idx@[a] < idx@[b]);
            } else {
                assert(idx@[b] < idx@[a]);
            }
            assert(entry_paths(s)[idx@[a] as int] == s[idx@[a] as int].0@);
            assert(entry_paths(s)[idx@[b] as int] == s[idx@[b] as int].0@);
        }
        assert forall|p: Seq<char>|
            #[trigger] string_views(out@).contains(p) <==> (known@.contains_key(p) && !string_views(
                on_disk@,
            ).contains(p)) by {
            if string_views(out@).contains(p) {
                let k = choose|k: int| 0 <= k < string_views(out@).len() && string_views(out@)[k] == p;
                assert(out@[k]@ == p);
                let j = idx@[k] as int;
                lemma_lookup(s, j);
                assert(exists|k2: int| 0 <= k2 < idx@.len() && #[trigger] idx@[k2] == j);
            }
            if known@.contains_key(p) && !string_views(on_disk@).contains(p) {
                let j = choose|j: int| 0 <= j < entry_paths(s).len() && entry_paths(s)[j] == p;
                assert(s[j].0@ == p);
                let k = choose|k: int| 0 <= k < idx@.len() && #[trigger] idx@[k] == j;
                assert(string_views(out@)[k] == p);
            }
        }
    }
    out
}

/// What a lookup gives back of a record: once `hash` has been recorded for
/// `path`, the lookup of `path` gives `hash` (so no reindex is needed for
/// that hash), and every other path keeps what it had.
pub proof fn law_hash_lookup_after_record(
    before: FileHashes,
    after: FileHashes,
    path: Seq<char>,
    hash: u64,
    other: Seq<char>,
)
    requires
        after@ == before@.insert(path, hash),
    ensures
        after@.contains_key(path) && after@[path] == hash,
        other != path ==> after@.contains_key(other) == before@.contains_key(other),
        other != path && before@.contains_key(other) ==> after@[other] == before@[other],
{
}

/// Once `path` has been forgotten, its lookup gives nothing (so it is indexed
/// again whatever its hash), and every other path keeps what it had.
pub proof fn law_hash_lookup_after_forget(before: FileHashes, after: FileHashes, path: Seq<char>, other: Seq<char>)
    requires
        after@ == before@.remove(path),
    ensures
        !after@.contains_key(path),
        other != path ==> after@.contains_key(other) == before@.contains_key(other),
        other != path && before@.contains_key(other) ==> after@[other] == before@[other],
{
}

} // verus!
