//! The order in which the members of a result group are shown: the members
//! whose chunk is known, by file path and then by first byte, with repeats
//! next to each other shown once.
use crate::text::chars_of;
use crate::storage::types::{ChunkId, ChunkMeta, MetaView};
use vstd::prelude::*;

verus! {

/// `a` sorts before `b` as `str` values do: character by character by code,
/// a proper prefix first.
pub open spec fn text_before(a: Seq<char>, b: Seq<char>) -> bool
    decreases a.len(),
{
    if b.len() == 0 {
        false
    } else if a.len() == 0 {
        true
    } else if a[0] != b[0] {
        a[0] < b[0]
    } else {
        text_before(a.drop_first(), b.drop_first())
    }
}

/// Chunk `a` is shown after chunk `b`: its file path sorts after `b`'s, or
/// the paths are equal and it starts later in the file.
pub open spec fn shown_after(a: MetaView, b: MetaView) -> bool {
    ||| text_before(b.file_path, a.file_path)
    ||| (a.file_path == b.file_path && b.byte_start < a.byte_start)
}

/// The index of the first known chunk with identifier `id`.
pub open spec fn first_known(known: Seq<(ChunkId, ChunkMeta)>, id: ChunkId) -> Option<int>
    decreases known.len(),
{
    if known.len() == 0 {
        None
    } else if known[0].0 == id {
        Some(0)
    } else {
        match first_known(known.drop_first(), id) {
            Some(i) => Some(i + 1),
            None => None,
        }
    }
}

/// For each member in order, the index of its known chunk; members that are
/// not known are left out.
pub open spec fn known_members(members: Seq<ChunkId>, known: Seq<(ChunkId, ChunkMeta)>) -> Seq<int>
    decreases members.len(),
{
    if members.len() == 0 {
        Seq::empty()
    } else {
        let prev = known_members(members.drop_last(), known);
        match first_known(known, members.last()) {
            Some(i) => prev.push(i),
            None => prev,
        }
    }
}

/// Known chunk `i` is shown after known chunk `j`.
pub open spec fn index_after(known: Seq<(ChunkId, ChunkMeta)>, i: int, j: int) -> bool {
    shown_after(known[i].1@, known[j].1@)
}

/// Where `x` goes in `s`: before the first entry shown after it.
pub open spec fn insert_pos(known: Seq<(ChunkId, ChunkMeta)>, s: Seq<int>, x: int) -> int
    decreases s.len(),
{
    if s.len() == 0 {
        0
    } else if index_after(known, s[0], x) {
        0
    } else {
        1 + insert_pos(known, s.drop_first(), x)
    }
}

/// `s` sorted by [`shown_after`], entries that tie keeping their order (an
/// insertion sort).
pub open spec fn sort_shown(known: Seq<(ChunkId, ChunkMeta)>, s: Seq<int>) -> Seq<int>
    decreases s.len(),
{
    if s.len() == 0 {
        Seq::empty()
    } else {
        let p = sort_shown(known, s.drop_last());
        p.insert(insert_pos(known, p, s.last()), s.last())
    }
}

/// `s` with each run of equal neighbours reduced to one entry.
pub open spec fn dedup(s: Seq<int>) -> Seq<int>
    decreases s.len(),
{
    if s.len() <= 1 {
        s
    } else {
        let d = dedup(s.drop_last());
        if s.last() == s[s.len() - 2] {
            d
        } else {
            d.push(s.last())
        }
    }
}

/// The known chunks of a group's members, as indices into `known`, in the
/// order they are shown.
pub open spec fn spec_shown_order(members: Seq<ChunkId>, known: Seq<(ChunkId, ChunkMeta)>) -> Seq<int> {
    dedup(sort_shown(known, known_members(members, known)))
}

pub open spec fn index_view(v: Seq<usize>) -> Seq<int> {
    v.map_values(|i: usize| i as int)
}

fn find_known(known: &Vec<(ChunkId, ChunkMeta)>, id: &ChunkId) -> (r: Option<usize>)
    ensures
        match r {
            Some(i) => first_known(known@, *id) == Some(i as int),
            None => first_known(known@, *id) is None,
        },
{
    let mut i: usize = 0;
    assert(known@.skip(0) =~= known@);
    while i < known.len()
        invariant
            i <= known@.len(),
            first_known(known@, *id) == match first_known(known@.skip(i as int), *id) {
                Some(k) => Some(k + i),
                None => None::<int>,
            },
        decreases known@.len() - i,
    {
        assert(known@.skip(i as int).drop_first() =~= known@.skip(i + 1));
        if known[i].0.same(id) {
            return Some(i);
        }
        i = i + 1;
    }
    None
}

fn same_text(a: &Vec<char>, b: &Vec<char>) -> (r: bool)
    ensures
        r == (a@ == b@),
{
    if a.len() != b.len() {
        return false;
    }
    let mut i: usize = 0;
    while i < a.len()
        invariant
            i <= a@.len(),
            a@.len() == b@.len(),
            forall|k: int| 0 <= k < i ==> a@[k] == b@[k],
        decreases a@.len() - i,
    {
        if a[i] != b[i] {
            return false;
        }
        i = i + 1;
    }
    assert(a@ =~= b@);
    true
}

fn text_lt(a: &Vec<char>, b: &Vec<char>) -> (r: bool)
    ensures
        r == text_before(a@, b@),
{
    let mut i: usize = 0;
    assert(a@.skip(0) =~= a@);
    assert(b@.skip(0) =~= b@);
    while i < a.len() && i < b.len()
        invariant
            i <= a@.len(),
            i <= b@.len(),
            text_before(a@, b@) == text_before(a@.skip(i as int), b@.skip(i as int)),
        decreases a@.len() - i,
    {
        assert(a@.skip(i as int)[0] == a@[i as int]);
        assert(b@.skip(i as int)[0] == b@[i as int]);
        if a[i] != b[i] {
            return a[i] < b[i];
        }
        assert(a@.skip(i as int).drop_first() =~= a@.skip(i + 1));
        assert(b@.skip(i as int).drop_first() =~= b@.skip(i + 1));
        i = i + 1;
    }
    i == a.len() && i < b.len()
}

/// Known chunk `i` is shown after known chunk `j`; `paths` holds the
/// characters of each known chunk's file path.
fn shown_after_exec(known: &Vec<(ChunkId, ChunkMeta)>, paths: &Vec<Vec<char>>, i: usize, j: usize) -> (r: bool)
    requires
        i < known@.len(),
        j < known@.len(),
        paths@.len() == known@.len(),
        forall|k: int| 0 <= k < known@.len() ==> #[trigger] paths@[k]@ == known@[k].1.file_path@,
    ensures
        r == index_after(known@, i as int, j as int),
{
    assert(paths@[i as int]@ == known@[i as int].1.file_path@);
    assert(paths@[j as int]@ == known@[j as int].1.file_path@);
    if text_lt(&paths[j], &paths[i]) {
        return true;
    }
    same_text(&paths[i], &paths[j]) && known[j].1.byte_start < known[i].1.byte_start
}

/// The known chunks of a group's members, as indices into `known`, in the
/// order they are shown: members without a known chunk are left out (the
/// first known entry of an identifier counts), the rest are sorted by file
/// path and then by first byte (stably), and runs of the same chunk are
/// shown once (see [`spec_shown_order`]).
pub fn shown_order(members: &Vec<ChunkId>, known: &Vec<(ChunkId, ChunkMeta)>) -> (r: Vec<usize>)
    ensures
        index_view(r@) == spec_shown_order(members@, known@),
        forall|k: int| 0 <= k < r@.len() ==> #[trigger] r@[k] < known@.len(),
{
    // The known chunks of the members, in member order.
    let mut kept: Vec<usize> = Vec::new();
    let mut m: usize = 0;
    while m < members.len()
        invariant
            m <= members@.len(),
            index_view(kept@) == known_members(members@.take(m as int), known@),
            forall|k: int| 0 <= k < kept@.len() ==> #[trigger] kept@[k] < known@.len(),
        decreases members@.len() - m,
    {
        assert(members@.take(m + 1).drop_last() =~= members@.take(m as int));
        let ghost before = index_view(kept@);
        match find_known(known, &members[m]) {
            Some(i) => {
                proof {
                    lemma_first_known_bound(known@, members@[m as int]);
                }
                kept.push(i);
                assert(index_view(kept@) =~= before.push(i as int));
            },
            None => {},
        }
        m = m + 1;
    }
    assert(members@.take(members@.len() as int) =~= members@);
    // The characters of every known path, compared below.
    let mut paths: Vec<Vec<char>> = Vec::new();
    let mut p: usize = 0;
    while p < known.len()
        invariant
            p <= known@.len(),
            paths@.len() == p,
            forall|k: int| 0 <= k < p ==> #[trigger] paths@[k]@ == known@[k].1.file_path@,
        decreases known@.len() - p,
    {
        paths.push(chars_of(known[p].1.file_path.as_str()));
        p = p + 1;
    }
    // Insertion sort, each entry placed after the entries it does not precede.
    let mut sorted: Vec<usize> = Vec::new();
    let mut s: usize = 0;
    while s < kept.len()
        invariant
            s <= kept@.len(),
            paths@.len() == known@.len(),
            forall|k: int| 0 <= k < known@.len() ==> #[trigger] paths@[k]@ == known@[k].1.file_path@,
            forall|k: int| 0 <= k < kept@.len() ==> #[trigger] kept@[k] < known@.len(),
            forall|k: int| 0 <= k < sorted@.len() ==> #[trigger] sorted@[k] < known@.len(),
            index_view(sorted@) == sort_shown(known@, index_view(kept@).take(s as int)),
        decreases kept@.len() - s,
    {
        let x = kept[s];
        let ghost cur = index_view(sorted@);
        assert(index_view(kept@).take(s + 1).drop_last() =~= index_view(kept@).take(s as int));
        assert(index_view(kept@).take(s + 1).last() == x as int);
        let mut pos: usize = 0;
        assert(cur.skip(0) =~= cur);
        while pos < sorted.len() && !shown_after_exec(known, &paths, sorted[pos], x)
            invariant
                pos <= sorted@.len(),
                x < known@.len(),
                cur == index_view(sorted@),
                paths@.len() == known@.len(),
                forall|k: int| 0 <= k < known@.len() ==> #[trigger] paths@[k]@ == known@[k].1.file_path@,
                forall|k: int| 0 <= k < sorted@.len() ==> #[trigger] sorted@[k] < known@.len(),
                insert_pos(known@, cur, x as int) == pos + insert_pos(known@, cur.skip(pos as int), x as int),
            decreases sorted@.len() - pos,
        {
            assert(cur.skip(pos as int)[0] == sorted@[pos as int] as int);
            assert(cur.skip(pos as int).drop_first() =~= cur.skip(pos + 1));
            pos = pos + 1;
        }
        proof {
            if pos < sorted@.len() {
                assert(cur.skip(pos as int)[0] == sorted@[pos as int] as int);
            } else {
                assert(cur.skip(pos as int).len() == 0);
            }
        }
        sorted.insert(pos, x);
        assert(index_view(sorted@) =~= cur.insert(pos as int, x as int));
        assert forall|k: int| 0 <= k < sorted@.len() implies #[trigger] sorted@[k] < known@.len() by {
            if k < pos {
                assert(sorted@[k] == cur[k]);
            } else if k > pos {
                assert(sorted@[k] == cur[k - 1]);
            }
        }
        s = s + 1;
    }
    assert(index_view(kept@).take(kept@.len() as int) =~= index_view(kept@));
    // Runs of the same chunk, shown once.
    let mut out: Vec<usize> = Vec::new();
    let mut d: usize = 0;
    while d < sorted.len()
        invariant
            d <= sorted@.len(),
            forall|k: int| 0 <= k < sorted@.len() ==> #[trigger] sorted@[k] < known@.len(),
            forall|k: int| 0 <= k < out@.len() ==> #[trigger] out@[k] < known@.len(),
            index_view(out@) == dedup(index_view(sorted@).take(d as int)),
            d > 0 ==> out@.len() > 0 && out@.last() == sorted@[d - 1],
        decreases sorted@.len() - d,
    {
        let ghost t = index_view(sorted@).take(d + 1);
        assert(t.drop_last() =~= index_view(sorted@).take(d as int));
        assert(t.last() == sorted@[d as int] as int);
        proof {
            if d > 0 {
                assert(t[t.len() - 2] == sorted@[d - 1] as int);
                lemma_dedup_last(index_view(sorted@).take(d as int));
            }
        }
        let ghost before = index_view(out@);
        if d == 0 || sorted[d] != sorted[d - 1] {
            out.push(sorted[d]);
            assert(index_view(out@) =~= before.push(sorted@[d as int] as int));
        }
        d = d + 1;
    }
    assert(index_view(sorted@).take(sorted@.len() as int) =~= index_view(sorted@));
    out
}

proof fn lemma_first_known_bound(known: Seq<(ChunkId, ChunkMeta)>, id: ChunkId)
    ensures
        first_known(known, id) matches Some(i) ==> 0 <= i < known.len() && known[i].0 == id,
    decreases known.len(),
{
    if known.len() > 0 && known[0].0 != id {
        lemma_first_known_bound(known.drop_first(), id);
    }
}

proof fn lemma_dedup_last(s: Seq<int>)
    requires
        s.len() > 0,
    ensures
        dedup(s).len() > 0,
        dedup(s).last() == s.last(),
    decreases s.len(),
{
    if s.len() > 1 {
        lemma_dedup_last(s.drop_last());
    }
}

proof fn lemma_text_before_asym(a: Seq<char>, b: Seq<char>)
    requires
        text_before(a, b),
    ensures
        !text_before(b, a),
        a != b,
    decreases a.len(),
{
    if a.len() > 0 && b.len() > 0 && a[0] == b[0] {
        lemma_text_before_asym(a.drop_first(), b.drop_first());
        assert(a =~= seq![a[0]] + a.drop_first());
        assert(b =~= seq![b[0]] + b.drop_first());
    }
}

proof fn lemma_after_asym(a: MetaView, b: MetaView)
    requires
        shown_after(a, b),
    ensures
        !shown_after(b, a),
{
    if text_before(b.file_path, a.file_path) {
        lemma_text_before_asym(b.file_path, a.file_path);
    }
    if text_before(a.file_path, b.file_path) {
        lemma_text_before_asym(a.file_path, b.file_path);
    }
}

/// Each entry of `s` is not shown after the next one.
pub open spec fn in_shown_order(known: Seq<(ChunkId, ChunkMeta)>, s: Seq<int>) -> bool {
    forall|k: int| 0 <= k < s.len() - 1 ==> !#[trigger] index_after(known, s[k], s[k + 1])
}

proof fn lemma_insert_pos(known: Seq<(ChunkId, ChunkMeta)>, s: Seq<int>, x: int)
    ensures
        0 <= insert_pos(known, s, x) <= s.len(),
        forall|j: int| 0 <= j < insert_pos(known, s, x) ==> !#[trigger] index_after(known, s[j], x),
        insert_pos(known, s, x) < s.len() ==> index_after(known, s[insert_pos(known, s, x)], x),
    decreases s.len(),
{
    if s.len() > 0 && !index_after(known, s[0], x) {
        let t = s.drop_first();
        lemma_insert_pos(known, t, x);
        assert forall|j: int| 0 <= j < insert_pos(known, s, x) implies !#[trigger] index_after(known, s[j], x) by {
            if j > 0 {
                assert(s[j] == t[j - 1]);
            }
        }
    }
}

proof fn lemma_sort_shown(known: Seq<(ChunkId, ChunkMeta)>, s: Seq<int>)
    ensures
        in_shown_order(known, sort_shown(known, s)),
        sort_shown(known, s).len() == s.len(),
        forall|v: int| #[trigger] sort_shown(known, s).contains(v) <==> s.contains(v),
    decreases s.len(),
{
    if s.len() > 0 {
        let p = sort_shown(known, s.drop_last());
        let x = s.last();
        lemma_sort_shown(known, s.drop_last());
        lemma_insert_pos(known, p, x);
        let pos = insert_pos(known, p, x);
        let q = p.insert(pos, x);
        assert(q == sort_shown(known, s));
        assert forall|k: int| 0 <= k < q.len() - 1 implies !#[trigger] index_after(known, q[k], q[k + 1]) by {
            if k + 1 < pos {
                assert(q[k] == p[k] && q[k + 1] == p[k + 1]);
                assert(!index_after(known, p[k], p[k + 1]));
            } else if k + 1 == pos {
                assert(q[k] == p[k] && q[k + 1] == x);
                assert(!index_after(known, p[k], x));
            } else if k == pos {
                assert(q[k] == x && q[k + 1] == p[pos]);
                assert(index_after(known, p[pos], x));
                lemma_after_asym(known[p[pos]].1@, known[x].1@);
                assert(!index_after(known, x, p[pos]));
            } else {
                assert(q[k] == p[k - 1] && q[k + 1] == p[k]);
                assert(!index_after(known, p[k - 1], p[(k - 1) + 1]));
            }
        }
        assert forall|v: int| #[trigger] q.contains(v) <==> s.contains(v) by {
            if q.contains(v) {
                let k = choose|k: int| 0 <= k < q.len() && q[k] == v;
                if k < pos {
                    assert(p[k] == v);
                    assert(p.contains(v));
                    assert(s.drop_last().contains(v));
                    let j = choose|j: int| 0 <= j < s.drop_last().len() && s.drop_last()[j] == v;
                    assert(s[j] == v);
                } else if k == pos {
                    assert(s[s.len() - 1] == v);
                } else {
                    assert(p[k - 1] == v);
                    assert(p.contains(v));
                    assert(s.drop_last().contains(v));
                    let j = choose|j: int| 0 <= j < s.drop_last().len() && s.drop_last()[j] == v;
                    assert(s[j] == v);
                }
            }
            if s.contains(v) {
                let j = choose|j: int| 0 <= j < s.len() && s[j] == v;
                if j == s.len() - 1 {
                    assert(q[pos] == v);
                } else {
                    assert(s.drop_last()[j] == v);
                    assert(p.contains(v));
                    let k = choose|k: int| 0 <= k < p.len() && p[k] == v;
                    if k < pos {
                        assert(q[k] == v);
                    } else {
                        assert(q[k + 1] == v);
                    }
                }
            }
        }
    }
}

proof fn lemma_dedup(known: Seq<(ChunkId, ChunkMeta)>, s: Seq<int>)
    requires
        in_shown_order(known, s),
    ensures
        in_shown_order(known, dedup(s)),
        forall|k: int| 0 <= k < dedup(s).len() - 1 ==> #[trigger] dedup(s)[k] != dedup(s)[k + 1],
        forall|v: int| #[trigger] dedup(s).contains(v) <==> s.contains(v),
    decreases s.len(),
{
    if s.len() > 1 {
        let t = s.drop_last();
        assert(in_shown_order(known, t)) by {
            assert forall|k: int| 0 <= k < t.len() - 1 implies !#[trigger] index_after(known, t[k], t[k + 1]) by {
                assert(t[k] == s[k] && t[k + 1] == s[k + 1]);
            }
        }
        lemma_dedup(known, t);
        lemma_dedup_last(t);
        let d = dedup(t);
        assert(t.last() == s[s.len() - 2]);
        let n = s.len() - 2;
        assert(!index_after(known, s[n], s[n + 1]));
        assert forall|v: int| #[trigger] dedup(s).contains(v) <==> s.contains(v) by {
            if s.contains(v) {
                let j = choose|j: int| 0 <= j < s.len() && s[j] == v;
                if j < s.len() - 1 {
                    assert(t[j] == v);
                    assert(t.contains(v));
                    assert(d.contains(v));
                    let k = choose|k: int| 0 <= k < d.len() && d[k] == v;
                    assert(dedup(s)[k] == v);
                } else if s.last() == s[s.len() - 2] {
                    assert(t[t.len() - 1] == v);
                    assert(t.contains(v));
                    assert(d.contains(v));
                } else {
                    assert(dedup(s)[d.len() as int] == v);
                }
            }
            if dedup(s).contains(v) {
                let k = choose|k: int| 0 <= k < dedup(s).len() && dedup(s)[k] == v;
                if k < d.len() {
                    assert(d[k] == v);
                    assert(d.contains(v));
                    assert(t.contains(v));
                    let j = choose|j: int| 0 <= j < t.len() && t[j] == v;
                    assert(s[j] == v);
                } else {
                    assert(s[s.len() - 1] == v);
                }
            }
        }
    }
}

proof fn lemma_known_members(members: Seq<ChunkId>, known: Seq<(ChunkId, ChunkMeta)>, j: int)
    requires
        0 <= j < members.len(),
        first_known(known, members[j]) is Some,
    ensures
        known_members(members, known).contains(first_known(known, members[j]).unwrap()),
    decreases members.len(),
{
    let prev = known_members(members.drop_last(), known);
    let i = first_known(known, members[j]).unwrap();
    if j == members.len() - 1 {
        assert(known_members(members, known) == prev.push(i));
        assert(prev.push(i)[prev.len() as int] == i);
    } else {
        assert(members.drop_last()[j] == members[j]);
        lemma_known_members(members.drop_last(), known, j);
        let k = choose|k: int| 0 <= k < prev.len() && prev[k] == i;
        match first_known(known, members.last()) {
            Some(l) => {
                assert(prev.push(l)[k] == i);
            },
            None => {},
        }
    }
}

proof fn lemma_text_trichotomy(a: Seq<char>, b: Seq<char>)
    ensures
        text_before(a, b) || a == b || text_before(b, a),
    decreases a.len(),
{
    if a.len() > 0 && b.len() > 0 && a[0] == b[0] {
        lemma_text_trichotomy(a.drop_first(), b.drop_first());
        if a.drop_first() == b.drop_first() {
            assert(a =~= seq![a[0]] + a.drop_first());
            assert(b =~= seq![b[0]] + b.drop_first());
        }
    } else if a.len() > 0 && b.len() > 0 {
    } else if a.len() == 0 && b.len() == 0 {
        assert(a =~= b);
    }
}

proof fn lemma_text_trans(a: Seq<char>, b: Seq<char>, c: Seq<char>)
    requires
        text_before(a, b),
        text_before(b, c),
    ensures
        text_before(a, c),
    decreases a.len(),
{
    if a.len() > 0 && a[0] == b[0] && b[0] == c[0] {
        lemma_text_trans(a.drop_first(), b.drop_first(), c.drop_first());
    }
}

/// Not being shown after is transitive: file order is a total preorder.
proof fn lemma_not_after_trans(a: MetaView, b: MetaView, c: MetaView)
    requires
        !shown_after(a, b),
        !shown_after(b, c),
    ensures
        !shown_after(a, c),
{
    lemma_text_trichotomy(a.file_path, b.file_path);
    lemma_text_trichotomy(b.file_path, c.file_path);
    if text_before(a.file_path, b.file_path) && text_before(b.file_path, c.file_path) {
        lemma_text_trans(a.file_path, b.file_path, c.file_path);
    }
    if text_before(a.file_path, c.file_path) {
        lemma_text_before_asym(a.file_path, c.file_path);
    }
}

proof fn lemma_sorted_everywhere(known: Seq<(ChunkId, ChunkMeta)>, s: Seq<int>, i: int, j: int)
    requires
        in_shown_order(known, s),
        0 <= i < j < s.len(),
    ensures
        !index_after(known, s[i], s[j]),
    decreases j - i,
{
    if j == i + 1 {
        assert(!index_after(known, s[i], s[i + 1]));
    } else {
        lemma_sorted_everywhere(known, s, i, j - 1);
        let k = j - 1;
        assert(!index_after(known, s[k], s[k + 1]));
        lemma_not_after_trans(known[s[i]].1@, known[s[k]].1@, known[s[j]].1@);
    }
}

/// The display order of a group's members: every member whose chunk is
/// known is shown; the shown chunks are in file order (file path, then first
/// byte), no chunk coming after a chunk shown later; and no chunk is shown
/// twice in a row.
pub proof fn law_shown_order(members: Seq<ChunkId>, known: Seq<(ChunkId, ChunkMeta)>)
    ensures
        forall|i: int, j: int|
            0 <= i < j < spec_shown_order(members, known).len() ==> !index_after(
                known,
                #[trigger] spec_shown_order(members, known)[i],
                #[trigger] spec_shown_order(members, known)[j],
            ),
        forall|k: int|
            0 <= k < spec_shown_order(members, known).len() - 1 ==> #[trigger] spec_shown_order(
                members,
                known,
            )[k] != spec_shown_order(members, known)[k + 1],
        forall|j: int|
            0 <= j < members.len() && #[trigger] first_known(known, members[j]) is Some
                ==> spec_shown_order(members, known).contains(first_known(known, members[j]).unwrap()),
{
    let kept = known_members(members, known);
    lemma_sort_shown(known, kept);
    lemma_dedup(known, sort_shown(known, kept));
    let r = spec_shown_order(members, known);
    assert forall|i: int, j: int| 0 <= i < j < r.len() implies !index_after(known, #[trigger] r[i], #[trigger] r[j]) by {
        lemma_sorted_everywhere(known, r, i, j);
    }
    assert forall|j: int|
        0 <= j < members.len() && #[trigger] first_known(known, members[j]) is Some implies spec_shown_order(
            members,
            known,
        ).contains(first_known(known, members[j]).unwrap()) by {
        lemma_known_members(members, known, j);
        let i = first_known(known, members[j]).unwrap();
        assert(sort_shown(known, kept).contains(i));
    }
}

/// Shown chunks come in file position order, whatever else they hold: of two
/// shown chunks of the same file, the earlier one starts no later in the file
/// (by first byte, not by where it ends), and of two shown chunks of different
/// files, the earlier one's path sorts first.
pub proof fn law_shown_in_file_position_order(members: Seq<ChunkId>, known: Seq<(ChunkId, ChunkMeta)>)
    ensures
        forall|i: int, j: int|
            0 <= i < j < spec_shown_order(members, known).len() ==> {
                let a = known[#[trigger] spec_shown_order(members, known)[i]].1@;
                let b = known[#[trigger] spec_shown_order(members, known)[j]].1@;
                &&& a.file_path == b.file_path ==> a.byte_start <= b.byte_start
                &&& a.file_path != b.file_path ==> text_before(a.file_path, b.file_path)
            },
{
    law_shown_order(members, known);
    let r = spec_shown_order(members, known);
    assert forall|i: int, j: int| 0 <= i < j < r.len() implies {
        let a = known[#[trigger] r[i]].1@;
        let b = known[#[trigger] r[j]].1@;
        &&& a.file_path == b.file_path ==> a.byte_start <= b.byte_start
        &&& a.file_path != b.file_path ==> text_before(a.file_path, b.file_path)
    } by {
        let a = known[r[i]].1@;
        let b = known[r[j]].1@;
        assert(!index_after(known, r[i], r[j]));
        assert(!shown_after(a, b));
        lemma_text_trichotomy(a.file_path, b.file_path);
    }
}

} // verus!
