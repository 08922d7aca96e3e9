//! The canonical order of a group: a permutation of its positions, sorted by
//! rank, then text, then position as written (so the sort is stable).
use crate::text::{compare, lemma_lex_transitive, lemma_lex_trichotomy, lex_lt, strs_view};
use vstd::prelude::*;

verus! {

/// What an element is sorted by: a small rank first, then its text.
pub struct SortKey {
    pub rank: u8,
    pub text: String,
}

impl View for SortKey {
    type V = (u8, Seq<char>);

    open spec fn view(&self) -> (u8, Seq<char>) {
        (self.rank, self.text@)
    }
}

pub open spec fn keys_view(keys: Seq<SortKey>) -> Seq<(u8, Seq<char>)> {
    keys.map_values(|k: SortKey| k@)
}

pub open spec fn key_lt(a: (u8, Seq<char>), b: (u8, Seq<char>)) -> bool {
    a.0 < b.0 || (a.0 == b.0 && lex_lt(a.1, b.1))
}

/// Position `i` comes before position `j` in the canonical order.
pub open spec fn before(keys: Seq<(u8, Seq<char>)>, i: usize, j: usize) -> bool {
    key_lt(keys[i as int], keys[j as int]) || (keys[i as int] == keys[j as int] && i < j)
}

/// `p` lists each position of `keys` once, in canonical order.
pub open spec fn is_canonical_perm(keys: Seq<(u8, Seq<char>)>, p: Seq<usize>) -> bool {
    &&& keys.len() <= usize::MAX
    &&& p.len() == keys.len()
    &&& forall|k: int| 0 <= k < p.len() ==> p[k] < keys.len()
    &&& forall|i: usize| i < keys.len() ==> p.contains(i)
    &&& forall|a: int, b: int| 0 <= a < b < p.len() ==> before(keys, #[trigger] p[a], #[trigger] p[b])
}

/// The canonical order of `keys` (there is exactly one where `keys` fits
/// `usize`).
pub open spec fn canonical_perm(keys: Seq<(u8, Seq<char>)>) -> Seq<usize> {
    choose|p: Seq<usize>| is_canonical_perm(keys, p)
}

/// The texts of `keys`, in canonical order.
pub open spec fn sort_by_rank(keys: Seq<(u8, Seq<char>)>) -> Seq<Seq<char>> {
    permute(keys, canonical_perm(keys)).map_values(|k: (u8, Seq<char>)| k.1)
}

/// The elements of `s` in the order that `p` gives.
pub open spec fn permute<A>(s: Seq<A>, p: Seq<usize>) -> Seq<A> {
    Seq::new(p.len(), |k: int| s[p[k] as int])
}

/// The positions `0, 1, ..., n - 1` in order.
pub open spec fn identity(n: nat) -> Seq<usize> {
    Seq::new(n, |k: int| k as usize)
}

pub proof fn lemma_before_order(keys: Seq<(u8, Seq<char>)>, i: usize, j: usize, k: usize)
    requires
        i < keys.len(),
        j < keys.len(),
        k < keys.len(),
    ensures
        !before(keys, i, i),
        i != j ==> (before(keys, i, j) || before(keys, j, i)),
        !(before(keys, i, j) && before(keys, j, i)),
        before(keys, i, j) && before(keys, j, k) ==> before(keys, i, k),
{
    let (a, b, c) = (keys[i as int], keys[j as int], keys[k as int]);
    lemma_lex_trichotomy(a.1, a.1);
    lemma_lex_trichotomy(a.1, b.1);
    lemma_lex_trichotomy(b.1, c.1);
    lemma_lex_trichotomy(a.1, c.1);
    if lex_lt(a.1, b.1) && lex_lt(b.1, c.1) {
        lemma_lex_transitive(a.1, b.1, c.1);
    }
    if a.1 != b.1 || a.0 != b.0 {
        assert(a != b);
    }
}

/// Sorted sequences of positions that hold the same positions are equal.
proof fn lemma_sorted_unique(keys: Seq<(u8, Seq<char>)>, p: Seq<usize>, q: Seq<usize>)
    requires
        forall|k: int| 0 <= k < p.len() ==> p[k] < keys.len(),
        forall|k: int| 0 <= k < q.len() ==> q[k] < keys.len(),
        forall|a: int, b: int| 0 <= a < b < p.len() ==> before(keys, #[trigger] p[a], #[trigger] p[b]),
        forall|a: int, b: int| 0 <= a < b < q.len() ==> before(keys, #[trigger] q[a], #[trigger] q[b]),
        forall|x: usize| p.contains(x) <==> q.contains(x),
    ensures
        p == q,
    decreases p.len(),
{
    if p.len() == 0 {
        if q.len() > 0 {
            assert(q.contains(q[0]));
        }
        assert(p =~= q);
    } else if q.len() == 0 {
        assert(p.contains(p[0]));
    } else {
        assert(p.contains(p[0]));
        assert(q.contains(q[0]));
        let a = choose|a: int| 0 <= a < p.len() && p[a] == q[0];
        let b = choose|b: int| 0 <= b < q.len() && q[b] == p[0];
        lemma_before_order(keys, p[0], q[0], p[0]);
        if p[0] != q[0] {
            assert(a > 0 && b > 0);
            assert(before(keys, p[0], p[a]));
            assert(before(keys, q[0], q[b]));
        }
        let p1 = p.drop_first();
        let q1 = q.drop_first();
        assert forall|x: usize| p1.contains(x) <==> q1.contains(x) by {
            if p1.contains(x) {
                let i = choose|i: int| 0 <= i < p1.len() && p1[i] == x;
                assert(p[i + 1] == x);
                assert(before(keys, p[0], p[i + 1]));
                lemma_before_order(keys, p[0], x, x);
                assert(q.contains(x));
                let j = choose|j: int| 0 <= j < q.len() && q[j] == x;
                assert(j != 0);
                assert(q1[j - 1] == x);
            }
            if q1.contains(x) {
                let i = choose|i: int| 0 <= i < q1.len() && q1[i] == x;
                assert(q[i + 1] == x);
                assert(before(keys, q[0], q[i + 1]));
                lemma_before_order(keys, q[0], x, x);
                assert(p.contains(x));
                let j = choose|j: int| 0 <= j < p.len() && p[j] == x;
                assert(j != 0);
                assert(p1[j - 1] == x);
            }
        }
        assert forall|a: int, b: int| 0 <= a < b < p1.len() implies before(keys, #[trigger] p1[a], #[trigger] p1[b]) by {
            assert(p1[a] == p[a + 1] && p1[b] == p[b + 1]);
        }
        assert forall|a: int, b: int| 0 <= a < b < q1.len() implies before(keys, #[trigger] q1[a], #[trigger] q1[b]) by {
            assert(q1[a] == q[a + 1] && q1[b] == q[b + 1]);
        }
        lemma_sorted_unique(keys, p1, q1);
        assert(p =~= seq![p[0]] + p1);
        assert(q =~= seq![q[0]] + q1);
    }
}

/// There is only one canonical order: two canonical permutations of the same
/// keys are equal.
pub proof fn lemma_canonical_unique(keys: Seq<(u8, Seq<char>)>, p: Seq<usize>, q: Seq<usize>)
    requires
        is_canonical_perm(keys, p),
        is_canonical_perm(keys, q),
    ensures
        p == q,
{
    assert forall|x: usize| p.contains(x) <==> q.contains(x) by {
        if p.contains(x) {
            let i = choose|i: int| 0 <= i < p.len() && p[i] == x;
            assert(x < keys.len());
        }
        if q.contains(x) {
            let i = choose|i: int| 0 <= i < q.len() && q[i] == x;
            assert(x < keys.len());
        }
    }
    lemma_sorted_unique(keys, p, q);
}

/// Where the keys are already in order, the identity is the canonical order.
pub proof fn lemma_identity_canonical(keys: Seq<(u8, Seq<char>)>)
    requires
        keys.len() <= usize::MAX,
        forall|a: int, b: int| 0 <= a < b < keys.len() ==> !key_lt(#[trigger] keys[b], #[trigger] keys[a]),
    ensures
        is_canonical_perm(keys, identity(keys.len())),
{
    let p = identity(keys.len());
    assert forall|i: usize| i < keys.len() implies p.contains(i) by {
        assert(p[i as int] == i);
    }
    assert forall|a: int, b: int| 0 <= a < b < p.len() implies before(keys, #[trigger] p[a], #[trigger] p[b]) by {
        assert(p[a] == a as usize && p[b] == b as usize);
        lemma_before_order(keys, a as usize, b as usize, b as usize);
        lemma_lex_trichotomy(keys[a].1, keys[b].1);
    }
}

/// Permuting a sequence already in canonical order changes nothing.
pub proof fn lemma_canonical_idempotent(keys: Seq<(u8, Seq<char>)>, p: Seq<usize>, q: Seq<usize>)
    requires
        is_canonical_perm(keys, p),
        is_canonical_perm(permute(keys, p), q),
    ensures
        permute(permute(keys, p), q) == permute(keys, p),
{
    let s = permute(keys, p);
    assert forall|a: int, b: int| 0 <= a < b < s.len() implies !key_lt(#[trigger] s[b], #[trigger] s[a]) by {
        assert(before(keys, p[a], p[b]));
        lemma_before_order(keys, p[a], p[b], p[a]);
        lemma_lex_trichotomy(s[a].1, s[b].1);
    }
    lemma_identity_canonical(s);
    lemma_canonical_unique(s, q, identity(s.len()));
    assert forall|k: int| 0 <= k < s.len() implies permute(s, q)[k] == s[k] by {
        assert(q[k] == k as usize);
    }
    assert(permute(s, q) =~= s);
}

/// Positions `0..m` in canonical order, with `m` still to place.
pub open spec fn sorted_prefix(keys: Seq<(u8, Seq<char>)>, p: Seq<usize>, m: nat) -> bool {
    &&& p.len() == m
    &&& forall|k: int| 0 <= k < p.len() ==> p[k] < m
    &&& forall|x: usize| x < m ==> p.contains(x)
    &&& forall|a: int, b: int| 0 <= a < b < p.len() ==> before(keys, #[trigger] p[a], #[trigger] p[b])
}

/// Placing `m` at a position where everything before it is smaller and
/// everything after it larger extends the canonical prefix by one.
proof fn lemma_insert_sorted(keys: Seq<(u8, Seq<char>)>, p: Seq<usize>, m: usize, pos: int)
    requires
        m < keys.len(),
        sorted_prefix(keys, p, m as nat),
        0 <= pos <= p.len(),
        forall|a: int| pos <= a < p.len() ==> before(keys, m, #[trigger] p[a]),
        pos == 0 || !before(keys, m, p[pos - 1]),
    ensures
        sorted_prefix(keys, p.insert(pos, m), m as nat + 1),
{
    if pos > 0 {
        lemma_before_order(keys, m, p[pos - 1], m);
        assert forall|a: int| 0 <= a < pos implies before(keys, #[trigger] p[a], m) by {
            if a < pos - 1 {
                lemma_before_order(keys, p[a], p[pos - 1], m);
            }
        }
    }
    let q = p.insert(pos, m);
    assert forall|x: usize| x < m + 1 implies q.contains(x) by {
        if x == m {
            assert(q[pos] == m);
        } else {
            assert(p.contains(x));
            let k = choose|k: int| 0 <= k < p.len() && p[k] == x;
            if k < pos {
                assert(q[k] == x);
            } else {
                assert(q[k + 1] == x);
            }
        }
    }
    assert forall|a: int, b: int| 0 <= a < b < q.len() implies before(keys, #[trigger] q[a], #[trigger] q[b]) by {
        if b < pos {
            assert(q[a] == p[a] && q[b] == p[b]);
        } else if b == pos {
            assert(q[a] == p[a]);
        } else if a < pos {
            assert(q[a] == p[a] && q[b] == p[b - 1]);
        } else if a == pos {
            assert(q[b] == p[b - 1]);
        } else {
            assert(q[a] == p[a - 1] && q[b] == p[b - 1]);
        }
    }
}

spec fn insert_pos(keys: Seq<(u8, Seq<char>)>, p: Seq<usize>, m: usize) -> int
    decreases p.len(),
{
    if p.len() == 0 {
        0
    } else if before(keys, m, p.last()) {
        insert_pos(keys, p.drop_last(), m)
    } else {
        p.len() as int
    }
}

proof fn lemma_insert_pos(keys: Seq<(u8, Seq<char>)>, p: Seq<usize>, m: usize)
    requires
        m < keys.len(),
        forall|k: int| 0 <= k < p.len() ==> p[k] < keys.len(),
    ensures
        0 <= insert_pos(keys, p, m) <= p.len(),
        forall|a: int| insert_pos(keys, p, m) <= a < p.len() ==> before(keys, m, #[trigger] p[a]),
        insert_pos(keys, p, m) == 0 || !before(keys, m, p[insert_pos(keys, p, m) - 1]),
    decreases p.len(),
{
    if p.len() > 0 && before(keys, m, p.last()) {
        let d = p.drop_last();
        lemma_insert_pos(keys, d, m);
        assert forall|a: int| insert_pos(keys, p, m) <= a < p.len() implies before(keys, m, #[trigger] p[a]) by {
            if a < d.len() {
                assert(d[a] == p[a]);
            }
        }
    }
}

proof fn lemma_prefix_exists(keys: Seq<(u8, Seq<char>)>, m: nat)
    requires
        m <= keys.len(),
        keys.len() <= usize::MAX,
    ensures
        exists|p: Seq<usize>| #[trigger] sorted_prefix(keys, p, m),
    decreases m,
{
    if m == 0 {
        assert(sorted_prefix(keys, Seq::empty(), 0));
    } else {
        lemma_prefix_exists(keys, (m - 1) as nat);
        let p = choose|p: Seq<usize>| #[trigger] sorted_prefix(keys, p, (m - 1) as nat);
        let x = (m - 1) as usize;
        assert forall|k: int| 0 <= k < p.len() implies p[k] < keys.len() by {}
        lemma_insert_pos(keys, p, x);
        lemma_insert_sorted(keys, p, x, insert_pos(keys, p, x));
    }
}

/// Every key sequence that fits `usize` has a canonical order.
pub proof fn lemma_canonical_exists(keys: Seq<(u8, Seq<char>)>)
    requires
        keys.len() <= usize::MAX,
    ensures
        is_canonical_perm(keys, canonical_perm(keys)),
{
    lemma_prefix_exists(keys, keys.len());
    let p = choose|p: Seq<usize>| #[trigger] sorted_prefix(keys, p, keys.len());
    assert(is_canonical_perm(keys, p));
}

/// Sorting what is already sorted keeps it as it is.
pub proof fn lemma_sort_idempotent(keys: Seq<(u8, Seq<char>)>)
    requires
        keys.len() <= usize::MAX,
    ensures
        ({
            let s = permute(keys, canonical_perm(keys));
            permute(s, canonical_perm(s)) == s
        }),
{
    lemma_canonical_exists(keys);
    let s = permute(keys, canonical_perm(keys));
    lemma_canonical_exists(s);
    lemma_canonical_idempotent(keys, canonical_perm(keys), canonical_perm(s));
}

fn key_before(keys: &Vec<SortKey>, i: usize, j: usize) -> (r: bool)
    requires
        i < keys.len(),
        j < keys.len(),
    ensures
        r == before(keys_view(keys@), i, j),
{
    let ki = &keys[i];
    let kj = &keys[j];
    if ki.rank != kj.rank {
        ki.rank < kj.rank
    } else {
        let c = compare(ki.text.as_str(), kj.text.as_str());
        proof {
            lemma_lex_trichotomy(ki.text@, kj.text@);
        }
        c < 0 || (c == 0 && i < j)
    }
}

/// The canonical order of the keys' positions.
pub fn canonical_order(keys: &Vec<SortKey>) -> (p: Vec<usize>)
    ensures
        is_canonical_perm(keys_view(keys@), p@),
        p@ == canonical_perm(keys_view(keys@)),
{
    let ghost kv = keys_view(keys@);
    let n = keys.len();
    let mut out: Vec<usize> = Vec::new();
    let mut i: usize = 0;
    while i < n
        invariant
            n == keys.len(),
            kv == keys_view(keys@),
            i <= n,
            sorted_prefix(kv, out@, i as nat),
        decreases n - i,
    {
        let mut pos = out.len();
        while pos > 0 && key_before(keys, i, out[pos - 1])
            invariant
                n == keys.len(),
                kv == keys_view(keys@),
                i < n,
                pos <= out@.len(),
                forall|k: int| 0 <= k < out@.len() ==> out@[k] < i,
                forall|a: int| pos <= a < out@.len() ==> before(kv, i, #[trigger] out@[a]),
            decreases pos,
        {
            pos = pos - 1;
        }
        proof {
            lemma_insert_sorted(kv, out@, i, pos as int);
        }
        out.insert(pos, i);
        i = i + 1;
    }
    proof {
        assert(is_canonical_perm(kv, out@));
        lemma_canonical_unique(kv, out@, canonical_perm(kv));
    }
    out
}

/// The texts of the keys, in canonical order.
pub fn sorted_texts(keys: &Vec<SortKey>) -> (r: Vec<String>)
    ensures
        strs_view(r@) == sort_by_rank(keys_view(keys@)),
        r@.len() == keys@.len(),
{
    let p = canonical_order(keys);
    let ghost kv = keys_view(keys@);
    let mut r: Vec<String> = Vec::new();
    let mut k: usize = 0;
    while k < p.len()
        invariant
            k <= p.len(),
            kv == keys_view(keys@),
            is_canonical_perm(kv, p@),
            p@ == canonical_perm(kv),
            r@.len() == k,
            sort_by_rank(kv).len() == p@.len(),
            forall|j: int| 0 <= j < k ==> r@[j]@ == sort_by_rank(kv)[j],
        decreases p.len() - k,
    {
        let t = keys[p[k]].text.clone();
        assert(p@[k as int] < kv.len());
        assert(kv[p@[k as int] as int] == keys@[p@[k as int] as int]@);
        assert(sort_by_rank(kv)[k as int] == t@);
        r.push(t);
        k = k + 1;
    }
    assert(strs_view(r@) =~= sort_by_rank(kv));
    r
}

} // verus!
