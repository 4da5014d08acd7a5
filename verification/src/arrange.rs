//! Stable ordering of the rows that the guild pages list, by a key made of
//! an integer and a text compared the way `str` compares.

use vstd::prelude::*;

verus! {

/// `a` sorts strictly before `b`: characters compare by code point and a
/// proper prefix sorts before its extensions (the order of `str`).
pub open spec fn text_lt(a: Seq<char>, b: Seq<char>) -> bool
    decreases a.len(),
{
    if a.len() == 0 {
        b.len() > 0
    } else if b.len() == 0 {
        false
    } else if a[0] != b[0] {
        (a[0] as int) < (b[0] as int)
    } else {
        text_lt(a.drop_first(), b.drop_first())
    }
}

/// A sort key: an integer first, then a text.
pub type SortKey = (i64, Seq<char>);

/// `a` sorts strictly before `b`.
pub open spec fn key_lt(a: SortKey, b: SortKey) -> bool {
    a.0 < b.0 || (a.0 == b.0 && text_lt(a.1, b.1))
}

/// The mathematical value of each key.
pub open spec fn keys_view(v: Seq<(i64, Vec<char>)>) -> Seq<SortKey> {
    v.map_values(|e: (i64, Vec<char>)| (e.0, e.1@))
}

/// `p` lists the positions `0..k.len()`, each once, so that the keys never
/// decrease and equal keys keep their original relative order.
pub open spec fn is_stable_order(k: Seq<SortKey>, p: Seq<usize>) -> bool {
    &&& p.len() == k.len()
    &&& forall|i: int| 0 <= i < p.len() ==> #[trigger] p[i] < k.len()
    &&& forall|x: usize| x < k.len() ==> #[trigger] p.contains(x)
    &&& forall|i: int, j: int| #![trigger p[i], p[j]] 0 <= i < j < p.len() ==> p[i] != p[j]
    &&& forall|i: int, j: int| #![trigger p[i], p[j]] 0 <= i < j < p.len() ==> !key_lt(k[p[j] as int], k[p[i] as int])
    &&& forall|i: int, j: int| #![trigger p[i], p[j]]
        0 <= i < j < p.len() && k[p[i] as int] == k[p[j] as int] ==> p[i] < p[j]
}

/// No text sorts before itself.
pub proof fn lemma_text_lt_irreflexive(a: Seq<char>)
    ensures
        !text_lt(a, a),
    decreases a.len(),
{
    if a.len() > 0 {
        lemma_text_lt_irreflexive(a.drop_first());
    }
}

/// The text order is transitive.
pub proof fn lemma_text_lt_transitive(a: Seq<char>, b: Seq<char>, c: Seq<char>)
    requires
        text_lt(a, b),
        text_lt(b, c),
    ensures
        text_lt(a, c),
    decreases a.len(),
{
    if a.len() > 0 && b.len() > 0 && c.len() > 0 {
        if a[0] == b[0] && b[0] == c[0] {
            lemma_text_lt_transitive(a.drop_first(), b.drop_first(), c.drop_first());
        }
    }
}

/// Of two different texts, one sorts before the other.
pub proof fn lemma_text_lt_total(a: Seq<char>, b: Seq<char>)
    requires
        a != b,
    ensures
        text_lt(a, b) || text_lt(b, a),
    decreases a.len(),
{
    if a.len() > 0 && b.len() > 0 {
        if a[0] == b[0] {
            if a.drop_first() == b.drop_first() {
                assert(a =~= seq![a[0]] + a.drop_first());
                assert(b =~= seq![b[0]] + b.drop_first());
            }
            lemma_text_lt_total(a.drop_first(), b.drop_first());
        }
    } else if a.len() == 0 && b.len() == 0 {
        assert(a =~= b);
    }
}

/// No key sorts before itself.
pub proof fn lemma_key_lt_irreflexive(a: SortKey)
    ensures
        !key_lt(a, a),
{
    lemma_text_lt_irreflexive(a.1);
}

/// The key order is transitive.
pub proof fn lemma_key_lt_transitive(a: SortKey, b: SortKey, c: SortKey)
    requires
        key_lt(a, b),
        key_lt(b, c),
    ensures
        key_lt(a, c),
{
    if a.0 == b.0 && b.0 == c.0 {
        lemma_text_lt_transitive(a.1, b.1, c.1);
    }
}

/// Of two different keys, one sorts before the other.
pub proof fn lemma_key_lt_total(a: SortKey, b: SortKey)
    requires
        a != b,
    ensures
        key_lt(a, b) || key_lt(b, a),
{
    if a.0 == b.0 {
        lemma_text_lt_total(a.1, b.1);
    }
}

/// Whether text `a` sorts strictly before text `b`.
pub fn text_less(a: &Vec<char>, b: &Vec<char>) -> (r: bool)
    ensures
        r == text_lt(a@, b@),
{
    let mut j: usize = 0;
    assert(a@.skip(0) =~= a@ && b@.skip(0) =~= b@);
    while j < a.len() && j < b.len() && a[j] == b[j]
        invariant
            j <= a@.len(),
            j <= b@.len(),
            text_lt(a@, b@) == text_lt(a@.skip(j as int), b@.skip(j as int)),
        decreases a@.len() - j,
    {
        assert(a@.skip(j as int).drop_first() =~= a@.skip(j + 1));
        assert(b@.skip(j as int).drop_first() =~= b@.skip(j + 1));
        j += 1;
    }
    if j == a.len() {
        j < b.len()
    } else if j == b.len() {
        false
    } else {
        assert(a@.skip(j as int)[0] == a@[j as int]);
        assert(b@.skip(j as int)[0] == b@[j as int]);
        a[j] < b[j]
    }
}

/// Whether key `a` sorts strictly before key `b`.
pub fn key_less(a: &(i64, Vec<char>), b: &(i64, Vec<char>)) -> (r: bool)
    ensures
        r == key_lt((a.0, a.1@), (b.0, b.1@)),
{
    a.0 < b.0 || (a.0 == b.0 && text_less(&a.1, &b.1))
}

/// The stable sorting order of `keys`: the positions of the keys, listed
/// so that the keys never decrease and equal keys keep their order.
pub fn sort_order(keys: &Vec<(i64, Vec<char>)>) -> (p: Vec<usize>)
    ensures
        is_stable_order(keys_view(keys@), p@),
{
    let ghost k = keys_view(keys@);
    let n = keys.len();
    let mut p: Vec<usize> = Vec::new();
    let mut i: usize = 0;
    while i < n
        invariant
            n == keys@.len(),
            k == keys_view(keys@),
            i <= n,
            p@.len() == i,
            forall|a: int| 0 <= a < p@.len() ==> #[trigger] p@[a] < i,
            forall|x: usize| x < i ==> #[trigger] p@.contains(x),
            forall|a: int, b: int| #![trigger p@[a], p@[b]] 0 <= a < b < p@.len() ==> p@[a] != p@[b],
            forall|a: int, b: int| #![trigger p@[a], p@[b]]
                0 <= a < b < p@.len() ==> !key_lt(k[p@[b] as int], k[p@[a] as int]),
            forall|a: int, b: int| #![trigger p@[a], p@[b]]
                0 <= a < b < p@.len() && k[p@[a] as int] == k[p@[b] as int] ==> p@[a] < p@[b],
        decreases n - i,
    {
        let mut pos: usize = 0;
        while pos < p.len() && !key_less(&keys[i], &keys[p[pos]])
            invariant
                n == keys@.len(),
                k == keys_view(keys@),
                i < n,
                pos <= p@.len(),
                forall|a: int| 0 <= a < p@.len() ==> #[trigger] p@[a] < i,
                forall|a: int| 0 <= a < pos ==> !key_lt(k[i as int], k[#[trigger] p@[a] as int]),
            decreases p@.len() - pos,
        {
            pos += 1;
        }
        let ghost old_p = p@;
        let ghost ki = k[i as int];
        proof {
            if pos < old_p.len() {
                assert(key_lt(ki, k[old_p[pos as int] as int]));
            }
        }
        p.insert(pos, i);
        proof {
            let q = p@;
            assert(q == old_p.insert(pos as int, i));
            assert forall|a: int| 0 <= a < q.len() implies #[trigger] q[a] < i + 1 by {
                if a < pos {
                    assert(q[a] == old_p[a]);
                } else if a > pos {
                    assert(q[a] == old_p[a - 1]);
                }
            }
            assert forall|x: usize| x < i + 1 implies #[trigger] q.contains(x) by {
                if x == i {
                    assert(q[pos as int] == i);
                } else {
                    assert(old_p.contains(x));
                    let c = choose|c: int| 0 <= c < old_p.len() && old_p[c] == x;
                    if c < pos {
                        assert(q[c] == old_p[c]);
                    } else {
                        assert(q[c + 1] == old_p[c]);
                    }
                }
            }
            assert forall|a: int, b: int| #![trigger q[a], q[b]] 0 <= a < b < q.len() implies
                q[a] != q[b]
                && !key_lt(k[q[b] as int], k[q[a] as int])
                && (k[q[a] as int] == k[q[b] as int] ==> q[a] < q[b]) by {
                if b < pos {
                    assert(q[a] == old_p[a] && q[b] == old_p[b]);
                } else if b == pos {
                    assert(q[a] == old_p[a]);
                    assert(old_p[a] < i);
                } else if a == pos {
                    assert(q[b] == old_p[b - 1]);
                    assert(old_p[b - 1] < i);
                    let first = k[old_p[pos as int] as int];
                    let later = k[old_p[b - 1] as int];
                    if b - 1 > pos {
                        assert(!key_lt(later, first));
                    }
                    lemma_key_lt_irreflexive(ki);
                    if key_lt(later, ki) {
                        lemma_key_lt_transitive(later, ki, first);
                        lemma_key_lt_irreflexive(first);
                    }
                    if later == ki {
                        if b - 1 == pos {
                            lemma_key_lt_irreflexive(first);
                        }
                    }
                } else if a < pos {
                    assert(q[a] == old_p[a] && q[b] == old_p[b - 1]);
                } else {
                    assert(q[a] == old_p[a - 1] && q[b] == old_p[b - 1]);
                }
            }
        }
        i += 1;
    }
    p
}

/// There is only one stable order of a list of keys, so a listing sorted
/// this way does not depend on how the sort was carried out.
pub proof fn law_stable_order_is_unique(k: Seq<SortKey>, p: Seq<usize>, q: Seq<usize>)
    requires
        is_stable_order(k, p),
        is_stable_order(k, q),
    ensures
        p == q,
{
    if p != q {
        assert(!(p =~= q));
        let d = choose|d: int| 0 <= d < p.len() && p[d] != q[d];
        lemma_first_difference(p, q, d);
        let i = choose|i: int| 0 <= i < p.len() && p[i] != q[i] && forall|t: int| 0 <= t < i ==> p[t] == q[t];
        let x = p[i];
        let y = q[i];
        assert(p.contains(y));
        let j = choose|j: int| 0 <= j < p.len() && p[j] == y;
        assert(q.contains(x));
        let jq = choose|j: int| 0 <= j < q.len() && q[j] == x;
        if j < i {
            assert(q[j] == y);
        }
        if jq < i {
            assert(p[jq] == x);
        }
        assert(j != i);
        assert(jq != i);
        assert(!key_lt(k[y as int], k[x as int]));
        assert(!key_lt(k[x as int], k[y as int]));
        if k[x as int] != k[y as int] {
            lemma_key_lt_total(k[x as int], k[y as int]);
        }
        assert(x < y);
        assert(y < x);
    }
}

/// Two different sequences of one length have a first position where they differ.
proof fn lemma_first_difference(p: Seq<usize>, q: Seq<usize>, d: int)
    requires
        p.len() == q.len(),
        0 <= d < p.len(),
        p[d] != q[d],
    ensures
        exists|i: int| 0 <= i < p.len() && p[i] != q[i] && forall|t: int| 0 <= t < i ==> p[t] == q[t],
    decreases d,
{
    if forall|t: int| 0 <= t < d ==> p[t] == q[t] {
    } else {
        let e = choose|t: int| 0 <= t < d && p[t] != q[t];
        lemma_first_difference(p, q, e);
    }
}

} // verus!
