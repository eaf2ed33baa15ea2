//! Ordering texts: lexicographic order by character code, which for UTF-8
//! text is the order of `String`'s `Ord`, and a stable sort of keyed items.

use vstd::prelude::*;
use crate::text::chars_of;

verus! {

/// Whether `a` comes strictly before `b`: at the first differing position
/// its character has the lower code, or it is a proper prefix of `b`.
pub open spec fn text_lt(a: Seq<char>, b: Seq<char>) -> bool
    decreases a.len(),
{
    if a.len() == 0 {
        b.len() > 0
    } else if b.len() == 0 {
        false
    } else if a[0] != b[0] {
        (a[0] as u32) < (b[0] as u32)
    } else {
        text_lt(a.drop_first(), b.drop_first())
    }
}

/// No text comes before itself.
pub proof fn lemma_text_lt_irreflexive(a: Seq<char>)
    ensures
        !text_lt(a, a),
    decreases a.len(),
{
    if a.len() > 0 {
        lemma_text_lt_irreflexive(a.drop_first());
    }
}

/// The order is transitive.
pub proof fn lemma_text_lt_transitive(a: Seq<char>, b: Seq<char>, c: Seq<char>)
    requires
        text_lt(a, b),
        text_lt(b, c),
    ensures
        text_lt(a, c),
    decreases a.len(),
{
    if a.len() > 0 && b.len() > 0 && c.len() > 0 {
        if a[0] == b[0] && b[0] == c[0] {
            lemma_text_lt_transitive(a.drop_first(), b.drop_first(), c.drop_first());
        }
    }
}

/// Whether `a` comes strictly before `b`.
pub fn text_less(a: &str, b: &str) -> (r: bool)
    ensures
        r == text_lt(a@, b@),
{
    let x = chars_of(a);
    let y = chars_of(b);
    let mut i: usize = 0;
    assert(a@.skip(0) =~= a@);
    assert(b@.skip(0) =~= b@);
    while i < x.len() && i < y.len() && x[i] == y[i]
        invariant
            x@ == a@,
            y@ == b@,
            i <= x.len(),
            i <= y.len(),
            text_lt(a@, b@) == text_lt(a@.skip(i as int), b@.skip(i as int)),
        decreases x.len() - i,
    {
        proof {
            assert(a@.skip(i as int).drop_first() =~= a@.skip(i + 1));
            assert(b@.skip(i as int).drop_first() =~= b@.skip(i + 1));
        }
        i = i + 1;
    }
    if i == x.len() {
        i < y.len()
    } else if i == y.len() {
        false
    } else {
        assert(a@.skip(i as int)[0] == x@[i as int]);
        assert(b@.skip(i as int)[0] == y@[i as int]);
        (x[i] as u32) < (y[i] as u32)
    }
}

/// Items whose keys never decrease.
pub open spec fn sorted_by_key<T>(s: Seq<(Seq<char>, T)>) -> bool {
    forall|i: int, j: int| 0 <= i < j < s.len() ==> !text_lt(#[trigger] s[j].0, #[trigger] s[i].0)
}

/// The views of keyed positions.
pub open spec fn keyed_view(s: Seq<(String, usize)>) -> Seq<(Seq<char>, usize)> {
    s.map_values(|e: (String, usize)| (e.0@, e.1))
}

proof fn lemma_insert_sorted(s: Seq<(Seq<char>, usize)>, p: int, x: (Seq<char>, usize))
    requires
        sorted_by_key(s),
        0 <= p <= s.len(),
        forall|k: int| 0 <= k < p ==> !text_lt(x.0, #[trigger] s[k].0),
        p < s.len() ==> text_lt(x.0, s[p].0),
    ensures
        sorted_by_key(s.insert(p, x)),
{
    let t = s.insert(p, x);
    assert forall|i: int, j: int| 0 <= i < j < t.len() implies !text_lt(#[trigger] t[j].0, #[trigger] t[i].0) by {
        if j < p {
            assert(t[i] == s[i] && t[j] == s[j]);
        } else if j == p {
            assert(t[j] == x && t[i] == s[i]);
        } else if i == p {
            assert(t[i] == x && t[j] == s[j - 1]);
            if text_lt(s[j - 1].0, x.0) {
                lemma_text_lt_transitive(s[j - 1].0, x.0, s[p].0);
                if j - 1 == p {
                    lemma_text_lt_irreflexive(s[p].0);
                }
            }
        } else if i < p {
            assert(t[i] == s[i] && t[j] == s[j - 1]);
        } else {
            assert(t[i] == s[i - 1] && t[j] == s[j - 1]);
        }
    }
}

/// `perm` lists positions of `b`, each once, and `a` is `b` read in that
/// order.
pub open spec fn permuted_by<A>(a: Seq<A>, b: Seq<A>, perm: Seq<int>) -> bool {
    &&& perm.len() == a.len()
    &&& a.len() == b.len()
    &&& forall|j: int| 0 <= j < a.len() ==> 0 <= #[trigger] perm[j] < b.len() && a[j] == b[perm[j]]
    &&& forall|j: int, k: int| 0 <= j < k < a.len() ==> #[trigger] perm[j] != #[trigger] perm[k]
    &&& forall|q: int| 0 <= q < b.len() ==> #[trigger] covers(perm, a.len() as int, q)
}

/// Some of the first `n` entries of `perm` is `q`.
pub open spec fn covers(perm: Seq<int>, n: int, q: int) -> bool {
    exists|j: int| 0 <= j < n && #[trigger] perm[j] == q
}

/// `a` holds the items of `b`, each once, in some order.
pub open spec fn permutes<A>(a: Seq<A>, b: Seq<A>) -> bool {
    exists|perm: Seq<int>| permuted_by(a, b, perm)
}

/// Sorts keyed items by key, keeping items with equal keys in their
/// order: the result holds the same items, keys never decreasing.
pub fn sort_by_text(items: Vec<(String, usize)>) -> (r: Vec<(String, usize)>)
    ensures
        sorted_by_key(keyed_view(r@)),
        permutes(keyed_view(r@), keyed_view(items@)),
{
    let ghost iv = keyed_view(items@);
    let ghost mut perm: Seq<int> = Seq::empty();
    let mut out: Vec<(String, usize)> = Vec::new();
    let mut i: usize = 0;
    while i < items.len()
        invariant
            i <= items@.len(),
            iv == keyed_view(items@),
            sorted_by_key(keyed_view(out@)),
            perm.len() == out@.len(),
            out@.len() == i,
            forall|j: int| 0 <= j < i ==> 0 <= #[trigger] perm[j] < i && keyed_view(out@)[j] == iv[perm[j]],
            forall|j: int, k: int| 0 <= j < k < i ==> #[trigger] perm[j] != #[trigger] perm[k],
            forall|q: int| 0 <= q < i ==> #[trigger] covers(perm, i as int, q),
        decreases items@.len() - i,
    {
        let key = &items[i].0;
        let mut p: usize = 0;
        while p < out.len() && !text_less(key.as_str(), out[p].0.as_str())
            invariant
                p <= out@.len(),
                forall|k: int| 0 <= k < p ==> !text_lt(key@, #[trigger] keyed_view(out@)[k].0),
            decreases out@.len() - p,
        {
            p = p + 1;
        }
        let ghost before = keyed_view(out@);
        let ghost old_perm = perm;
        let ghost x = (key@, items@[i as int].1);
        proof {
            lemma_insert_sorted(before, p as int, x);
        }
        out.insert(p, (key.clone(), items[i].1));
        proof {
            assert(keyed_view(out@) =~= before.insert(p as int, x));
            perm = old_perm.insert(p as int, i as int);
            assert forall|j: int| 0 <= j < i + 1 implies 0 <= #[trigger] perm[j] < i + 1 && keyed_view(out@)[j] == iv[perm[j]] by {
                if j < p {
                    assert(perm[j] == old_perm[j]);
                } else if j == p {
                    assert(perm[j] == i);
                } else {
                    assert(perm[j] == old_perm[j - 1]);
                }
            }
            assert forall|j: int, k: int| 0 <= j < k < i + 1 implies #[trigger] perm[j] != #[trigger] perm[k] by {
                if k < p {
                    assert(perm[j] == old_perm[j] && perm[k] == old_perm[k]);
                } else if k == p {
                    assert(perm[j] == old_perm[j] && old_perm[j] < i);
                } else if j == p {
                    assert(perm[k] == old_perm[k - 1] && old_perm[k - 1] < i);
                } else if j < p {
                    assert(perm[j] == old_perm[j] && perm[k] == old_perm[k - 1]);
                } else {
                    assert(perm[j] == old_perm[j - 1] && perm[k] == old_perm[k - 1]);
                }
            }
            assert forall|q: int| 0 <= q < i + 1 implies #[trigger] covers(perm, i + 1, q) by {
                if q == i {
                    assert(perm[p as int] == q);
                } else {
                    assert(covers(old_perm, i as int, q));
                    let j0 = choose|j: int| 0 <= j < i && #[trigger] old_perm[j] == q;
                    if j0 < p {
                        assert(perm[j0] == q);
                    } else {
                        assert(perm[j0 + 1] == q);
                    }
                }
            }
        }
        i = i + 1;
    }
    proof {
        assert(permuted_by(keyed_view(out@), iv, perm));
    }
    out
}

} // verus!
