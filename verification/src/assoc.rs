//! Association lists: sequences of key/value pairs with distinct keys, read
//! as finite maps. The graph and registry types store their tables this way.

use vstd::prelude::*;

verus! {

/// No two entries share a key.
pub open spec fn keys_unique<K, V>(s: Seq<(K, V)>) -> bool {
    forall|i: int, j: int| 0 <= i < s.len() && 0 <= j < s.len() && i != j ==> s[i].0 != s[j].0
}

/// Some entry carries key `k`.
pub open spec fn has_key<K, V>(s: Seq<(K, V)>, k: K) -> bool {
    exists|i: int| 0 <= i < s.len() && s[i].0 == k
}

/// The position of an entry with key `k`.
pub open spec fn key_pos<K, V>(s: Seq<(K, V)>, k: K) -> int {
    choose|i: int| 0 <= i < s.len() && s[i].0 == k
}

/// The map that an association list denotes.
pub open spec fn as_map<K, V>(s: Seq<(K, V)>) -> Map<K, V> {
    Map::new(|k: K| has_key(s, k), |k: K| s[key_pos(s, k)].1)
}

/// The value under `k`, or the empty sequence when `k` is absent.
pub open spec fn get_or_empty<K, T>(m: Map<K, Seq<T>>, k: K) -> Seq<T> {
    if m.contains_key(k) {
        m[k]
    } else {
        Seq::empty()
    }
}

pub proof fn lemma_as_map_index<K, V>(s: Seq<(K, V)>, i: int)
    requires
        keys_unique(s),
        0 <= i < s.len(),
    ensures
        as_map(s).contains_key(s[i].0),
        as_map(s)[s[i].0] == s[i].1,
{
    assert(has_key(s, s[i].0));
    let p = key_pos(s, s[i].0);
    assert(s[p].0 == s[i].0);
}

pub proof fn lemma_as_map_index_all<K, V>(s: Seq<(K, V)>)
    requires
        keys_unique(s),
    ensures
        forall|i: int|
            0 <= i < s.len() ==> #[trigger] as_map(s).contains_key(s[i].0) && as_map(s)[s[i].0]
                == s[i].1,
{
    assert forall|i: int| 0 <= i < s.len() implies #[trigger] as_map(s).contains_key(s[i].0)
        && as_map(s)[s[i].0] == s[i].1 by {
        lemma_as_map_index(s, i);
    }
}

pub proof fn lemma_as_map_push<K, V>(s: Seq<(K, V)>, k: K, v: V)
    requires
        keys_unique(s),
        !has_key(s, k),
    ensures
        keys_unique(s.push((k, v))),
        as_map(s.push((k, v))) == as_map(s).insert(k, v),
{
    let t = s.push((k, v));
    assert(keys_unique(t)) by {
        assert forall|i: int, j: int|
            0 <= i < t.len() && 0 <= j < t.len() && i != j implies t[i].0 != t[j].0 by {
            if i == s.len() {
                assert(s[j].0 == t[j].0);
            } else if j == s.len() {
                assert(s[i].0 == t[i].0);
            }
        }
    }
    lemma_as_map_index_all(s);
    lemma_as_map_index_all(t);
    assert forall|q: K| #[trigger] as_map(t).contains_key(q) <==> as_map(s).insert(k, v).contains_key(
        q,
    ) by {
        if as_map(t).contains_key(q) {
            let i = key_pos(t, q);
            if i < s.len() {
                assert(s[i] == t[i]);
            }
        }
        if as_map(s).contains_key(q) {
            let i = key_pos(s, q);
            assert(t[i] == s[i]);
        }
        if q == k {
            assert(t[s.len() as int].0 == k);
        }
    }
    assert forall|q: K| #[trigger] as_map(t).contains_key(q) implies as_map(t)[q] == as_map(
        s,
    ).insert(k, v)[q] by {
        let i = key_pos(t, q);
        if i < s.len() {
            assert(s[i] == t[i]);
        }
    }
    assert(as_map(t) =~= as_map(s).insert(k, v));
}

pub proof fn lemma_as_map_remove<K, V>(s: Seq<(K, V)>, i: int)
    requires
        keys_unique(s),
        0 <= i < s.len(),
    ensures
        keys_unique(s.remove(i)),
        as_map(s.remove(i)) == as_map(s).remove(s[i].0),
{
    let t = s.remove(i);
    assert forall|a: int| 0 <= a < t.len() implies #[trigger] t[a] == s[if a < i {
        a
    } else {
        a + 1
    }] by {}
    assert(keys_unique(t)) by {
        assert forall|a: int, b: int|
            0 <= a < t.len() && 0 <= b < t.len() && a != b implies t[a].0 != t[b].0 by {
            let a1 = if a < i {
                a
            } else {
                a + 1
            };
            let b1 = if b < i {
                b
            } else {
                b + 1
            };
            assert(t[a] == s[a1]);
            assert(t[b] == s[b1]);
        }
    }
    lemma_as_map_index_all(s);
    lemma_as_map_index_all(t);
    let k = s[i].0;
    assert forall|q: K| #[trigger] as_map(t).contains_key(q) <==> as_map(s).remove(k).contains_key(
        q,
    ) by {
        if as_map(t).contains_key(q) {
            let a = key_pos(t, q);
            let a1 = if a < i {
                a
            } else {
                a + 1
            };
            assert(t[a] == s[a1]);
        }
        if as_map(s).contains_key(q) && q != k {
            let a = key_pos(s, q);
            assert(a != i);
            let a1 = if a < i {
                a
            } else {
                a - 1
            };
            assert(t[a1] == s[a]);
        }
    }
    assert forall|q: K| #[trigger] as_map(t).contains_key(q) implies as_map(t)[q] == as_map(
        s,
    ).remove(k)[q] by {
        let a = key_pos(t, q);
        let a1 = if a < i {
            a
        } else {
            a + 1
        };
        assert(t[a] == s[a1]);
    }
    assert(as_map(t) =~= as_map(s).remove(k));
}

/// Replacing every value by its image under `f` maps the denoted map the same way.
pub proof fn lemma_as_map_map_values<K, V, W>(s: Seq<(K, V)>, t: Seq<(K, W)>, f: spec_fn(V) -> W)
    requires
        keys_unique(s),
        t.len() == s.len(),
        forall|i: int| 0 <= i < s.len() ==> #[trigger] t[i] == (s[i].0, f(s[i].1)),
    ensures
        keys_unique(t),
        as_map(t) == as_map(s).map_values(f),
{
    assert(keys_unique(t)) by {
        assert forall|a: int, b: int|
            0 <= a < t.len() && 0 <= b < t.len() && a != b implies t[a].0 != t[b].0 by {
            assert(t[a] == (s[a].0, f(s[a].1)));
            assert(t[b] == (s[b].0, f(s[b].1)));
        }
    }
    lemma_as_map_index_all(s);
    lemma_as_map_index_all(t);
    assert forall|q: K| #[trigger] as_map(t).contains_key(q) <==> as_map(s).contains_key(q) by {
        if as_map(t).contains_key(q) {
            let a = key_pos(t, q);
            assert(t[a] == (s[a].0, f(s[a].1)));
        }
        if as_map(s).contains_key(q) {
            let a = key_pos(s, q);
            assert(t[a] == (s[a].0, f(s[a].1)));
        }
    }
    assert forall|q: K| #[trigger] as_map(t).contains_key(q) implies as_map(t)[q] == f(
        as_map(s)[q],
    ) by {
        let a = key_pos(t, q);
        assert(t[a] == (s[a].0, f(s[a].1)));
    }
    assert(as_map(t) =~= as_map(s).map_values(f));
}

pub proof fn lemma_empty_as_map<K, V>(s: Seq<(K, V)>)
    requires
        s.len() == 0,
    ensures
        keys_unique(s),
        as_map(s) == Map::<K, V>::empty(),
{
    assert(as_map(s) =~= Map::<K, V>::empty());
}


/// A list with distinct keys denotes a finite map with as many keys as entries.
pub proof fn lemma_as_map_len<K, V>(s: Seq<(K, V)>)
    requires
        keys_unique(s),
    ensures
        as_map(s).dom().finite(),
        as_map(s).len() == s.len(),
    decreases s.len(),
{
    if s.len() == 0 {
        lemma_empty_as_map(s);
    } else {
        let t = s.drop_last();
        assert(keys_unique(t)) by {
            assert forall|a: int, b: int|
                0 <= a < t.len() && 0 <= b < t.len() && a != b implies t[a].0 != t[b].0 by {
                assert(t[a] == s[a]);
                assert(t[b] == s[b]);
            }
        }
        lemma_as_map_len(t);
        let k = s.last().0;
        assert(!has_key(t, k)) by {
            if has_key(t, k) {
                let a = choose|a: int| 0 <= a < t.len() && t[a].0 == k;
                assert(s[a].0 == k);
            }
        }
        assert(s == t.push(s.last()));
        lemma_as_map_push(t, k, s.last().1);
    }
}

/// `e` is made by `f` from some entry of `m`.
pub open spec fn from_entry<K, V, E>(m: Map<K, V>, f: spec_fn(K, V) -> E, e: E) -> bool {
    exists|k: K| #[trigger] m.contains_key(k) && e == f(k, m[k])
}

/// Some item of `s` is made by `f` from the entry of `m` under `k`.
pub open spec fn listed<K, V, E>(s: Seq<E>, m: Map<K, V>, f: spec_fn(K, V) -> E, k: K) -> bool {
    exists|i: int| 0 <= i < s.len() && #[trigger] s[i] == f(k, m[k])
}

/// `s` lists one item per entry of `m`, made by `f` from the entry.
pub open spec fn lists_exactly<K, V, E>(s: Seq<E>, m: Map<K, V>, f: spec_fn(K, V) -> E) -> bool {
    &&& s.len() == m.len()
    &&& forall|i: int| 0 <= i < s.len() ==> from_entry(m, f, #[trigger] s[i])
    &&& forall|k: K| #[trigger] m.contains_key(k) ==> listed(s, m, f, k)
}

/// An item per entry of an association list lists the map it denotes.
pub proof fn lemma_lists_exactly<K, V, E>(s: Seq<(K, V)>, out: Seq<E>, f: spec_fn(K, V) -> E)
    requires
        keys_unique(s),
        out.len() == s.len(),
        forall|i: int| 0 <= i < s.len() ==> #[trigger] out[i] == f(s[i].0, s[i].1),
    ensures
        lists_exactly(out, as_map(s), f),
{
    lemma_as_map_len(s);
    lemma_as_map_index_all(s);
    assert forall|i: int| 0 <= i < out.len() implies from_entry(as_map(s), f, #[trigger] out[i]) by {
        assert(as_map(s).contains_key(s[i].0));
        assert(out[i] == f(s[i].0, s[i].1));
    }
    assert forall|k: K| #[trigger] as_map(s).contains_key(k) implies listed(out, as_map(s), f, k) by {
        let j = choose|j: int| 0 <= j < s.len() && s[j].0 == k;
        assert(as_map(s).contains_key(s[j].0));
        assert(out[j] == f(s[j].0, s[j].1));
    }
}

} // verus!
