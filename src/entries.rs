//! Sequences of keyed entries, and the maps they stand for when no key repeats.

use vstd::prelude::*;

verus! {

/// Each key occurs at most once in `s`.
pub open spec fn keys_unique<K, R>(s: Seq<(K, R)>) -> bool {
    forall|i: int, k: int|
        0 <= i < s.len() && 0 <= k < s.len() && i != k ==> #[trigger] s[i].0 != #[trigger] s[k].0
}

/// Some entry of `s` has the key `k`.
pub open spec fn has_key<K, R>(s: Seq<(K, R)>, k: K) -> bool {
    exists|i: int| 0 <= i < s.len() && s[i].0 == k
}

/// The map that a sequence of entries with unique keys stands for.
pub open spec fn map_of<K, R>(s: Seq<(K, R)>) -> Map<K, R> {
    Map::new(
        |k: K| has_key(s, k),
        |k: K| s[choose|i: int| 0 <= i < s.len() && s[i].0 == k].1,
    )
}

pub proof fn lemma_map_of_entry<K, R>(s: Seq<(K, R)>, i: int)
    requires
        keys_unique(s),
        0 <= i < s.len(),
    ensures
        map_of(s).contains_key(s[i].0),
        map_of(s)[s[i].0] == s[i].1,
{
    let k = s[i].0;
    assert(has_key(s, k));
    let c = choose|m: int| 0 <= m < s.len() && s[m].0 == k;
    assert(c == i);
}

pub proof fn lemma_map_of_push<K, R>(s: Seq<(K, R)>, k: K, v: R)
    requires
        keys_unique(s),
        !has_key(s, k),
    ensures
        keys_unique(s.push((k, v))),
        map_of(s.push((k, v))) == map_of(s).insert(k, v),
{
    let t = s.push((k, v));
    assert forall|i: int, m: int|
        0 <= i < t.len() && 0 <= m < t.len() && i != m implies #[trigger] t[i].0
            != #[trigger] t[m].0 by {
        if i < s.len() && m < s.len() {
            assert(t[i] == s[i] && t[m] == s[m]);
        } else if i < s.len() {
            assert(t[i] == s[i]);
        } else if m < s.len() {
            assert(t[m] == s[m]);
        }
    }
    assert forall|q: K| #[trigger]
        map_of(t).contains_key(q) == map_of(s).insert(k, v).contains_key(q) by {
        if has_key(s, q) {
            let i = choose|i: int| 0 <= i < s.len() && s[i].0 == q;
            assert(t[i] == s[i]);
        }
        if has_key(t, q) && q != k {
            let i = choose|i: int| 0 <= i < t.len() && t[i].0 == q;
            assert(i < s.len());
            assert(t[i] == s[i]);
        }
        if q == k {
            assert(t[s.len() as int].0 == k);
        }
    }
    assert forall|q: K| #[trigger] map_of(t).contains_key(q) implies map_of(t)[q] == map_of(
        s,
    ).insert(k, v)[q] by {
        let i = choose|i: int| 0 <= i < t.len() && t[i].0 == q;
        lemma_map_of_entry(t, i);
        if q != k {
            assert(i < s.len());
            assert(t[i] == s[i]);
            lemma_map_of_entry(s, i);
        } else {
            assert(i == s.len());
        }
    }
    assert(map_of(t) =~= map_of(s).insert(k, v));
}

pub proof fn lemma_map_of_remove<K, R>(s: Seq<(K, R)>, i: int)
    requires
        keys_unique(s),
        0 <= i < s.len(),
    ensures
        keys_unique(s.remove(i)),
        map_of(s.remove(i)) == map_of(s).remove(s[i].0),
{
    let t = s.remove(i);
    let k = s[i].0;
    assert forall|a: int| 0 <= a < t.len() implies #[trigger] t[a] == s[if a < i {
        a
    } else {
        a + 1
    }] by {}
    assert forall|a: int, b: int|
        0 <= a < t.len() && 0 <= b < t.len() && a != b implies #[trigger] t[a].0
            != #[trigger] t[b].0 by {
        let sa = if a < i { a } else { a + 1 };
        let sb = if b < i { b } else { b + 1 };
        assert(t[a] == s[sa]);
        assert(t[b] == s[sb]);
    }
    assert forall|q: K| #[trigger]
        map_of(t).contains_key(q) == map_of(s).remove(k).contains_key(q) by {
        if has_key(t, q) {
            let a = choose|a: int| 0 <= a < t.len() && t[a].0 == q;
            let sa = if a < i { a } else { a + 1 };
            assert(t[a] == s[sa]);
        }
        if has_key(s, q) && q != k {
            let b = choose|b: int| 0 <= b < s.len() && s[b].0 == q;
            assert(b != i);
            let a = if b < i { b } else { b - 1 };
            assert(t[a] == s[b]);
        }
    }
    assert forall|q: K| #[trigger] map_of(t).contains_key(q) implies map_of(t)[q] == map_of(
        s,
    ).remove(k)[q] by {
        let a = choose|a: int| 0 <= a < t.len() && t[a].0 == q;
        let sa = if a < i { a } else { a + 1 };
        assert(t[a] == s[sa]);
        lemma_map_of_entry(t, a);
        lemma_map_of_entry(s, sa);
    }
    assert(map_of(t) =~= map_of(s).remove(k));
}

} // verus!
