//! Association sequences: pairs keyed by text, each key at most once, kept in
//! the order in which the keys first arrived.
use vstd::prelude::*;

verus! {

pub open spec fn unique_keys<V>(s: Seq<(Seq<char>, V)>) -> bool {
    forall|i: int, j: int|
        0 <= i < s.len() && 0 <= j < s.len() && i != j ==> #[trigger] s[i].0 != #[trigger] s[j].0
}

pub open spec fn has_key<V>(s: Seq<(Seq<char>, V)>, k: Seq<char>) -> bool {
    exists|i: int| 0 <= i < s.len() && #[trigger] s[i].0 == k
}

pub open spec fn key_index<V>(s: Seq<(Seq<char>, V)>, k: Seq<char>) -> int {
    choose|i: int| 0 <= i < s.len() && #[trigger] s[i].0 == k
}

/// The value stored under `k`, if any.
pub open spec fn lookup<V>(s: Seq<(Seq<char>, V)>, k: Seq<char>) -> Option<V> {
    if has_key(s, k) {
        Some(s[key_index(s, k)].1)
    } else {
        None
    }
}

/// Stores `v` under `k`: in place when `k` is there, else at the end.
pub open spec fn put<V>(s: Seq<(Seq<char>, V)>, k: Seq<char>, v: V) -> Seq<(Seq<char>, V)> {
    if has_key(s, k) {
        s.update(key_index(s, k), (k, v))
    } else {
        s.push((k, v))
    }
}

/// Takes `k` out, keeping the order of the rest.
pub open spec fn remove_key<V>(s: Seq<(Seq<char>, V)>, k: Seq<char>) -> Seq<(Seq<char>, V)> {
    if has_key(s, k) {
        s.remove(key_index(s, k))
    } else {
        s
    }
}

pub open spec fn keys_of<V>(s: Seq<(Seq<char>, V)>) -> Seq<Seq<char>> {
    s.map_values(|p: (Seq<char>, V)| p.0)
}

pub open spec fn values_of<V>(s: Seq<(Seq<char>, V)>) -> Seq<V> {
    s.map_values(|p: (Seq<char>, V)| p.1)
}

pub proof fn lemma_key_at<V>(s: Seq<(Seq<char>, V)>, i: int)
    requires
        unique_keys(s),
        0 <= i < s.len(),
    ensures
        has_key(s, s[i].0),
        key_index(s, s[i].0) == i,
        lookup(s, s[i].0) == Some(s[i].1),
{
    assert(has_key(s, s[i].0));
}

pub proof fn lemma_put<V>(s: Seq<(Seq<char>, V)>, k: Seq<char>, v: V)
    requires
        unique_keys(s),
    ensures
        unique_keys(put(s, k, v)),
        lookup(put(s, k, v), k) == Some(v),
        forall|k2: Seq<char>| k2 != k ==> lookup(put(s, k, v), k2) == #[trigger] lookup(s, k2),
{
    let t = put(s, k, v);
    if has_key(s, k) {
        let i = key_index(s, k);
        assert(unique_keys(t));
        lemma_key_at(t, i);
    } else {
        assert(unique_keys(t));
        lemma_key_at(t, s.len() as int);
    }
    assert forall|k2: Seq<char>| k2 != k implies lookup(t, k2) == #[trigger] lookup(s, k2) by {
        if has_key(s, k2) {
            let j = key_index(s, k2);
            lemma_key_at(t, j);
        }
        if has_key(t, k2) {
            let j = key_index(t, k2);
            assert(s[j].0 == k2);
        }
    }
}

pub proof fn lemma_remove_key<V>(s: Seq<(Seq<char>, V)>, k: Seq<char>)
    requires
        unique_keys(s),
    ensures
        unique_keys(remove_key(s, k)),
        lookup(remove_key(s, k), k) is None,
        forall|k2: Seq<char>| k2 != k ==> lookup(remove_key(s, k), k2) == #[trigger] lookup(s, k2),
{
    let t = remove_key(s, k);
    if has_key(s, k) {
        let i = key_index(s, k);
        assert(unique_keys(t)) by {
            assert forall|a: int, b: int|
                0 <= a < t.len() && 0 <= b < t.len() && a != b implies #[trigger] t[a].0
                != #[trigger] t[b].0 by {
                let a2 = if a < i { a } else { a + 1 };
                let b2 = if b < i { b } else { b + 1 };
                assert(t[a] == s[a2]);
                assert(t[b] == s[b2]);
            }
        }
        if has_key(t, k) {
            let j = key_index(t, k);
            let j2 = if j < i { j } else { j + 1 };
            assert(t[j] == s[j2]);
        }
        assert forall|k2: Seq<char>| k2 != k implies lookup(t, k2) == #[trigger] lookup(s, k2) by {
            if has_key(s, k2) {
                let j = key_index(s, k2);
                let j2 = if j < i { j } else { j - 1 };
                assert(t[j2] == s[j]);
                lemma_key_at(t, j2);
            }
            if has_key(t, k2) {
                let j = key_index(t, k2);
                let j2 = if j < i { j } else { j + 1 };
                assert(t[j] == s[j2]);
            }
        }
    }
}

pub proof fn lemma_put_same<V>(s: Seq<(Seq<char>, V)>, k: Seq<char>, v: V)
    requires
        unique_keys(s),
        lookup(s, k) == Some(v),
    ensures
        put(s, k, v) == s,
{
    let i = key_index(s, k);
    assert(put(s, k, v) =~= s);
}

pub proof fn lemma_lookup_push<V>(s: Seq<(Seq<char>, V)>, x: (Seq<char>, V), k: Seq<char>)
    requires
        unique_keys(s.push(x)),
    ensures
        lookup(s.push(x), k) == if x.0 == k { Some(x.1) } else { lookup(s, k) },
{
    let t = s.push(x);
    lemma_key_at(t, s.len() as int);
    if x.0 != k {
        assert(unique_keys(s)) by {
            assert forall|a: int, b: int| 0 <= a < s.len() && 0 <= b < s.len() && a != b implies #[trigger] s[a].0 != #[trigger] s[b].0 by {
                assert(t[a] == s[a] && t[b] == s[b]);
            }
        }
        if has_key(s, k) {
            let j = key_index(s, k);
            assert(t[j] == s[j]);
            lemma_key_at(t, j);
            lemma_key_at(s, j);
        }
        if has_key(t, k) {
            let j = key_index(t, k);
            assert(j < s.len());
            assert(t[j] == s[j]);
            lemma_key_at(s, j);
        }
    }
}

/// Position of `k` among the keys of `v`, by a scan.
pub fn find_key<X>(v: &Vec<(String, X)>, k: &str) -> (r: Option<usize>)
    ensures
        match r {
            Some(i) => i < v@.len() && v@[i as int].0@ == k@,
            None => forall|i: int| 0 <= i < v@.len() ==> (#[trigger] v@[i]).0@ != k@,
        },
{
    let mut i: usize = 0;
    while i < v.len()
        invariant
            i <= v@.len(),
            forall|j: int| 0 <= j < i ==> (#[trigger] v@[j]).0@ != k@,
        decreases v@.len() - i,
    {
        if crate::text::text_eq(v[i].0.as_str(), k) {
            return Some(i);
        }
        i = i + 1;
    }
    None
}

} // verus!
