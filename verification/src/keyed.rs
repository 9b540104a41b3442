//! Sequences whose items carry distinct text keys, read as maps.
use vstd::prelude::*;

verus! {

/// No two items share a key.
pub open spec fn keys_unique<T>(s: Seq<T>, key: spec_fn(T) -> Seq<char>) -> bool {
    forall|i: int, j: int| 0 <= i < s.len() && 0 <= j < s.len() && i != j ==> key(#[trigger] s[i]) != key(#[trigger] s[j])
}

/// Whether some item has key `k`.
pub open spec fn has_key<T>(s: Seq<T>, key: spec_fn(T) -> Seq<char>, k: Seq<char>) -> bool {
    exists|i: int| 0 <= i < s.len() && key(#[trigger] s[i]) == k
}

/// The items by key.
pub open spec fn keyed_map<T>(s: Seq<T>, key: spec_fn(T) -> Seq<char>) -> Map<Seq<char>, T> {
    Map::new(
        |k: Seq<char>| has_key(s, key, k),
        |k: Seq<char>| s[choose|i: int| 0 <= i < s.len() && key(s[i]) == k],
    )
}

pub proof fn lemma_keyed_index<T>(s: Seq<T>, key: spec_fn(T) -> Seq<char>, i: int)
    requires
        keys_unique(s, key),
        0 <= i < s.len(),
    ensures
        keyed_map(s, key).contains_key(key(s[i])),
        keyed_map(s, key)[key(s[i])] == s[i],
{
    assert(has_key(s, key, key(s[i])));
    let j = choose|j: int| 0 <= j < s.len() && key(s[j]) == key(s[i]);
    assert(j == i);
}

pub proof fn lemma_keyed_empty<T>(s: Seq<T>, key: spec_fn(T) -> Seq<char>)
    requires
        s.len() == 0,
    ensures
        keyed_map(s, key) == Map::<Seq<char>, T>::empty(),
        keys_unique(s, key),
{
    assert(keyed_map(s, key) =~= Map::<Seq<char>, T>::empty());
}

pub proof fn lemma_keyed_push<T>(s: Seq<T>, key: spec_fn(T) -> Seq<char>, x: T)
    requires
        keys_unique(s, key),
        !has_key(s, key, key(x)),
    ensures
        keys_unique(s.push(x), key),
        keyed_map(s.push(x), key) == keyed_map(s, key).insert(key(x), x),
{
    let t = s.push(x);
    assert forall|i: int, j: int| 0 <= i < t.len() && 0 <= j < t.len() && i != j implies key(#[trigger] t[i]) != key(#[trigger] t[j]) by {
        if i < s.len() && j < s.len() {
            assert(t[i] == s[i] && t[j] == s[j]);
        } else if i < s.len() {
            assert(t[i] == s[i]);
        } else if j < s.len() {
            assert(t[j] == s[j]);
        }
    }
    assert forall|k: Seq<char>| #[trigger] keyed_map(t, key).contains_key(k) <==> keyed_map(s, key).insert(key(x), x).contains_key(k) by {
        if has_key(t, key, k) {
            let i = choose|i: int| 0 <= i < t.len() && key(t[i]) == k;
            if i < s.len() {
                assert(t[i] == s[i]);
                assert(has_key(s, key, k));
            }
        }
        if has_key(s, key, k) {
            let i = choose|i: int| 0 <= i < s.len() && key(s[i]) == k;
            assert(t[i] == s[i]);
            assert(has_key(t, key, k));
        }
        if k == key(x) {
            assert(t[s.len() as int] == x);
            assert(has_key(t, key, k));
        }
    }
    assert forall|k: Seq<char>| #[trigger] keyed_map(t, key).contains_key(k) implies keyed_map(t, key)[k] == keyed_map(s, key).insert(key(x), x)[k] by {
        let i = choose|i: int| 0 <= i < t.len() && key(t[i]) == k;
        lemma_keyed_index(t, key, i);
        if i < s.len() {
            assert(t[i] == s[i]);
            lemma_keyed_index(s, key, i);
        } else {
            assert(t[i] == x);
        }
    }
    assert(keyed_map(t, key) =~= keyed_map(s, key).insert(key(x), x));
}

pub proof fn lemma_keyed_update<T>(s: Seq<T>, key: spec_fn(T) -> Seq<char>, j: int, x: T)
    requires
        keys_unique(s, key),
        0 <= j < s.len(),
        key(x) == key(s[j]),
    ensures
        keys_unique(s.update(j, x), key),
        keyed_map(s.update(j, x), key) == keyed_map(s, key).insert(key(x), x),
{
    let t = s.update(j, x);
    assert forall|a: int, b: int| 0 <= a < t.len() && 0 <= b < t.len() && a != b implies key(#[trigger] t[a]) != key(#[trigger] t[b]) by {
        assert(key(t[a]) == key(s[a]));
        assert(key(t[b]) == key(s[b]));
    }
    assert forall|k: Seq<char>| #[trigger] keyed_map(t, key).contains_key(k) <==> keyed_map(s, key).insert(key(x), x).contains_key(k) by {
        if has_key(t, key, k) {
            let i = choose|i: int| 0 <= i < t.len() && key(t[i]) == k;
            assert(key(t[i]) == key(s[i]));
            assert(has_key(s, key, k));
        }
        if has_key(s, key, k) {
            let i = choose|i: int| 0 <= i < s.len() && key(s[i]) == k;
            assert(key(t[i]) == key(s[i]));
            assert(has_key(t, key, k));
        }
        if k == key(x) {
            assert(t[j] == x);
            assert(has_key(t, key, k));
        }
    }
    assert forall|k: Seq<char>| #[trigger] keyed_map(t, key).contains_key(k) implies keyed_map(t, key)[k] == keyed_map(s, key).insert(key(x), x)[k] by {
        let i = choose|i: int| 0 <= i < t.len() && key(t[i]) == k;
        lemma_keyed_index(t, key, i);
        if i != j {
            assert(t[i] == s[i]);
            lemma_keyed_index(s, key, i);
        } else {
            assert(t[i] == x);
        }
    }
    assert(keyed_map(t, key) =~= keyed_map(s, key).insert(key(x), x));
}

} // verus!
