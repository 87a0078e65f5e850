use vstd::prelude::*;

verus! {

/// Whether no two entries share a key.
pub open spec fn keys_distinct<T, K>(s: Seq<T>, key: spec_fn(T) -> K) -> bool {
    forall|i: int, j: int| 0 <= i < s.len() && 0 <= j < s.len() && i != j ==> key(s[i]) != key(s[j])
}

/// Whether some entry has key `k`.
pub open spec fn has_key<T, K>(s: Seq<T>, key: spec_fn(T) -> K, k: K) -> bool {
    exists|i: int| 0 <= i < s.len() && key(s[i]) == k
}

/// The entries as a map from their keys.
pub open spec fn assoc_map<T, K, V>(s: Seq<T>, key: spec_fn(T) -> K, val: spec_fn(T) -> V) -> Map<K, V> {
    Map::new(
        |k: K| has_key(s, key, k),
        |k: K| val(s[choose|i: int| 0 <= i < s.len() && key(s[i]) == k]),
    )
}

/// The entry at `i` is what the map holds for its key.
pub proof fn lemma_assoc_at<T, K, V>(s: Seq<T>, key: spec_fn(T) -> K, val: spec_fn(T) -> V, i: int)
    requires
        keys_distinct(s, key),
        0 <= i < s.len(),
    ensures
        assoc_map(s, key, val).contains_key(key(s[i])),
        assoc_map(s, key, val)[key(s[i])] == val(s[i]),
{
    let k = key(s[i]);
    assert(has_key(s, key, k));
    let j = choose|j: int| 0 <= j < s.len() && key(s[j]) == k;
    assert(j == i);
}

/// Appending an entry with a new key adds it to the map.
pub proof fn lemma_assoc_push<T, K, V>(s: Seq<T>, key: spec_fn(T) -> K, val: spec_fn(T) -> V, x: T)
    requires
        keys_distinct(s, key),
        !has_key(s, key, key(x)),
    ensures
        keys_distinct(s.push(x), key),
        assoc_map(s.push(x), key, val) == assoc_map(s, key, val).insert(key(x), val(x)),
{
    let t = s.push(x);
    assert(keys_distinct(t, key)) by {
        assert forall|i: int, j: int| 0 <= i < t.len() && 0 <= j < t.len() && i != j implies key(t[i]) != key(t[j]) by {
            if i == s.len() {
                assert(!(0 <= j < s.len() && key(s[j]) == key(x)));
            } else if j == s.len() {
                assert(!(0 <= i < s.len() && key(s[i]) == key(x)));
            }
        }
    }
    let m = assoc_map(t, key, val);
    let n = assoc_map(s, key, val).insert(key(x), val(x));
    assert forall|k: K| m.contains_key(k) == n.contains_key(k) by {
        if has_key(s, key, k) {
            let i = choose|i: int| 0 <= i < s.len() && key(s[i]) == k;
            assert(t[i] == s[i]);
        }
        if has_key(t, key, k) && k != key(x) {
            let i = choose|i: int| 0 <= i < t.len() && key(t[i]) == k;
            assert(i < s.len());
            assert(s[i] == t[i]);
        }
        if k == key(x) {
            assert(t[s.len() as int] == x);
        }
    }
    assert forall|k: K| m.contains_key(k) implies m[k] == n[k] by {
        let i = choose|i: int| 0 <= i < t.len() && key(t[i]) == k;
        lemma_assoc_at(t, key, val, i);
        if i < s.len() {
            assert(s[i] == t[i]);
            lemma_assoc_at(s, key, val, i);
        }
    }
    assert(m =~= n);
}

/// Replacing the entry at `i` by one with the same key updates the map there.
pub proof fn lemma_assoc_update<T, K, V>(s: Seq<T>, key: spec_fn(T) -> K, val: spec_fn(T) -> V, i: int, x: T)
    requires
        keys_distinct(s, key),
        0 <= i < s.len(),
        key(x) == key(s[i]),
    ensures
        keys_distinct(s.update(i, x), key),
        assoc_map(s.update(i, x), key, val) == assoc_map(s, key, val).insert(key(x), val(x)),
{
    let t = s.update(i, x);
    assert(keys_distinct(t, key)) by {
        assert forall|a: int, b: int| 0 <= a < t.len() && 0 <= b < t.len() && a != b implies key(t[a]) != key(t[b]) by {
            assert(key(t[a]) == key(s[a]));
            assert(key(t[b]) == key(s[b]));
        }
    }
    let m = assoc_map(t, key, val);
    let n = assoc_map(s, key, val).insert(key(x), val(x));
    assert forall|k: K| m.contains_key(k) == n.contains_key(k) by {
        if has_key(s, key, k) {
            let a = choose|a: int| 0 <= a < s.len() && key(s[a]) == k;
            assert(key(t[a]) == k);
        }
        if has_key(t, key, k) {
            let a = choose|a: int| 0 <= a < t.len() && key(t[a]) == k;
            assert(key(s[a]) == k);
        }
    }
    assert forall|k: K| m.contains_key(k) implies m[k] == n[k] by {
        let a = choose|a: int| 0 <= a < t.len() && key(t[a]) == k;
        lemma_assoc_at(t, key, val, a);
        if a != i {
            assert(s[a] == t[a]);
            lemma_assoc_at(s, key, val, a);
        }
    }
    assert(m =~= n);
}

/// Removing the entry at `i` removes its key from the map.
pub proof fn lemma_assoc_remove<T, K, V>(s: Seq<T>, key: spec_fn(T) -> K, val: spec_fn(T) -> V, i: int)
    requires
        keys_distinct(s, key),
        0 <= i < s.len(),
    ensures
        keys_distinct(s.remove(i), key),
        assoc_map(s.remove(i), key, val) == assoc_map(s, key, val).remove(key(s[i])),
{
    let t = s.remove(i);
    let idx = |a: int| if a < i { a } else { a + 1 };
    assert forall|a: int| 0 <= a < t.len() implies t[a] == s[idx(a)] by {}
    assert(keys_distinct(t, key)) by {
        assert forall|a: int, b: int| 0 <= a < t.len() && 0 <= b < t.len() && a != b implies key(t[a]) != key(t[b]) by {
            assert(t[a] == s[idx(a)]);
            assert(t[b] == s[idx(b)]);
        }
    }
    let m = assoc_map(t, key, val);
    let n = assoc_map(s, key, val).remove(key(s[i]));
    assert forall|k: K| m.contains_key(k) == n.contains_key(k) by {
        if has_key(t, key, k) {
            let a = choose|a: int| 0 <= a < t.len() && key(t[a]) == k;
            assert(t[a] == s[idx(a)]);
            assert(idx(a) != i);
        }
        if has_key(s, key, k) && k != key(s[i]) {
            let a = choose|a: int| 0 <= a < s.len() && key(s[a]) == k;
            assert(a != i);
            let b = if a < i { a } else { a - 1 };
            assert(t[b] == s[a]);
        }
    }
    assert forall|k: K| m.contains_key(k) implies m[k] == n[k] by {
        let a = choose|a: int| 0 <= a < t.len() && key(t[a]) == k;
        lemma_assoc_at(t, key, val, a);
        assert(t[a] == s[idx(a)]);
        lemma_assoc_at(s, key, val, idx(a));
    }
    assert(m =~= n);
}

} // verus!
