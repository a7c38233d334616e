//! Viewing a sequence of rows as a keyed relation.
//!
//! Every stored table in this crate is a vector of rows with a unique key:
//! items by `(user, signature)`, server users by `user`, profiles by `user`,
//! follows by `(source, followed)`.  This module gives the spec-level lookup
//! functions over such a sequence and the lemmas that track them through the
//! row operations the store performs (push, in-place update, positional
//! insert).

use vstd::prelude::*;

verus! {

/// Some row of `s` has key `k` under the key function `key`.
pub open spec fn has_key<T, K>(s: Seq<T>, key: spec_fn(T) -> K, k: K) -> bool {
    exists|i: int| 0 <= i < s.len() && key(#[trigger] s[i]) == k
}

/// The index of a row with key `k` (meaningful when one exists).
pub open spec fn key_index<T, K>(s: Seq<T>, key: spec_fn(T) -> K, k: K) -> int {
    choose|i: int| 0 <= i < s.len() && key(#[trigger] s[i]) == k
}

/// The row with key `k` (meaningful when one exists).
pub open spec fn row_for<T, K>(s: Seq<T>, key: spec_fn(T) -> K, k: K) -> T
    recommends
        has_key(s, key, k),
{
    s[key_index(s, key, k)]
}

/// No two rows of `s` share a key.
pub open spec fn unique_keys<T, K>(s: Seq<T>, key: spec_fn(T) -> K) -> bool {
    forall|i: int, j: int|
        0 <= i < j < s.len() ==> key(#[trigger] s[i]) != key(#[trigger] s[j])
}

/// Under unique keys, a row found at index `i` is the row the lookup
/// functions denote.
pub proof fn lemma_found_at<T, K>(s: Seq<T>, key: spec_fn(T) -> K, i: int)
    requires
        unique_keys(s, key),
        0 <= i < s.len(),
    ensures
        has_key(s, key, key(s[i])),
        key_index(s, key, key(s[i])) == i,
        row_for(s, key, key(s[i])) == s[i],
{
    let k = key(s[i]);
    assert(has_key(s, key, k));
    let j = key_index(s, key, k);
    assert(0 <= j < s.len() && key(s[j]) == k);
    if i != j {
        assert(key(s[i]) != key(s[j]));
    }
}

/// How the lookup functions change when a row with a fresh key is pushed.
pub proof fn lemma_push<T, K>(s: Seq<T>, key: spec_fn(T) -> K, x: T)
    requires
        unique_keys(s, key),
        !has_key(s, key, key(x)),
    ensures
        unique_keys(s.push(x), key),
        forall|k: K| #[trigger] has_key(s.push(x), key, k) <==> has_key(s, key, k) || k == key(x),
        forall|k: K|
            has_key(s, key, k) ==> #[trigger] row_for(s.push(x), key, k) == row_for(s, key, k),
        row_for(s.push(x), key, key(x)) == x,
{
    let s2 = s.push(x);
    assert forall|i: int, j: int| 0 <= i < j < s2.len() implies key(s2[i]) != key(s2[j]) by {
        if j == s.len() {
            assert(s2[j] == x);
            assert(s2[i] == s[i]);
            if key(s2[i]) == key(x) {
                assert(has_key(s, key, key(x)));
            }
        } else {
            assert(s2[i] == s[i] && s2[j] == s[j]);
        }
    }
    assert forall|k: K| #[trigger] has_key(s2, key, k) implies has_key(s, key, k) || k == key(x) by {
        let i = choose|i: int| 0 <= i < s2.len() && key(#[trigger] s2[i]) == k;
        if i < s.len() {
            assert(s2[i] == s[i]);
            assert(has_key(s, key, k));
        } else {
            assert(s2[i] == x);
        }
    }
    assert forall|k: K| has_key(s, key, k) implies #[trigger] has_key(s2, key, k) by {
        let i = choose|i: int| 0 <= i < s.len() && key(#[trigger] s[i]) == k;
        assert(key(s2[i]) == k);
    }
    assert(key(s2[s.len() as int]) == key(x));
    assert(has_key(s2, key, key(x)));
    assert forall|k: K| has_key(s, key, k) implies #[trigger] row_for(s2, key, k) == row_for(
        s,
        key,
        k,
    ) by {
        let i = key_index(s, key, k);
        assert(0 <= i < s.len() && key(s[i]) == k);
        assert(key(s2[i]) == k);
        lemma_found_at(s2, key, i);
        lemma_found_at(s, key, i);
    }
    lemma_found_at(s2, key, s.len() as int);
}

/// How the lookup functions change when the row at index `i` is replaced by
/// one with the same key.
pub proof fn lemma_update<T, K>(s: Seq<T>, key: spec_fn(T) -> K, i: int, x: T)
    requires
        unique_keys(s, key),
        0 <= i < s.len(),
        key(x) == key(s[i]),
    ensures
        unique_keys(s.update(i, x), key),
        forall|k: K| #[trigger] has_key(s.update(i, x), key, k) <==> has_key(s, key, k),
        forall|k: K|
            has_key(s, key, k) && k != key(x) ==> #[trigger] row_for(s.update(i, x), key, k)
                == row_for(s, key, k),
        row_for(s.update(i, x), key, key(x)) == x,
{
    let s2 = s.update(i, x);
    assert forall|a: int, b: int| 0 <= a < b < s2.len() implies key(s2[a]) != key(s2[b]) by {
        assert(key(s2[a]) == key(s[a]) && key(s2[b]) == key(s[b]));
    }
    assert forall|k: K| #[trigger] has_key(s2, key, k) implies has_key(s, key, k) by {
        let a = choose|a: int| 0 <= a < s2.len() && key(#[trigger] s2[a]) == k;
        assert(key(s[a]) == k);
    }
    assert forall|k: K| has_key(s, key, k) implies #[trigger] has_key(s2, key, k) by {
        let a = choose|a: int| 0 <= a < s.len() && key(#[trigger] s[a]) == k;
        assert(key(s2[a]) == k);
    }
    lemma_found_at(s2, key, i);
    assert forall|k: K| has_key(s, key, k) && k != key(x) implies #[trigger] row_for(s2, key, k)
        == row_for(s, key, k) by {
        let a = key_index(s, key, k);
        assert(0 <= a < s.len() && key(s[a]) == k);
        assert(a != i);
        assert(key(s2[a]) == k);
        lemma_found_at(s2, key, a);
        lemma_found_at(s, key, a);
    }
}

/// How the lookup functions change when a row with a fresh key is inserted at
/// position `p`.
pub proof fn lemma_insert<T, K>(s: Seq<T>, key: spec_fn(T) -> K, p: int, x: T)
    requires
        unique_keys(s, key),
        !has_key(s, key, key(x)),
        0 <= p <= s.len(),
    ensures
        unique_keys(s.insert(p, x), key),
        forall|k: K| #[trigger] has_key(s.insert(p, x), key, k) <==> has_key(s, key, k) || k == key(x),
        forall|k: K|
            has_key(s, key, k) ==> #[trigger] row_for(s.insert(p, x), key, k) == row_for(s, key, k),
        row_for(s.insert(p, x), key, key(x)) == x,
{
    let s2 = s.insert(p, x);
    assert(s2.len() == s.len() + 1);
    assert(forall|a: int| 0 <= a < p ==> s2[a] == s[a]);
    assert(forall|a: int| p < a < s2.len() ==> s2[a] == s[a - 1]);
    assert(s2[p] == x);
    assert forall|a: int, b: int| 0 <= a < b < s2.len() implies key(s2[a]) != key(s2[b]) by {
        if a == p {
            if key(s2[b]) == key(x) {
                assert(key(s[b - 1]) == key(x));
                assert(has_key(s, key, key(x)));
            }
        } else if b == p {
            if key(s2[a]) == key(x) {
                assert(key(s[a]) == key(x));
                assert(has_key(s, key, key(x)));
            }
        } else {
            let a0 = if a < p { a } else { a - 1 };
            let b0 = if b < p { b } else { b - 1 };
            assert(key(s2[a]) == key(s[a0]) && key(s2[b]) == key(s[b0]));
        }
    }
    assert forall|k: K| #[trigger] has_key(s2, key, k) implies has_key(s, key, k) || k == key(x) by {
        let a = choose|a: int| 0 <= a < s2.len() && key(#[trigger] s2[a]) == k;
        if a < p {
            assert(key(s[a]) == k);
        } else if a > p {
            assert(key(s[a - 1]) == k);
        }
    }
    assert forall|k: K| has_key(s, key, k) implies #[trigger] has_key(s2, key, k) by {
        let a = choose|a: int| 0 <= a < s.len() && key(#[trigger] s[a]) == k;
        if a < p {
            assert(key(s2[a]) == k);
        } else {
            assert(key(s2[a + 1]) == k);
        }
    }
    assert forall|k: K| has_key(s, key, k) implies #[trigger] row_for(s2, key, k) == row_for(
        s,
        key,
        k,
    ) by {
        let a = key_index(s, key, k);
        assert(0 <= a < s.len() && key(s[a]) == k);
        let a2 = if a < p { a } else { a + 1 };
        assert(key(s2[a2]) == k && s2[a2] == s[a]);
        lemma_found_at(s2, key, a2);
        lemma_found_at(s, key, a);
    }
    lemma_found_at(s2, key, p);
}

} // verus!
