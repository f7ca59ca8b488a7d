//! Association lists: a sequence of key/value pairs with distinct keys,
//! read as the finite map it stands for.
use vstd::prelude::*;

verus! {

/// No key occurs twice.
pub open spec fn keys_unique<K, V>(s: Seq<(K, V)>) -> bool {
    forall|i: int, j: int|
        #![trigger s[i], s[j]]
        0 <= i < s.len() && 0 <= j < s.len() && i != j ==> s[i].0 != s[j].0
}

/// Some pair has key `k`.
pub open spec fn has_key<K, V>(s: Seq<(K, V)>, k: K) -> bool {
    exists|i: int| 0 <= i < s.len() && #[trigger] s[i].0 == k
}

/// The map that an association list stands for.
pub open spec fn assoc_map<K, V>(s: Seq<(K, V)>) -> Map<K, V> {
    Map::new(|k: K| has_key(s, k), |k: K| s[choose|i: int| 0 <= i < s.len() && #[trigger] s[i].0 == k].1)
}

/// The pair at index `i` is what the map holds for its key.
pub proof fn lemma_assoc_at<K, V>(s: Seq<(K, V)>, i: int)
    requires
        keys_unique(s),
        0 <= i < s.len(),
    ensures
        assoc_map(s).contains_key(s[i].0),
        assoc_map(s)[s[i].0] == s[i].1,
{
    let k = s[i].0;
    assert(has_key(s, k));
    let j = choose|j: int| 0 <= j < s.len() && #[trigger] s[j].0 == k;
    assert(s[j].0 == s[i].0);
}

/// A key is in the map exactly when some pair has it.
pub proof fn lemma_assoc_contains<K, V>(s: Seq<(K, V)>, k: K)
    ensures
        assoc_map(s).contains_key(k) == has_key(s, k),
{
}

/// Appending a pair with a new key inserts it into the map.
pub proof fn lemma_assoc_push<K, V>(s: Seq<(K, V)>, k: K, v: V)
    requires
        keys_unique(s),
        !has_key(s, k),
    ensures
        keys_unique(s.push((k, v))),
        assoc_map(s.push((k, v))) =~= assoc_map(s).insert(k, v),
{
    let t = s.push((k, v));
    assert forall|i: int, j: int| 0 <= i < t.len() && 0 <= j < t.len() && i != j implies t[i].0
        != t[j].0 by {
        if i < s.len() && j < s.len() {
            assert(s[i] == t[i] && s[j] == t[j]);
        } else if i < s.len() {
            assert(t[i] == s[i]);
        } else {
            assert(t[j] == s[j]);
        }
    }
    assert forall|x: K| #[trigger] assoc_map(t).contains_key(x) == assoc_map(s).insert(k, v).contains_key(x) by {
        if has_key(s, x) {
            let i = choose|i: int| 0 <= i < s.len() && #[trigger] s[i].0 == x;
            assert(t[i] == s[i]);
            assert(t[i].0 == x);
        }
        if has_key(t, x) && x != k {
            let i = choose|i: int| 0 <= i < t.len() && #[trigger] t[i].0 == x;
            assert(t[i] == s[i]);
            assert(s[i].0 == x);
        }
        if x == k {
            assert(t[s.len() as int].0 == k);
        }
    }
    assert forall|x: K| #[trigger] assoc_map(t).contains_key(x) implies assoc_map(t)[x]
        == assoc_map(s).insert(k, v)[x] by {
        if x == k {
            lemma_assoc_at(t, s.len() as int);
        } else {
            let i = choose|i: int| 0 <= i < t.len() && #[trigger] t[i].0 == x;
            assert(t[i] == s[i]);
            lemma_assoc_at(t, i);
            lemma_assoc_at(s, i);
        }
    }
}

/// Replacing the value of the pair at index `i` updates the map at its key.
pub proof fn lemma_assoc_update<K, V>(s: Seq<(K, V)>, i: int, v: V)
    requires
        keys_unique(s),
        0 <= i < s.len(),
    ensures
        keys_unique(s.update(i, (s[i].0, v))),
        assoc_map(s.update(i, (s[i].0, v))) =~= assoc_map(s).insert(s[i].0, v),
{
    let t = s.update(i, (s[i].0, v));
    let k = s[i].0;
    assert forall|a: int, b: int| 0 <= a < t.len() && 0 <= b < t.len() && a != b implies t[a].0
        != t[b].0 by {
        assert(t[a].0 == s[a].0 && t[b].0 == s[b].0);
    }
    assert forall|x: K| #[trigger] assoc_map(t).contains_key(x) == assoc_map(s).insert(k, v).contains_key(x) by {
        if has_key(s, x) {
            let j = choose|j: int| 0 <= j < s.len() && #[trigger] s[j].0 == x;
            assert(t[j].0 == s[j].0);
        }
        if has_key(t, x) {
            let j = choose|j: int| 0 <= j < t.len() && #[trigger] t[j].0 == x;
            assert(t[j].0 == s[j].0);
        }
        assert(t[i].0 == k);
    }
    assert forall|x: K| #[trigger] assoc_map(t).contains_key(x) implies assoc_map(t)[x]
        == assoc_map(s).insert(k, v)[x] by {
        let j = choose|j: int| 0 <= j < t.len() && #[trigger] t[j].0 == x;
        lemma_assoc_at(t, j);
        if j != i {
            assert(t[j] == s[j]);
            lemma_assoc_at(s, j);
        }
    }
}

/// The part of the map that the first `n` pairs give, kept where `keep` holds.
pub open spec fn kept_map<K, V>(s: Seq<(K, V)>, n: int, keep: spec_fn(K, V) -> bool) -> Map<K, V> {
    Map::new(
        |k: K| exists|j: int| 0 <= j < n && #[trigger] s[j].0 == k && keep(k, s[j].1),
        |k: K| assoc_map(s)[k],
    )
}

/// Nothing is kept of no pairs.
pub proof fn lemma_kept_none<K, V>(s: Seq<(K, V)>, keep: spec_fn(K, V) -> bool)
    ensures
        kept_map(s, 0, keep) =~= Map::<K, V>::empty(),
{
}

/// One more pair: it is appended when kept, and the map grows by it.
pub proof fn lemma_kept_step<K, V>(s: Seq<(K, V)>, t: Seq<(K, V)>, i: int, keep: spec_fn(K, V) -> bool)
    requires
        keys_unique(s),
        0 <= i < s.len(),
        keys_unique(t),
        assoc_map(t) =~= kept_map(s, i, keep),
    ensures
        keep(s[i].0, s[i].1) ==> {
            &&& !has_key(t, s[i].0)
            &&& keys_unique(t.push(s[i]))
            &&& assoc_map(t.push(s[i])) =~= kept_map(s, i + 1, keep)
        },
        !keep(s[i].0, s[i].1) ==> assoc_map(t) =~= kept_map(s, i + 1, keep),
{
    let k = s[i].0;
    lemma_assoc_at(s, i);
    if has_key(t, k) {
        assert(assoc_map(t).contains_key(k));
        let j = choose|j: int| 0 <= j < i && #[trigger] s[j].0 == k && keep(k, s[j].1);
        assert(s[j].0 == s[i].0);
    }
    if keep(k, s[i].1) {
        lemma_assoc_push(t, k, s[i].1);
        assert(s[i] == (k, s[i].1));
        assert forall|x: K| #[trigger] kept_map(s, i + 1, keep).contains_key(x) == assoc_map(t).insert(k, s[i].1).contains_key(x) by {
            if kept_map(s, i + 1, keep).contains_key(x) && x != k {
                let j = choose|j: int| 0 <= j < i + 1 && #[trigger] s[j].0 == x && keep(x, s[j].1);
                assert(j != i);
                assert(kept_map(s, i, keep).contains_key(x));
            }
            if kept_map(s, i, keep).contains_key(x) {
                let j = choose|j: int| 0 <= j < i && #[trigger] s[j].0 == x && keep(x, s[j].1);
                assert(0 <= j < i + 1 && s[j].0 == x && keep(x, s[j].1));
            }
            if x == k {
                assert(0 <= i < i + 1 && s[i].0 == x && keep(x, s[i].1));
            }
        }
    } else {
        assert forall|x: K| #[trigger] kept_map(s, i + 1, keep).contains_key(x) == kept_map(s, i, keep).contains_key(x) by {
            if kept_map(s, i + 1, keep).contains_key(x) {
                let j = choose|j: int| 0 <= j < i + 1 && #[trigger] s[j].0 == x && keep(x, s[j].1);
                if j == i {
                    assert(false);
                }
                assert(0 <= j < i && s[j].0 == x && keep(x, s[j].1));
            }
            if kept_map(s, i, keep).contains_key(x) {
                let j = choose|j: int| 0 <= j < i && #[trigger] s[j].0 == x && keep(x, s[j].1);
                assert(0 <= j < i + 1 && s[j].0 == x && keep(x, s[j].1));
            }
        }
    }
}

/// Over all pairs, what is kept is the map restricted to the entries `keep` accepts.
pub proof fn lemma_kept_all<K, V>(s: Seq<(K, V)>, keep: spec_fn(K, V) -> bool)
    requires
        keys_unique(s),
    ensures
        kept_map(s, s.len() as int, keep) =~= Map::new(
            |k: K| assoc_map(s).contains_key(k) && keep(k, assoc_map(s)[k]),
            |k: K| assoc_map(s)[k],
        ),
{
    assert forall|x: K| #[trigger] kept_map(s, s.len() as int, keep).contains_key(x) == (assoc_map(s).contains_key(x) && keep(x, assoc_map(s)[x])) by {
        if kept_map(s, s.len() as int, keep).contains_key(x) {
            let j = choose|j: int| 0 <= j < s.len() && #[trigger] s[j].0 == x && keep(x, s[j].1);
            lemma_assoc_at(s, j);
        }
        if assoc_map(s).contains_key(x) {
            let j = choose|j: int| 0 <= j < s.len() && #[trigger] s[j].0 == x;
            lemma_assoc_at(s, j);
        }
    }
}

} // verus!
