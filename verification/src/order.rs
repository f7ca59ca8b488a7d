//! Sorting by keys, with the permutation that relates the result to the input.
use vstd::prelude::*;

use crate::text::{key_le, key_le_exec, lemma_key_le_total, lemma_key_le_trans, SortKey};

verus! {

/// `perm` lists each index of `0..n` exactly once.
pub open spec fn is_permutation(perm: Seq<int>, n: int) -> bool {
    &&& perm.len() == n
    &&& forall|k: int| 0 <= k < n ==> 0 <= #[trigger] perm[k] < n
    &&& forall|k: int, l: int| 0 <= k < n && 0 <= l < n && k != l ==> #[trigger] perm[k] != #[trigger] perm[l]
    &&& forall|m: int| 0 <= m < n ==> #[trigger] hits(perm, m)
}

/// Some entry of `perm` is `m`.
pub open spec fn hits(perm: Seq<int>, m: int) -> bool {
    exists|k: int| 0 <= k < perm.len() && #[trigger] perm[k] == m
}

/// `after` holds the items of `before`, rearranged by `perm`.
pub open spec fn permuted<T>(before: Seq<T>, after: Seq<T>, perm: Seq<int>) -> bool {
    &&& after.len() == before.len()
    &&& is_permutation(perm, before.len() as int)
    &&& forall|k: int| 0 <= k < after.len() ==> after[k] == before[#[trigger] perm[k]]
}

/// The keys are in order.
pub open spec fn sorted_by_key<T>(s: Seq<(SortKey, T)>) -> bool {
    forall|a: int, b: int| 0 <= a < b < s.len() ==> key_le((#[trigger] s[a]).0@, (#[trigger] s[b]).0@)
}

/// Sorts pairs by their key (insertion sort; the order of equal keys is not fixed).
pub fn sort_by_key<T>(items: Vec<(SortKey, T)>) -> (res: Vec<(SortKey, T)>)
    ensures
        sorted_by_key(res@),
        exists|perm: Seq<int>| permuted(items@, res@, perm),
{
    let ghost orig = items@;
    let n = items.len();
    let mut rest = items;
    let mut res: Vec<(SortKey, T)> = Vec::new();
    let ghost mut perm: Seq<int> = Seq::empty();
    while rest.len() > 0
        invariant
            n == orig.len(),
            rest@ == orig.take(rest@.len() as int),
            rest@.len() <= n,
            res@.len() + rest@.len() == n,
            perm.len() == res@.len(),
            sorted_by_key(res@),
            forall|k: int| 0 <= k < res@.len() ==> rest@.len() <= #[trigger] perm[k] < n,
            forall|k: int, l: int| 0 <= k < res@.len() && 0 <= l < res@.len() && k != l ==> #[trigger] perm[k] != #[trigger] perm[l],
            forall|m: int| rest@.len() <= m < n ==> #[trigger] hits(perm, m),
            forall|k: int| 0 <= k < res@.len() ==> res@[k] == orig[#[trigger] perm[k]],
        decreases rest@.len(),
    {
        let ghost idx = rest@.len() - 1;
        let x = rest.pop().unwrap();
        proof {
            assert(x == orig[idx]);
            assert(rest@ =~= orig.take(rest@.len() as int));
        }
        let mut p: usize = 0;
        while p < res.len() && key_le_exec(&res[p].0, &x.0)
            invariant
                p <= res@.len(),
                forall|a: int| 0 <= a < p ==> key_le((#[trigger] res@[a]).0@, x.0@),
            decreases res@.len() - p,
        {
            p = p + 1;
        }
        let ghost old_res = res@;
        let ghost old_perm = perm;
        proof {
            assert forall|b: int| p <= b < old_res.len() implies key_le(x.0@, (#[trigger] old_res[b]).0@) by {
                lemma_key_le_total(old_res[p as int].0@, x.0@);
                if b > p {
                    lemma_key_le_trans(x.0@, old_res[p as int].0@, old_res[b].0@);
                }
            }
        }
        res.insert(p, x);
        proof {
            perm = old_perm.insert(p as int, idx);
            assert forall|a: int, b: int| 0 <= a < b < res@.len() implies key_le((#[trigger] res@[a]).0@, (#[trigger] res@[b]).0@) by {
                if b < p {
                    assert(res@[a] == old_res[a] && res@[b] == old_res[b]);
                } else if b == p {
                    assert(res@[a] == old_res[a]);
                } else if a < p {
                    assert(res@[a] == old_res[a] && res@[b] == old_res[b - 1]);
                    lemma_key_le_trans(old_res[a].0@, x.0@, old_res[b - 1].0@);
                } else if a == p {
                    assert(res@[b] == old_res[b - 1]);
                } else {
                    assert(res@[a] == old_res[a - 1] && res@[b] == old_res[b - 1]);
                }
            }
            assert forall|k: int| 0 <= k < res@.len() implies rest@.len() <= #[trigger] perm[k] < n by {
                if k < p {
                    assert(perm[k] == old_perm[k]);
                } else if k > p {
                    assert(perm[k] == old_perm[k - 1]);
                }
            }
            assert forall|k: int, l: int| 0 <= k < res@.len() && 0 <= l < res@.len() && k != l implies #[trigger] perm[k]
                != #[trigger] perm[l] by {
                if k != p && l != p {
                    let k0 = if k < p { k } else { k - 1 };
                    let l0 = if l < p { l } else { l - 1 };
                    assert(perm[k] == old_perm[k0] && perm[l] == old_perm[l0]);
                } else if k == p {
                    let l0 = if l < p { l } else { l - 1 };
                    assert(perm[l] == old_perm[l0]);
                } else {
                    let k0 = if k < p { k } else { k - 1 };
                    assert(perm[k] == old_perm[k0]);
                }
            }
            assert forall|m: int| rest@.len() <= m < n implies #[trigger] hits(perm, m) by {
                if m == idx {
                    assert(perm[p as int] == m);
                } else {
                    assert(hits(old_perm, m));
                    let k0 = choose|k: int| 0 <= k < old_perm.len() && #[trigger] old_perm[k] == m;
                    if k0 < p {
                        assert(perm[k0] == m);
                    } else {
                        assert(perm[k0 + 1] == m);
                    }
                }
            }
            assert forall|k: int| 0 <= k < res@.len() implies res@[k] == orig[#[trigger] perm[k]] by {
                if k < p {
                    assert(res@[k] == old_res[k] && perm[k] == old_perm[k]);
                } else if k > p {
                    assert(res@[k] == old_res[k - 1] && perm[k] == old_perm[k - 1]);
                }
            }
        }
    }
    proof {
        assert(permuted(orig, res@, perm));
    }
    res
}

} // verus!
