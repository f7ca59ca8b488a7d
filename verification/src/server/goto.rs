use vstd::prelude::*;

use crate::app::state::{server_pairs, State};
use crate::assoc::{has_key, lemma_assoc_at};
use crate::text::str_eq;
use crate::types::{Server, ServerView};

verus! {

/// The online servers keyed by slug: each slug of an online server once,
/// with an online server that has it.
pub fn get_servers(state: &State) -> (res: Vec<(String, Server)>)
    ensures
        forall|k: int| 0 <= k < res@.len() ==> (#[trigger] res@[k]).0@ == res@[k].1.slug@ && state@.servers.contains_key(res@[k].1@),
        forall|k: int, l: int| 0 <= k < res@.len() && 0 <= l < res@.len() && k != l ==> (#[trigger] res@[k]).0@ != (#[trigger] res@[l]).0@,
        forall|s: ServerView| #[trigger] state@.servers.contains_key(s) ==> exists|k: int| 0 <= k < res@.len() && (#[trigger] res@[k]).0@ == s.slug,
{
    proof {
        use_type_invariant(state);
        state.lemma_unfold();
    }
    let ghost pairs = server_pairs(state.online_servers@);
    let mut res: Vec<(String, Server)> = Vec::new();
    let n = state.online_servers.len();
    let mut i: usize = 0;
    while i < n
        invariant
            n == state.online_servers@.len(),
            pairs == server_pairs(state.online_servers@),
            state@.servers == crate::assoc::assoc_map(pairs),
            crate::assoc::keys_unique(pairs),
            i <= n,
            forall|k: int| 0 <= k < res@.len() ==> (#[trigger] res@[k]).0@ == res@[k].1.slug@ && state@.servers.contains_key(res@[k].1@),
            forall|k: int, l: int| 0 <= k < res@.len() && 0 <= l < res@.len() && k != l ==> (#[trigger] res@[k]).0@ != (#[trigger] res@[l]).0@,
            forall|j: int| 0 <= j < i ==> exists|k: int| 0 <= k < res@.len() && (#[trigger] res@[k]).0@ == (#[trigger] pairs[j]).0.slug,
        decreases n - i,
    {
        let server = &state.online_servers[i].0;
        proof {
            lemma_assoc_at(pairs, i as int);
            assert(pairs[i as int].0 == server@);
        }
        let mut k: usize = 0;
        while k < res.len() && !str_eq(res[k].0.as_str(), server.slug.as_str())
            invariant
                k <= res@.len(),
                forall|x: int| 0 <= x < k ==> (#[trigger] res@[x]).0@ != server.slug@,
            decreases res@.len() - k,
        {
            k = k + 1;
        }
        let ghost before = res@;
        if k == res.len() {
            res.push((server.slug.clone(), server.clone()));
            proof {
                assert forall|x: int, y: int| 0 <= x < res@.len() && 0 <= y < res@.len() && x != y implies (#[trigger] res@[x]).0@ != (#[trigger] res@[y]).0@ by {
                    if x < before.len() && y < before.len() {
                        assert(res@[x] == before[x] && res@[y] == before[y]);
                    } else if x < before.len() {
                        assert(res@[x] == before[x]);
                    } else {
                        assert(res@[y] == before[y]);
                    }
                }
                assert forall|x: int| 0 <= x < res@.len() implies (#[trigger] res@[x]).0@ == res@[x].1.slug@ && state@.servers.contains_key(res@[x].1@) by {
                    if x < before.len() {
                        assert(res@[x] == before[x]);
                    }
                }
                assert forall|j: int| 0 <= j < i + 1 implies exists|x: int| 0 <= x < res@.len() && (#[trigger] res@[x]).0@ == (#[trigger] pairs[j]).0.slug by {
                    if j < i {
                        let x = choose|x: int| 0 <= x < before.len() && (#[trigger] before[x]).0@ == pairs[j].0.slug;
                        assert(res@[x] == before[x]);
                    } else {
                        assert(res@[before.len() as int].0@ == pairs[j].0.slug);
                    }
                }
            }
        } else {
            proof {
                assert forall|j: int| 0 <= j < i + 1 implies exists|x: int| 0 <= x < res@.len() && (#[trigger] res@[x]).0@ == (#[trigger] pairs[j]).0.slug by {
                    if j < i {
                        let x = choose|x: int| 0 <= x < res@.len() && (#[trigger] res@[x]).0@ == pairs[j].0.slug;
                    } else {
                        assert(res@[k as int].0@ == pairs[j].0.slug);
                    }
                }
            }
        }
        i = i + 1;
    }
    proof {
        assert forall|s: ServerView| #[trigger] state@.servers.contains_key(s) implies exists|k: int| 0 <= k < res@.len() && (#[trigger] res@[k]).0@ == s.slug by {
            assert(has_key(pairs, s));
            let j = choose|j: int| 0 <= j < pairs.len() && #[trigger] pairs[j].0 == s;
            let x = choose|x: int| 0 <= x < res@.len() && (#[trigger] res@[x]).0@ == pairs[j].0.slug;
        }
    }
    res
}

} // verus!
