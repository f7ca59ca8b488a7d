pub mod canonical;
pub mod layout;

use vstd::prelude::*;

use crate::app::state::{online_anywhere, online_uuids, sighting_pairs, Sighting, State};
use crate::assoc::{has_key, lemma_assoc_at};
use crate::order::{hits, permuted, sort_by_key};
use crate::richtext::list::canonical::{law_listing_text, listing_text};
use crate::richtext::{colored, plain, segments_view, Hover, HoverView, NamedColor, SegmentView, TextSegment};
use crate::text::{
    hyphenated, key_le, lemma_key_le_refl, lemma_key_le_total, lemma_key_le_trans, lowercase, str_eq, str_le,
    to_lowercase, uuid_string, SortKey, SortKeyView,
};
use crate::types::{Player, PlayerView, Server, ServerView};

verus! {

/// The order of servers in the list: by slug, then by display name.
pub open spec fn server_key(s: ServerView) -> SortKeyView {
    SortKeyView { primary: s.slug, secondary: s.nickname, tag: 0 }
}

/// The order of players in the list: by lower-cased nickname, then by
/// nickname, then by UUID.
pub open spec fn player_key(p: PlayerView) -> SortKeyView {
    SortKeyView { primary: lowercase(p.nickname), secondary: p.nickname, tag: p.uuid }
}

/// The sighting of player `u` on server `s` is the one it is listed by: no
/// other sighting of that player is more recent, and among equally recent
/// ones `s` comes first in server order.
pub open spec fn is_latest(m: Map<(ServerView, u128), (PlayerView, u64)>, s: ServerView, u: u128) -> bool {
    &&& m.contains_key((s, u))
    &&& forall|s2: ServerView| #[trigger] m.contains_key((s2, u)) ==> m[(s2, u)].1 < m[(s, u)].1 || (m[(s2, u)].1
        == m[(s, u)].1 && key_le(server_key(s), server_key(s2)))
}

/// Player `p` is listed under server `s`: that is where `p` was seen last, as `p`.
pub open spec fn listed_under(m: Map<(ServerView, u128), (PlayerView, u64)>, s: ServerView, p: PlayerView) -> bool {
    is_latest(m, s, p.uuid) && m[(s, p.uuid)].0 == p
}

/// Some group lists a player with UUID `u`.
pub open spec fn lists_uuid(g: Seq<(Server, Vec<Player>)>, u: u128) -> bool {
    exists|i: int, a: int| 0 <= i < g.len() && 0 <= a < g[i].1@.len() && (#[trigger] g[i].1@[a]).uuid == u
}

/// The groups list each online player exactly once, under the server of
/// its latest heartbeat, no server twice and no group empty.
pub open spec fn groups_cover(m: Map<(ServerView, u128), (PlayerView, u64)>, g: Seq<(Server, Vec<Player>)>) -> bool {
    &&& forall|i: int, j: int| 0 <= i < g.len() && 0 <= j < g.len() && i != j ==> (#[trigger] g[i]).0@ != (#[trigger] g[j]).0@
    &&& forall|i: int| 0 <= i < g.len() ==> (#[trigger] g[i]).1@.len() > 0
    &&& forall|i: int, a: int| 0 <= i < g.len() && 0 <= a < g[i].1@.len() ==> listed_under(m, g[i].0@, (#[trigger] g[i].1@[a])@)
    &&& forall|i: int, a: int, j: int, b: int|
        0 <= i < g.len() && 0 <= a < g[i].1@.len() && 0 <= j < g.len() && 0 <= b < g[j].1@.len() && (i != j || a != b)
            ==> (#[trigger] g[i].1@[a]).uuid != (#[trigger] g[j].1@[b]).uuid
    &&& forall|u: u128| #[trigger] online_anywhere(m, u) ==> lists_uuid(g, u)
}

/// The groups come in server order (slugs in code-point order first), and
/// each group's players in player order (lower-cased nicknames first).
pub open spec fn groups_ordered(g: Seq<(Server, Vec<Player>)>) -> bool {
    &&& forall|i: int, j: int| 0 <= i < j < g.len() ==> key_le(server_key((#[trigger] g[i]).0@), server_key((#[trigger] g[j]).0@))
    &&& forall|i: int, a: int, b: int| 0 <= i < g.len() && 0 <= a < b < g[i].1@.len() ==> key_le(
        player_key((#[trigger] g[i].1@[a])@),
        player_key((#[trigger] g[i].1@[b])@),
    )
}

/// A valid player list for the sightings `m`.
pub open spec fn valid_listing(m: Map<(ServerView, u128), (PlayerView, u64)>, g: Seq<(Server, Vec<Player>)>) -> bool {
    groups_cover(m, g) && groups_ordered(g)
}

fn clone_players(v: &Vec<Player>) -> (res: Vec<Player>)
    ensures
        res@ == v@,
{
    let mut res: Vec<Player> = Vec::new();
    let n = v.len();
    let mut k: usize = 0;
    while k < n
        invariant
            n == v@.len(),
            k <= n,
            res@ == v@.take(k as int),
        decreases n - k,
    {
        res.push(v[k].clone());
        proof {
            assert(res@ =~= v@.take(k + 1));
        }
        k = k + 1;
    }
    proof {
        assert(res@ =~= v@);
    }
    res
}

/// Some latest entry is a sighting of player `u`.
pub open spec fn covered(s: Seq<crate::app::state::Sighting>, latest: Seq<usize>, u: u128) -> bool {
    exists|a: int| 0 <= a < latest.len() && s[#[trigger] latest[a] as int].player.uuid == u
}

/// Player `p` on server `sv` was taken from one of the first `upto` latest entries.
pub open spec fn placed_from(
    s: Seq<crate::app::state::Sighting>,
    latest: Seq<usize>,
    upto: int,
    sv: ServerView,
    p: Player,
) -> bool {
    exists|a: int| 0 <= a < upto && s[#[trigger] latest[a] as int].server@ == sv && s[latest[a] as int].player == p
}

/// Sighting `x` is listed in preference to sighting `y`: it is more recent,
/// or as recent and on a server that comes first in server order.
pub open spec fn preferred(x: Sighting, y: Sighting) -> bool {
    y.last_heartbeat < x.last_heartbeat || (y.last_heartbeat == x.last_heartbeat && key_le(
        server_key(x.server@),
        server_key(y.server@),
    ))
}

/// Whether server `a` comes before server `b` or equals it in server order.
fn server_le(a: &Server, b: &Server) -> (res: bool)
    ensures
        res == key_le(server_key(a@), server_key(b@)),
{
    if !str_eq(a.slug.as_str(), b.slug.as_str()) {
        str_le(a.slug.as_str(), b.slug.as_str())
    } else if !str_eq(a.nickname.as_str(), b.nickname.as_str()) {
        str_le(a.nickname.as_str(), b.nickname.as_str())
    } else {
        true
    }
}

/// Whether sighting `x` is listed in preference to sighting `y`.
fn prefers(x: &Sighting, y: &Sighting) -> (res: bool)
    ensures
        res == preferred(*x, *y),
{
    if x.last_heartbeat != y.last_heartbeat {
        x.last_heartbeat > y.last_heartbeat
    } else {
        server_le(&x.server, &y.server)
    }
}

/// For each player, the index of the sighting it is listed by.
fn latest_sightings(state: &State) -> (latest: Vec<usize>)
    ensures
        forall|a: int| 0 <= a < latest@.len() ==> #[trigger] latest@[a] < state.online_players@.len(),
        forall|a: int, b: int| 0 <= a < latest@.len() && 0 <= b < latest@.len() && a != b ==> state.online_players@[#[trigger] latest@[a] as int].player.uuid
            != state.online_players@[#[trigger] latest@[b] as int].player.uuid,
        forall|a: int, j: int| 0 <= a < latest@.len() && 0 <= j < state.online_players@.len()
            && (#[trigger] state.online_players@[j]).player.uuid == state.online_players@[#[trigger] latest@[a] as int].player.uuid
            ==> preferred(state.online_players@[latest@[a] as int], state.online_players@[j]),
        forall|j: int| 0 <= j < state.online_players@.len() ==> covered(state.online_players@, latest@, (#[trigger] state.online_players@[j]).player.uuid),
{
    let ghost s = state.online_players@;
    let n = state.online_players.len();
    let mut latest: Vec<usize> = Vec::new();
    let mut i: usize = 0;
    while i < n
        invariant
            n == s.len(),
            s == state.online_players@,
            i <= n,
            forall|a: int| 0 <= a < latest@.len() ==> #[trigger] latest@[a] < i,
            forall|a: int, b: int| 0 <= a < latest@.len() && 0 <= b < latest@.len() && a != b ==> s[#[trigger] latest@[a] as int].player.uuid
                != s[#[trigger] latest@[b] as int].player.uuid,
            forall|a: int, j: int| 0 <= a < latest@.len() && 0 <= j < i && (#[trigger] s[j]).player.uuid == s[#[trigger] latest@[a] as int].player.uuid
                ==> preferred(s[latest@[a] as int], s[j]),
            forall|j: int| 0 <= j < i ==> covered(s, latest@, (#[trigger] s[j]).player.uuid),
        decreases n - i,
    {
        let u = state.online_players[i].player.uuid;
        let mut p: usize = 0;
        while p < latest.len() && state.online_players[latest[p]].player.uuid != u
            invariant
                p <= latest@.len(),
                forall|a: int| 0 <= a < latest@.len() ==> #[trigger] latest@[a] < i,
                i < n,
                n == s.len(),
                s == state.online_players@,
                u == s[i as int].player.uuid,
                forall|q: int| 0 <= q < p ==> s[#[trigger] latest@[q] as int].player.uuid != u,
            decreases latest@.len() - p,
        {
            p = p + 1;
        }
        let ghost before = latest@;
        proof {
            lemma_key_le_refl(server_key(s[i as int].server@));
        }
        if p == latest.len() {
            latest.push(i);
            proof {
                assert forall|a: int, b: int| 0 <= a < latest@.len() && 0 <= b < latest@.len() && a != b implies s[#[trigger] latest@[a] as int].player.uuid
                    != s[#[trigger] latest@[b] as int].player.uuid by {
                    if a < before.len() && b < before.len() {
                        assert(latest@[a] == before[a] && latest@[b] == before[b]);
                    } else if a < before.len() {
                        assert(latest@[a] == before[a]);
                    } else {
                        assert(latest@[b] == before[b]);
                    }
                }
                assert forall|a: int, j: int| 0 <= a < latest@.len() && 0 <= j < i + 1 && (#[trigger] s[j]).player.uuid == s[#[trigger] latest@[a] as int].player.uuid
                    implies preferred(s[latest@[a] as int], s[j]) by {
                    if a < before.len() {
                        assert(latest@[a] == before[a]);
                        if j == i {
                            assert(false);
                        }
                    } else if j < i {
                        assert(covered(s, before, s[j].player.uuid));
                        let q = choose|q: int| 0 <= q < before.len() && s[#[trigger] before[q] as int].player.uuid == s[j].player.uuid;
                        assert(false);
                    }
                }
                assert forall|j: int| 0 <= j < i + 1 implies covered(s, latest@, (#[trigger] s[j]).player.uuid) by {
                    if j < i {
                        let q = choose|q: int| 0 <= q < before.len() && s[#[trigger] before[q] as int].player.uuid == s[j].player.uuid;
                        assert(latest@[q] == before[q]);
                    } else {
                        assert(latest@[before.len() as int] == i);
                    }
                }
            }
        } else {
            let cur = latest[p];
            if prefers(&state.online_players[i], &state.online_players[cur]) {
                latest.set(p, i);
                proof {
                    assert forall|a: int, b: int| 0 <= a < latest@.len() && 0 <= b < latest@.len() && a != b implies s[#[trigger] latest@[a] as int].player.uuid
                        != s[#[trigger] latest@[b] as int].player.uuid by {
                        if a != p && b != p {
                            assert(latest@[a] == before[a] && latest@[b] == before[b]);
                        } else if a == p {
                            assert(latest@[b] == before[b]);
                        } else {
                            assert(latest@[a] == before[a]);
                        }
                    }
                    assert forall|a: int, j: int| 0 <= a < latest@.len() && 0 <= j < i + 1 && (#[trigger] s[j]).player.uuid == s[#[trigger] latest@[a] as int].player.uuid
                        implies preferred(s[latest@[a] as int], s[j]) by {
                        if a != p {
                            assert(latest@[a] == before[a]);
                            if j == i {
                                assert(s[before[a] as int].player.uuid == s[before[p as int] as int].player.uuid);
                            }
                        } else if j < i {
                            let x = s[i as int];
                            let c = s[cur as int];
                            let y = s[j];
                            assert(preferred(c, y));
                            if y.last_heartbeat == x.last_heartbeat {
                                lemma_key_le_trans(server_key(x.server@), server_key(c.server@), server_key(y.server@));
                            }
                        }
                    }
                    assert forall|j: int| 0 <= j < i + 1 implies covered(s, latest@, (#[trigger] s[j]).player.uuid) by {
                        if j < i {
                            let q = choose|q: int| 0 <= q < before.len() && s[#[trigger] before[q] as int].player.uuid == s[j].player.uuid;
                            if q == p {
                                assert(s[latest@[q] as int].player.uuid == s[j].player.uuid);
                            } else {
                                assert(latest@[q] == before[q]);
                            }
                        } else {
                            assert(latest@[p as int] == i);
                        }
                    }
                }
            } else {
                proof {
                    lemma_key_le_total(server_key(s[i as int].server@), server_key(s[cur as int].server@));
                    assert forall|a: int, j: int| 0 <= a < latest@.len() && 0 <= j < i + 1 && (#[trigger] s[j]).player.uuid == s[#[trigger] latest@[a] as int].player.uuid
                        implies preferred(s[latest@[a] as int], s[j]) by {
                        if j == i && a != p {
                            assert(s[latest@[a] as int].player.uuid == s[latest@[p as int] as int].player.uuid);
                        }
                    }
                    assert forall|j: int| 0 <= j < i + 1 implies covered(s, latest@, (#[trigger] s[j]).player.uuid) by {
                        if j == i {
                            assert(s[latest@[p as int] as int].player.uuid == s[j].player.uuid);
                        }
                    }
                }
            }
        }
        i = i + 1;
    }
    latest
}

/// The players of the latest sightings, grouped by server (in order of first
/// appearance).
fn group_latest(state: &State, latest: &Vec<usize>) -> (groups: Vec<(Server, Vec<Player>)>)
    requires
        state.wf(),
        forall|a: int| 0 <= a < latest@.len() ==> #[trigger] latest@[a] < state.online_players@.len(),
        forall|a: int, b: int| 0 <= a < latest@.len() && 0 <= b < latest@.len() && a != b ==> state.online_players@[#[trigger] latest@[a] as int].player.uuid
            != state.online_players@[#[trigger] latest@[b] as int].player.uuid,
        forall|a: int, j: int| 0 <= a < latest@.len() && 0 <= j < state.online_players@.len()
            && (#[trigger] state.online_players@[j]).player.uuid == state.online_players@[#[trigger] latest@[a] as int].player.uuid
            ==> preferred(state.online_players@[latest@[a] as int], state.online_players@[j]),
        forall|j: int| 0 <= j < state.online_players@.len() ==> covered(state.online_players@, latest@, (#[trigger] state.online_players@[j]).player.uuid),
    ensures
        groups_cover(state@.players, groups@),
{
    let ghost s = state.online_players@;
    let ghost pairs = sighting_pairs(s);
    let ghost m = state@.players;
    proof {
        state.lemma_unfold();
    }
    let mut groups: Vec<(Server, Vec<Player>)> = Vec::new();
    let n = latest.len();
    let mut a: usize = 0;
    while a < n
        invariant
            n == latest@.len(),
            a <= n,
            s == state.online_players@,
            forall|x: int| 0 <= x < latest@.len() ==> #[trigger] latest@[x] < s.len(),
            forall|x: int, y: int| 0 <= x < latest@.len() && 0 <= y < latest@.len() && x != y ==> s[#[trigger] latest@[x] as int].player.uuid
                != s[#[trigger] latest@[y] as int].player.uuid,
            forall|i: int, j: int| 0 <= i < groups@.len() && 0 <= j < groups@.len() && i != j ==> (#[trigger] groups@[i]).0@ != (#[trigger] groups@[j]).0@,
            forall|i: int| 0 <= i < groups@.len() ==> (#[trigger] groups@[i]).1@.len() > 0,
            forall|i: int, b: int| 0 <= i < groups@.len() && 0 <= b < groups@[i].1@.len() ==> placed_from(s, latest@, a as int, groups@[i].0@, #[trigger] groups@[i].1@[b]),
            forall|i: int, b: int, j: int, c: int|
                0 <= i < groups@.len() && 0 <= b < groups@[i].1@.len() && 0 <= j < groups@.len() && 0 <= c < groups@[j].1@.len() && (i != j || b != c)
                    ==> (#[trigger] groups@[i].1@[b]).uuid != (#[trigger] groups@[j].1@[c]).uuid,
            forall|x: int| 0 <= x < a ==> lists_uuid(groups@, s[#[trigger] latest@[x] as int].player.uuid),
        decreases n - a,
    {
        let k = latest[a];
        let sighting = &state.online_players[k];
        let mut q: usize = 0;
        while q < groups.len() && !groups[q].0.same_as(&sighting.server)
            invariant
                q <= groups@.len(),
                forall|r: int| 0 <= r < q ==> (#[trigger] groups@[r]).0@ != sighting.server@,
            decreases groups@.len() - q,
        {
            q = q + 1;
        }
        let ghost before = groups@;
        let player = sighting.player.clone();
        proof {
            // the new player's UUID differs from every one placed so far
            assert forall|i: int, b: int| 0 <= i < before.len() && 0 <= b < before[i].1@.len() implies (#[trigger] before[i].1@[b]).uuid != player.uuid by {
                let x = choose|x: int| 0 <= x < a && s[#[trigger] latest@[x] as int].server@ == before[i].0@ && s[latest@[x] as int].player == before[i].1@[b];
                assert(x != a);
            }
        }
        if q == groups.len() {
            groups.push((sighting.server.clone(), vec![player]));
            proof {
                let new_g = groups@[before.len() as int];
                assert(new_g.1@.len() == 1);
                assert(new_g.1@[0] == player);
                assert forall|i: int, j: int| 0 <= i < groups@.len() && 0 <= j < groups@.len() && i != j implies (#[trigger] groups@[i]).0@ != (#[trigger] groups@[j]).0@ by {
                    if i < before.len() && j < before.len() {
                        assert(groups@[i] == before[i] && groups@[j] == before[j]);
                    } else if i < before.len() {
                        assert(groups@[i] == before[i]);
                    } else {
                        assert(groups@[j] == before[j]);
                    }
                }
                assert forall|i: int| 0 <= i < groups@.len() implies (#[trigger] groups@[i]).1@.len() > 0 by {
                    if i < before.len() {
                        assert(groups@[i] == before[i]);
                    }
                }
                assert forall|i: int, b: int| 0 <= i < groups@.len() && 0 <= b < groups@[i].1@.len() implies placed_from(s, latest@, a + 1, groups@[i].0@, #[trigger] groups@[i].1@[b]) by {
                    if i < before.len() {
                        assert(groups@[i] == before[i]);
                        let x = choose|x: int| 0 <= x < a && s[#[trigger] latest@[x] as int].server@ == before[i].0@ && s[latest@[x] as int].player == before[i].1@[b];
                        assert(0 <= x < a + 1 && s[latest@[x] as int].server@ == groups@[i].0@ && s[latest@[x] as int].player == groups@[i].1@[b]);
                    } else {
                        assert(0 <= a < a + 1 && s[latest@[a as int] as int].server@ == groups@[i].0@ && s[latest@[a as int] as int].player == groups@[i].1@[b]);
                    }
                }
                assert forall|i: int, b: int, j: int, c: int|
                    0 <= i < groups@.len() && 0 <= b < groups@[i].1@.len() && 0 <= j < groups@.len() && 0 <= c < groups@[j].1@.len() && (i != j || b != c)
                        implies (#[trigger] groups@[i].1@[b]).uuid != (#[trigger] groups@[j].1@[c]).uuid by {
                    if i < before.len() {
                        assert(groups@[i] == before[i]);
                    }
                    if j < before.len() {
                        assert(groups@[j] == before[j]);
                    }
                }
                assert forall|x: int| 0 <= x < a + 1 implies lists_uuid(groups@, s[#[trigger] latest@[x] as int].player.uuid) by {
                    if x < a {
                        let u = s[latest@[x] as int].player.uuid;
                        assert(lists_uuid(before, u));
                        let (i, b) = choose|i: int, b: int| 0 <= i < before.len() && 0 <= b < before[i].1@.len() && (#[trigger] before[i].1@[b]).uuid == u;
                        assert(groups@[i] == before[i]);
                        assert(groups@[i].1@[b].uuid == u);
                    } else {
                        assert(groups@[before.len() as int].1@[0].uuid == s[latest@[x] as int].player.uuid);
                    }
                }
            }
        } else {
            let ghost old_players = before[q as int].1@;
            groups[q].1.push(player);
            proof {
                assert(groups@[q as int].1@ =~= old_players.push(player));
                assert(groups@[q as int].0 == before[q as int].0);
                assert forall|i: int| i != q && 0 <= i < groups@.len() implies #[trigger] groups@[i] == before[i] by {}
                assert forall|i: int, j: int| 0 <= i < groups@.len() && 0 <= j < groups@.len() && i != j implies (#[trigger] groups@[i]).0@ != (#[trigger] groups@[j]).0@ by {
                    assert(groups@[i].0 == before[i].0 && groups@[j].0 == before[j].0);
                }
                assert forall|i: int| 0 <= i < groups@.len() implies (#[trigger] groups@[i]).1@.len() > 0 by {
                    if i != q {
                        assert(groups@[i] == before[i]);
                    }
                }
                assert forall|i: int, b: int| 0 <= i < groups@.len() && 0 <= b < groups@[i].1@.len() implies placed_from(s, latest@, a + 1, groups@[i].0@, #[trigger] groups@[i].1@[b]) by {
                    if i != q || b < old_players.len() {
                        assert(groups@[i].0 == before[i].0 && groups@[i].1@[b] == before[i].1@[b]);
                        let x = choose|x: int| 0 <= x < a && s[#[trigger] latest@[x] as int].server@ == before[i].0@ && s[latest@[x] as int].player == before[i].1@[b];
                        assert(0 <= x < a + 1 && s[latest@[x] as int].server@ == groups@[i].0@ && s[latest@[x] as int].player == groups@[i].1@[b]);
                    } else {
                        assert(0 <= a < a + 1 && s[latest@[a as int] as int].server@ == groups@[i].0@ && s[latest@[a as int] as int].player == groups@[i].1@[b]);
                    }
                }
                assert forall|i: int, b: int, j: int, c: int|
                    0 <= i < groups@.len() && 0 <= b < groups@[i].1@.len() && 0 <= j < groups@.len() && 0 <= c < groups@[j].1@.len() && (i != j || b != c)
                        implies (#[trigger] groups@[i].1@[b]).uuid != (#[trigger] groups@[j].1@[c]).uuid by {
                    let new_b = i == q && b == old_players.len();
                    let new_c = j == q && c == old_players.len();
                    if !new_b {
                        assert(groups@[i].1@[b] == before[i].1@[b]);
                    }
                    if !new_c {
                        assert(groups@[j].1@[c] == before[j].1@[c]);
                    }
                }
                assert forall|x: int| 0 <= x < a + 1 implies lists_uuid(groups@, s[#[trigger] latest@[x] as int].player.uuid) by {
                    if x < a {
                        let u = s[latest@[x] as int].player.uuid;
                        assert(lists_uuid(before, u));
                        let (i, b) = choose|i: int, b: int| 0 <= i < before.len() && 0 <= b < before[i].1@.len() && (#[trigger] before[i].1@[b]).uuid == u;
                        assert(groups@[i].1@[b] == before[i].1@[b]);
                    } else {
                        assert(groups@[q as int].1@[old_players.len() as int].uuid == s[latest@[x] as int].player.uuid);
                    }
                }
            }
        }
        a = a + 1;
    }
    proof {
        assert forall|i: int, b: int| 0 <= i < groups@.len() && 0 <= b < groups@[i].1@.len() implies listed_under(m, groups@[i].0@, (#[trigger] groups@[i].1@[b])@) by {
            let x = choose|x: int| 0 <= x < n && s[#[trigger] latest@[x] as int].server@ == groups@[i].0@ && s[latest@[x] as int].player == groups@[i].1@[b];
            let k = latest@[x] as int;
            let u = s[k].player.uuid;
            lemma_assoc_at(pairs, k);
            assert(pairs[k] == crate::app::state::sighting_pair(s[k]));
            assert forall|s2: ServerView| #[trigger] m.contains_key((s2, u)) implies m[(s2, u)].1 < m[(groups@[i].0@, u)].1 || (m[(s2, u)].1
                == m[(groups@[i].0@, u)].1 && key_le(server_key(groups@[i].0@), server_key(s2))) by {
                assert(has_key(pairs, (s2, u)));
                let j = choose|j: int| 0 <= j < pairs.len() && #[trigger] pairs[j].0 == (s2, u);
                assert(pairs[j] == crate::app::state::sighting_pair(s[j]));
                lemma_assoc_at(pairs, j);
                assert(s[j].player.uuid == s[latest@[x] as int].player.uuid);
            }
        }
        assert forall|u: u128| #[trigger] online_anywhere(m, u) implies lists_uuid(groups@, u) by {
            let sv = choose|sv: ServerView| #[trigger] m.contains_key((sv, u));
            assert(has_key(pairs, (sv, u)));
            let j = choose|j: int| 0 <= j < pairs.len() && #[trigger] pairs[j].0 == (sv, u);
            assert(pairs[j] == crate::app::state::sighting_pair(s[j]));
            assert(covered(s, latest@, s[j].player.uuid));
            let x = choose|x: int| 0 <= x < latest@.len() && s[#[trigger] latest@[x] as int].player.uuid == s[j].player.uuid;
        }
    }
    groups
}

/// `b` holds the players of `a` in some order.
pub open spec fn reorders(a: Seq<Player>, b: Seq<Player>) -> bool {
    exists|perm: Seq<int>| permuted(a, b, perm)
}

/// Reordering the players within each group keeps the groups covering.
proof fn lemma_cover_reorder_players(
    m: Map<(ServerView, u128), (PlayerView, u64)>,
    g0: Seq<(Server, Vec<Player>)>,
    g1: Seq<(Server, Vec<Player>)>,
)
    requires
        groups_cover(m, g0),
        g1.len() == g0.len(),
        forall|i: int| 0 <= i < g0.len() ==> (#[trigger] g1[i]).0 == g0[i].0,
        forall|i: int| 0 <= i < g0.len() ==> reorders((#[trigger] g0[i]).1@, g1[i].1@),
    ensures
        groups_cover(m, g1),
{
    assert forall|i: int| 0 <= i < g1.len() implies (#[trigger] g1[i]).1@.len() == g0[i].1@.len() by {
        assert(g0[i] == g0[i]);
    }
    assert forall|i: int, j: int| 0 <= i < g1.len() && 0 <= j < g1.len() && i != j implies (#[trigger] g1[i]).0@ != (#[trigger] g1[j]).0@ by {
        assert(g0[i].0@ != g0[j].0@);
    }
    assert forall|i: int| 0 <= i < g1.len() implies (#[trigger] g1[i]).1@.len() > 0 by {
        assert(g0[i].1@.len() > 0);
    }
    assert forall|i: int, a: int| 0 <= i < g1.len() && 0 <= a < g1[i].1@.len() implies listed_under(m, g1[i].0@, (#[trigger] g1[i].1@[a])@) by {
        assert(g0[i] == g0[i]);
        let perm = choose|perm: Seq<int>| permuted(g0[i].1@, g1[i].1@, perm);
        assert(g1[i].1@[a] == g0[i].1@[perm[a]]);
    }
    assert forall|i: int, a: int, j: int, b: int|
        0 <= i < g1.len() && 0 <= a < g1[i].1@.len() && 0 <= j < g1.len() && 0 <= b < g1[j].1@.len() && (i != j || a != b)
            implies (#[trigger] g1[i].1@[a]).uuid != (#[trigger] g1[j].1@[b]).uuid by {
        assert(g0[i] == g0[i] && g0[j] == g0[j]);
        let pi = choose|perm: Seq<int>| permuted(g0[i].1@, g1[i].1@, perm);
        let pj = choose|perm: Seq<int>| permuted(g0[j].1@, g1[j].1@, perm);
        assert(g1[i].1@[a] == g0[i].1@[pi[a]]);
        assert(g1[j].1@[b] == g0[j].1@[pj[b]]);
        if i == j {
            assert(pi == pj);
            assert(pi[a] != pi[b]);
        }
    }
    assert forall|u: u128| #[trigger] online_anywhere(m, u) implies lists_uuid(g1, u) by {
        let (i, a) = choose|i: int, a: int| 0 <= i < g0.len() && 0 <= a < g0[i].1@.len() && (#[trigger] g0[i].1@[a]).uuid == u;
        let perm = choose|perm: Seq<int>| permuted(g0[i].1@, g1[i].1@, perm);
        assert(hits(perm, a));
        let b = choose|b: int| 0 <= b < perm.len() && #[trigger] perm[b] == a;
        assert(g1[i].1@[b] == g0[i].1@[a]);
    }
}

/// Reordering the groups keeps them covering, and keeps each group's order.
proof fn lemma_cover_reorder_groups(
    m: Map<(ServerView, u128), (PlayerView, u64)>,
    g1: Seq<(Server, Vec<Player>)>,
    g2: Seq<(Server, Vec<Player>)>,
    perm: Seq<int>,
)
    requires
        groups_cover(m, g1),
        permuted(g1, g2, perm),
        forall|i: int, a: int, b: int| 0 <= i < g1.len() && 0 <= a < b < g1[i].1@.len() ==> key_le(
            player_key((#[trigger] g1[i].1@[a])@),
            player_key((#[trigger] g1[i].1@[b])@),
        ),
    ensures
        groups_cover(m, g2),
        forall|i: int, a: int, b: int| 0 <= i < g2.len() && 0 <= a < b < g2[i].1@.len() ==> key_le(
            player_key((#[trigger] g2[i].1@[a])@),
            player_key((#[trigger] g2[i].1@[b])@),
        ),
{
    assert forall|i: int, j: int| 0 <= i < g2.len() && 0 <= j < g2.len() && i != j implies (#[trigger] g2[i]).0@ != (#[trigger] g2[j]).0@ by {
        assert(g2[i] == g1[perm[i]] && g2[j] == g1[perm[j]]);
    }
    assert forall|i: int| 0 <= i < g2.len() implies (#[trigger] g2[i]).1@.len() > 0 by {
        assert(g2[i] == g1[perm[i]]);
    }
    assert forall|i: int, a: int| 0 <= i < g2.len() && 0 <= a < g2[i].1@.len() implies listed_under(m, g2[i].0@, (#[trigger] g2[i].1@[a])@) by {
        assert(g2[i] == g1[perm[i]]);
        assert(g1[perm[i]].1@[a] == g2[i].1@[a]);
    }
    assert forall|i: int, a: int, j: int, b: int|
        0 <= i < g2.len() && 0 <= a < g2[i].1@.len() && 0 <= j < g2.len() && 0 <= b < g2[j].1@.len() && (i != j || a != b)
            implies (#[trigger] g2[i].1@[a]).uuid != (#[trigger] g2[j].1@[b]).uuid by {
        assert(g2[i] == g1[perm[i]] && g2[j] == g1[perm[j]]);
        assert(g1[perm[i]].1@[a] == g2[i].1@[a]);
        assert(g1[perm[j]].1@[b] == g2[j].1@[b]);
    }
    assert forall|u: u128| #[trigger] online_anywhere(m, u) implies lists_uuid(g2, u) by {
        let (i, a) = choose|i: int, a: int| 0 <= i < g1.len() && 0 <= a < g1[i].1@.len() && (#[trigger] g1[i].1@[a]).uuid == u;
        assert(hits(perm, i));
        let k = choose|k: int| 0 <= k < perm.len() && #[trigger] perm[k] == i;
        assert(g2[k] == g1[i]);
        assert(g2[k].1@[a] == g1[i].1@[a]);
    }
    assert forall|i: int, a: int, b: int| 0 <= i < g2.len() && 0 <= a < b < g2[i].1@.len() implies key_le(
        player_key((#[trigger] g2[i].1@[a])@),
        player_key((#[trigger] g2[i].1@[b])@),
    ) by {
        assert(g2[i] == g1[perm[i]]);
        assert(g1[perm[i]].1@[a] == g2[i].1@[a]);
        assert(g1[perm[i]].1@[b] == g2[i].1@[b]);
    }
}

/// Puts players in player order.
fn sort_players(players: Vec<Player>) -> (res: Vec<Player>)
    ensures
        exists|perm: Seq<int>| permuted(players@, res@, perm),
        forall|a: int, b: int| 0 <= a < b < res@.len() ==> key_le(player_key((#[trigger] res@[a])@), player_key((#[trigger] res@[b])@)),
{
    let ghost orig = players@;
    let n = players.len();
    let mut rest = players;
    let mut keyed: Vec<(SortKey, Player)> = Vec::new();
    while rest.len() > 0
        invariant
            n == orig.len(),
            keyed@.len() + rest@.len() == n,
            rest@ == orig.skip(keyed@.len() as int),
            forall|x: int| 0 <= x < keyed@.len() ==> (#[trigger] keyed@[x]).1 == orig[x] && keyed@[x].0@ == player_key(orig[x]@),
        decreases rest@.len(),
    {
        let p = rest.remove(0);
        let key = SortKey { primary: to_lowercase(p.nickname.as_str()), secondary: p.nickname.clone(), tag: p.uuid };
        proof {
            assert(p == orig[keyed@.len() as int]);
        }
        keyed.push((key, p));
        proof {
            assert(rest@ =~= orig.skip(keyed@.len() as int));
        }
    }
    let sorted = sort_by_key(keyed);
    let ghost keyed_all = keyed@;
    let ghost sorted_all = sorted@;
    let mut src = sorted;
    let mut res: Vec<Player> = Vec::new();
    while src.len() > 0
        invariant
            res@.len() + src@.len() == n,
            sorted_all.len() == n,
            src@ == sorted_all.skip(res@.len() as int),
            forall|x: int| 0 <= x < res@.len() ==> #[trigger] res@[x] == sorted_all[x].1,
        decreases src@.len(),
    {
        let e = src.remove(0);
        proof {
            assert(e == sorted_all[res@.len() as int]);
        }
        res.push(e.1);
        proof {
            assert(src@ =~= sorted_all.skip(res@.len() as int));
        }
    }
    proof {
        let perm = choose|perm: Seq<int>| permuted(keyed_all, sorted_all, perm);
        assert(permuted(orig, res@, perm));
        assert forall|a: int, b: int| 0 <= a < b < res@.len() implies key_le(player_key((#[trigger] res@[a])@), player_key((#[trigger] res@[b])@)) by {
            assert(sorted_all[a] == keyed_all[perm[a]] && sorted_all[b] == keyed_all[perm[b]]);
            assert(key_le(sorted_all[a].0@, sorted_all[b].0@));
        }
    }
    res
}

/// Puts groups in server order.
fn sort_groups(groups: Vec<(Server, Vec<Player>)>) -> (res: Vec<(Server, Vec<Player>)>)
    ensures
        exists|perm: Seq<int>| permuted(groups@, res@, perm),
        forall|i: int, j: int| 0 <= i < j < res@.len() ==> key_le(server_key((#[trigger] res@[i]).0@), server_key((#[trigger] res@[j]).0@)),
{
    let ghost orig = groups@;
    let n = groups.len();
    let mut rest = groups;
    let mut keyed: Vec<(SortKey, (Server, Vec<Player>))> = Vec::new();
    while rest.len() > 0
        invariant
            n == orig.len(),
            keyed@.len() + rest@.len() == n,
            rest@ == orig.skip(keyed@.len() as int),
            forall|x: int| 0 <= x < keyed@.len() ==> (#[trigger] keyed@[x]).1 == orig[x] && keyed@[x].0@ == server_key(orig[x].0@),
        decreases rest@.len(),
    {
        let g = rest.remove(0);
        let key = SortKey { primary: g.0.slug.clone(), secondary: g.0.nickname.clone(), tag: 0 };
        proof {
            assert(g == orig[keyed@.len() as int]);
        }
        keyed.push((key, g));
        proof {
            assert(rest@ =~= orig.skip(keyed@.len() as int));
        }
    }
    let sorted = sort_by_key(keyed);
    let ghost keyed_all = keyed@;
    let ghost sorted_all = sorted@;
    let mut src = sorted;
    let mut res: Vec<(Server, Vec<Player>)> = Vec::new();
    while src.len() > 0
        invariant
            res@.len() + src@.len() == n,
            sorted_all.len() == n,
            src@ == sorted_all.skip(res@.len() as int),
            forall|x: int| 0 <= x < res@.len() ==> #[trigger] res@[x] == sorted_all[x].1,
        decreases src@.len(),
    {
        let e = src.remove(0);
        proof {
            assert(e == sorted_all[res@.len() as int]);
        }
        res.push(e.1);
        proof {
            assert(src@ =~= sorted_all.skip(res@.len() as int));
        }
    }
    proof {
        let perm = choose|perm: Seq<int>| permuted(keyed_all, sorted_all, perm);
        assert(permuted(orig, res@, perm));
        assert forall|i: int, j: int| 0 <= i < j < res@.len() implies key_le(server_key((#[trigger] res@[i]).0@), server_key((#[trigger] res@[j]).0@)) by {
            assert(sorted_all[i] == keyed_all[perm[i]] && sorted_all[j] == keyed_all[perm[j]]);
            assert(key_le(sorted_all[i].0@, sorted_all[j].0@));
        }
    }
    res
}

/// The player list: each online player once, under the server of its most
/// recent heartbeat; servers in server order, players in player order.
pub fn player_groups(state: &State) -> (groups: Vec<(Server, Vec<Player>)>)
    ensures
        valid_listing(state@.players, groups@),
{
    proof {
        use_type_invariant(state);
    }
    let latest = latest_sightings(state);
    let grouped = group_latest(state, &latest);
    let ghost g0 = grouped@;
    let n = grouped.len();
    let mut rest = grouped;
    let mut reordered: Vec<(Server, Vec<Player>)> = Vec::new();
    while rest.len() > 0
        invariant
            n == g0.len(),
            reordered@.len() + rest@.len() == n,
            rest@ == g0.skip(reordered@.len() as int),
            forall|i: int| 0 <= i < reordered@.len() ==> (#[trigger] reordered@[i]).0 == g0[i].0,
            forall|i: int| 0 <= i < reordered@.len() ==> reorders((#[trigger] g0[i]).1@, reordered@[i].1@),
            forall|i: int, a: int, b: int| 0 <= i < reordered@.len() && 0 <= a < b < reordered@[i].1@.len() ==> key_le(
                player_key((#[trigger] reordered@[i].1@[a])@),
                player_key((#[trigger] reordered@[i].1@[b])@),
            ),
        decreases rest@.len(),
    {
        let g = rest.remove(0);
        proof {
            assert(g == g0[reordered@.len() as int]);
        }
        let (server, players) = g;
        let ghost pl = players@;
        let sorted = sort_players(players);
        let ghost new_perm = choose|perm: Seq<int>| permuted(pl, sorted@, perm);
        let ghost before = reordered@;
        reordered.push((server, sorted));
        proof {
            assert(rest@ =~= g0.skip(reordered@.len() as int));
            assert forall|i: int| 0 <= i < reordered@.len() implies reorders((#[trigger] g0[i]).1@, reordered@[i].1@) by {
                if i < before.len() {
                    assert(reordered@[i] == before[i]);
                } else {
                    assert(g0[i].1@ == pl);
                    assert(permuted(g0[i].1@, reordered@[i].1@, new_perm));
                }
            }
            assert forall|i: int, a: int, b: int| 0 <= i < reordered@.len() && 0 <= a < b < reordered@[i].1@.len() implies key_le(
                player_key((#[trigger] reordered@[i].1@[a])@),
                player_key((#[trigger] reordered@[i].1@[b])@),
            ) by {
                if i < before.len() {
                    assert(reordered@[i] == before[i]);
                }
            }
        }
    }
    proof {
        lemma_cover_reorder_players(state@.players, g0, reordered@);
    }
    let ghost g1 = reordered@;
    let res = sort_groups(reordered);
    proof {
        let perm = choose|perm: Seq<int>| permuted(g1, res@, perm);
        lemma_cover_reorder_groups(state@.players, g1, res@, perm);
    }
    res
}

/// A server's name: green, suggesting `!!goto <slug>` on click.
pub open spec fn server_segment(s: ServerView) -> SegmentView {
    SegmentView::Styled {
        text: s.nickname,
        color: Some(NamedColor::Green),
        suggest_command: Some("!!goto "@ + s.slug),
        hover: Some(HoverView::ShowText("点击前往"@)),
    }
}

/// A player's name: yellow, showing the player entity on hover.
pub open spec fn player_segment(p: PlayerView) -> SegmentView {
    SegmentView::Styled {
        text: p.nickname,
        color: Some(NamedColor::Yellow),
        suggest_command: None,
        hover: Some(HoverView::ShowEntity { name: p.nickname, id: "minecraft:player"@, uuid: hyphenated(p.uuid) }),
    }
}

/// The white comma between two players.
pub open spec fn separator_segment() -> SegmentView {
    SegmentView::Styled { text: ", "@, color: Some(NamedColor::White), suggest_command: None, hover: None }
}

/// The players of one server, separated by commas.
pub open spec fn players_segments(ps: Seq<Player>) -> Seq<SegmentView>
    decreases ps.len(),
{
    if ps.len() == 0 {
        seq![]
    } else if ps.len() == 1 {
        seq![player_segment(ps[0]@)]
    } else {
        players_segments(ps.drop_last()).push(separator_segment()).push(player_segment(ps.last()@))
    }
}

/// One server's line: a line break before all but the first, the server's
/// name, a space, and its players.
pub open spec fn group_segments(first: bool, g: (Server, Vec<Player>)) -> Seq<SegmentView> {
    (if first {
        seq![]
    } else {
        seq![SegmentView::Plain("\n"@)]
    }) + seq![server_segment(g.0@), SegmentView::Plain(" "@)] + players_segments(g.1@)
}

/// The rich text of a player list.
pub open spec fn list_segments(gs: Seq<(Server, Vec<Player>)>) -> Seq<SegmentView>
    decreases gs.len(),
{
    if gs.len() == 0 {
        seq![]
    } else {
        list_segments(gs.drop_last()) + group_segments(gs.len() == 1, gs.last())
    }
}

fn server_text(server: &Server) -> (res: TextSegment)
    ensures
        res@ == server_segment(server@),
{
    let mut command = String::from_str("!!goto ");
    command.append(server.slug.as_str());
    TextSegment::Styled {
        text: server.nickname.clone(),
        color: Some(NamedColor::Green),
        suggest_command: Some(command),
        hover: Some(Hover::ShowText(String::from_str("点击前往"))),
    }
}

fn player_text(player: &Player) -> (res: TextSegment)
    ensures
        res@ == player_segment(player@),
{
    TextSegment::Styled {
        text: player.nickname.clone(),
        color: Some(NamedColor::Yellow),
        suggest_command: None,
        hover: Some(
            Hover::ShowEntity {
                name: player.nickname.clone(),
                id: String::from_str("minecraft:player"),
                uuid: uuid_string(player.uuid),
            },
        ),
    }
}

/// Renders player groups as rich text.
pub fn render_list(groups: &Vec<(Server, Vec<Player>)>) -> (res: Vec<TextSegment>)
    ensures
        segments_view(res@) == list_segments(groups@),
{
    let mut out: Vec<TextSegment> = Vec::new();
    let n = groups.len();
    let mut i: usize = 0;
    proof {
        assert(groups@.take(0) =~= Seq::<(Server, Vec<Player>)>::empty());
        assert(segments_view(out@) =~= list_segments(groups@.take(0)));
    }
    while i < n
        invariant
            n == groups@.len(),
            i <= n,
            segments_view(out@) == list_segments(groups@.take(i as int)),
        decreases n - i,
    {
        let ghost start = segments_view(out@);
        let group = &groups[i];
        if i > 0 {
            out.push(plain("\n"));
        }
        out.push(server_text(&group.0));
        out.push(plain(" "));
        let ghost head = segments_view(out@);
        proof {
            assert(head =~= start + (if i == 0 { seq![] } else { seq![SegmentView::Plain("\n"@)] }) + seq![server_segment(group.0@), SegmentView::Plain(" "@)]);
            assert(group.1@.take(0) =~= Seq::<Player>::empty());
            assert(segments_view(out@) =~= head + players_segments(group.1@.take(0)));
        }
        let m = group.1.len();
        let mut j: usize = 0;
        while j < m
            invariant
                m == group.1@.len(),
                j <= m,
                segments_view(out@) == head + players_segments(group.1@.take(j as int)),
            decreases m - j,
        {
            let ghost prev = segments_view(out@);
            if j > 0 {
                out.push(colored(", ", NamedColor::White));
            }
            out.push(player_text(&group.1[j]));
            proof {
                let ps = group.1@.take(j + 1);
                assert(ps.drop_last() =~= group.1@.take(j as int));
                assert(ps.last() == group.1@[j as int]);
                if j == 0 {
                    assert(segments_view(out@) =~= head + players_segments(ps));
                } else {
                    assert(segments_view(out@) =~= prev.push(separator_segment()).push(player_segment(group.1@[j as int]@)));
                    assert(segments_view(out@) =~= head + players_segments(ps));
                }
            }
            j = j + 1;
        }
        proof {
            assert(group.1@.take(m as int) =~= group.1@);
            let gs = groups@.take(i + 1);
            assert(gs.drop_last() =~= groups@.take(i as int));
            assert(gs.last() == groups@[i as int]);
            assert(segments_view(out@) =~= list_segments(gs));
        }
        i = i + 1;
    }
    proof {
        assert(groups@.take(n as int) =~= groups@);
    }
    out
}

/// The player list as rich text: the rendering of the valid listing of who
/// is online, which the sightings determine.
pub fn list(state: &State) -> (res: Vec<TextSegment>)
    ensures
        segments_view(res@) == listing_text(state@.players),
        exists|g: Seq<(Server, Vec<Player>)>| valid_listing(state@.players, g) && segments_view(res@) == list_segments(g),
{
    let groups = player_groups(state);
    proof {
        law_listing_text(state@.players, groups@);
    }
    render_list(&groups)
}

/// The number of players a player list names.
pub open spec fn listed_count(g: Seq<(Server, Vec<Player>)>) -> nat
    decreases g.len(),
{
    if g.len() == 0 {
        0
    } else {
        listed_count(g.drop_last()) + g.last().1@.len()
    }
}

/// The UUIDs of a group's players.
pub open spec fn group_uuids(ps: Seq<Player>) -> Set<u128> {
    ps.map_values(|p: Player| p.uuid).to_set()
}

/// The UUIDs of all players a player list names.
pub open spec fn listed_uuids(g: Seq<(Server, Vec<Player>)>) -> Set<u128>
    decreases g.len(),
{
    if g.len() == 0 {
        Set::empty()
    } else {
        listed_uuids(g.drop_last()).union(group_uuids(g.last().1@))
    }
}

proof fn lemma_listed_prefix(g: Seq<(Server, Vec<Player>)>, n: int)
    requires
        0 <= n <= g.len(),
        forall|i: int, a: int, j: int, b: int|
            0 <= i < g.len() && 0 <= a < g[i].1@.len() && 0 <= j < g.len() && 0 <= b < g[j].1@.len() && (i != j || a != b)
                ==> (#[trigger] g[i].1@[a]).uuid != (#[trigger] g[j].1@[b]).uuid,
    ensures
        listed_uuids(g.take(n)).finite(),
        listed_uuids(g.take(n)).len() == listed_count(g.take(n)),
        forall|u: u128| #[trigger] listed_uuids(g.take(n)).contains(u) <==> exists|i: int, a: int|
            0 <= i < n && 0 <= a < g[i].1@.len() && (#[trigger] g[i].1@[a]).uuid == u,
    decreases n,
{
    let t = g.take(n);
    if n == 0 {
        assert(t =~= Seq::<(Server, Vec<Player>)>::empty());
    } else {
        lemma_listed_prefix(g, n - 1);
        let prev = g.take(n - 1);
        assert(t.drop_last() =~= prev);
        assert(t.last() == g[n - 1]);
        let ps = g[n - 1].1@;
        let us = ps.map_values(|p: Player| p.uuid);
        assert forall|a: int, b: int| 0 <= a < us.len() && 0 <= b < us.len() && a != b implies us[a] != us[b] by {
            assert(us[a] == g[n - 1].1@[a].uuid && us[b] == g[n - 1].1@[b].uuid);
        }
        assert(us.no_duplicates());
        us.unique_seq_to_set();
        let gs = group_uuids(ps);
        assert forall|u: u128| #[trigger] gs.contains(u) <==> exists|b: int| 0 <= b < ps.len() && ps[b].uuid == u by {
            if gs.contains(u) {
                let b = choose|b: int| 0 <= b < us.len() && us[b] == u;
                assert(ps[b].uuid == u);
            }
            if exists|b: int| 0 <= b < ps.len() && ps[b].uuid == u {
                let b = choose|b: int| 0 <= b < ps.len() && ps[b].uuid == u;
                assert(us[b] == u);
                assert(us.contains(u));
            }
        }
        let pu = listed_uuids(prev);
        assert(pu.disjoint(gs)) by {
            assert forall|u: u128| pu.contains(u) implies !gs.contains(u) by {
                let (i, a) = choose|i: int, a: int| 0 <= i < n - 1 && 0 <= a < g[i].1@.len() && (#[trigger] g[i].1@[a]).uuid == u;
                if gs.contains(u) {
                    let b = choose|b: int| 0 <= b < ps.len() && ps[b].uuid == u;
                    assert(g[n - 1].1@[b].uuid == u);
                }
            }
        }
        vstd::set_lib::lemma_set_disjoint_lens(pu, gs);
        assert(listed_uuids(t) == pu.union(gs));
        assert forall|u: u128| #[trigger] listed_uuids(t).contains(u) <==> exists|i: int, a: int|
            0 <= i < n && 0 <= a < g[i].1@.len() && (#[trigger] g[i].1@[a]).uuid == u by {
            if exists|i: int, a: int| 0 <= i < n && 0 <= a < g[i].1@.len() && (#[trigger] g[i].1@[a]).uuid == u {
                let (i, a) = choose|i: int, a: int| 0 <= i < n && 0 <= a < g[i].1@.len() && (#[trigger] g[i].1@[a]).uuid == u;
                if i < n - 1 {
                    assert(pu.contains(u));
                } else {
                    assert(ps[a].uuid == u);
                    assert(gs.contains(u));
                }
            }
            if pu.contains(u) {
                let (i, a) = choose|i: int, a: int| 0 <= i < n - 1 && 0 <= a < g[i].1@.len() && (#[trigger] g[i].1@[a]).uuid == u;
                assert(0 <= i < n && 0 <= a < g[i].1@.len() && g[i].1@[a].uuid == u);
            }
            if gs.contains(u) {
                let b = choose|b: int| 0 <= b < ps.len() && ps[b].uuid == u;
                assert(0 <= n - 1 < n && 0 <= b < g[n - 1].1@.len() && g[n - 1].1@[b].uuid == u);
            }
        }
    }
}

/// The player list names as many players as are online: each online player
/// exactly once, whatever the number of servers they are on.
pub proof fn law_list_counts_online_players(m: Map<(ServerView, u128), (PlayerView, u64)>, g: Seq<(Server, Vec<Player>)>)
    requires
        valid_listing(m, g),
    ensures
        online_uuids(m).finite(),
        listed_count(g) == online_uuids(m).len(),
{
    lemma_listed_prefix(g, g.len() as int);
    assert(g.take(g.len() as int) =~= g);
    assert forall|u: u128| #[trigger] listed_uuids(g).contains(u) <==> online_uuids(m).contains(u) by {
        if listed_uuids(g).contains(u) {
            let (i, a) = choose|i: int, a: int| 0 <= i < g.len() && 0 <= a < g[i].1@.len() && (#[trigger] g[i].1@[a]).uuid == u;
            assert(listed_under(m, g[i].0@, g[i].1@[a]@));
            assert(m.contains_key((g[i].0@, u)));
        }
        if online_uuids(m).contains(u) {
            assert(online_anywhere(m, u));
            assert(lists_uuid(g, u));
        }
    }
    assert(listed_uuids(g) =~= online_uuids(m));
}

} // verus!
