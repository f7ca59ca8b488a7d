//! The player list is determined by the sightings: every valid listing of
//! the same sightings renders to the same text.
use vstd::prelude::*;

use crate::app::state::online_anywhere;
use crate::richtext::list::{
    group_segments, is_latest, list_segments, listed_under, lists_uuid, player_key, players_segments, server_key,
    valid_listing,
};
use crate::richtext::SegmentView;
use crate::text::{key_le, lemma_key_le_antisym, SortKeyView};
use crate::types::{Player, PlayerView, Server, ServerView};

verus! {

/// The text of the player list for the sightings `m`.
pub open spec fn listing_text(m: Map<(ServerView, u128), (PlayerView, u64)>) -> Seq<SegmentView> {
    list_segments(choose|g: Seq<(Server, Vec<Player>)>| valid_listing(m, g))
}

/// Keys that strictly increase.
pub open spec fn strictly_sorted(k: Seq<SortKeyView>) -> bool {
    forall|i: int, j: int| 0 <= i < j < k.len() ==> key_le(#[trigger] k[i], #[trigger] k[j]) && k[i] != k[j]
}

/// The keys of a listing's servers, in order.
pub open spec fn server_keys(g: Seq<(Server, Vec<Player>)>) -> Seq<SortKeyView> {
    Seq::new(g.len(), |i: int| server_key(g[i].0@))
}

/// The keys of a group's players, in order.
pub open spec fn player_keys(ps: Seq<Player>) -> Seq<SortKeyView> {
    Seq::new(ps.len(), |a: int| player_key(ps[a]@))
}

/// Some player is listed under a server whose key is `x`.
pub open spec fn hosts_listed(m: Map<(ServerView, u128), (PlayerView, u64)>, x: SortKeyView) -> bool {
    exists|s: ServerView, p: PlayerView| #[trigger] listed_under(m, s, p) && server_key(s) == x
}

/// Some player whose key is `y` is listed under server `s`.
pub open spec fn lists_player_key(m: Map<(ServerView, u128), (PlayerView, u64)>, s: ServerView, y: SortKeyView) -> bool {
    exists|p: PlayerView| #[trigger] listed_under(m, s, p) && player_key(p) == y
}

/// Two strictly increasing key sequences with the same keys are equal.
proof fn lemma_sorted_keys_unique(a: Seq<SortKeyView>, b: Seq<SortKeyView>)
    requires
        strictly_sorted(a),
        strictly_sorted(b),
        forall|x: SortKeyView| a.contains(x) <==> b.contains(x),
    ensures
        a == b,
    decreases a.len(),
{
    if a.len() == 0 {
        if b.len() > 0 {
            assert(b.contains(b[0]));
        }
        assert(a =~= b);
    } else {
        assert(a.contains(a[0]));
        assert(b.contains(b[0]));
        let k = choose|k: int| 0 <= k < b.len() && b[k] == a[0];
        let l = choose|l: int| 0 <= l < a.len() && a[l] == b[0];
        if l > 0 && k > 0 {
            assert(key_le(a[0], a[l]));
            assert(key_le(b[0], b[k]));
            lemma_key_le_antisym(a[0], b[0]);
        }
        assert(a[0] == b[0]);
        let a1 = a.drop_first();
        let b1 = b.drop_first();
        assert forall|x: SortKeyView| a1.contains(x) <==> b1.contains(x) by {
            if a1.contains(x) {
                let i = choose|i: int| 0 <= i < a1.len() && a1[i] == x;
                assert(a[i + 1] == x && a[0] != a[i + 1]);
                assert(a.contains(x));
                let j = choose|j: int| 0 <= j < b.len() && b[j] == x;
                assert(j != 0);
                assert(b1[j - 1] == x);
            }
            if b1.contains(x) {
                let i = choose|i: int| 0 <= i < b1.len() && b1[i] == x;
                assert(b[i + 1] == x && b[0] != b[i + 1]);
                assert(b.contains(x));
                let j = choose|j: int| 0 <= j < a.len() && a[j] == x;
                assert(j != 0);
                assert(a1[j - 1] == x);
            }
        }
        assert forall|i: int, j: int| 0 <= i < j < a1.len() implies key_le(#[trigger] a1[i], #[trigger] a1[j]) && a1[i] != a1[j] by {
            assert(a1[i] == a[i + 1] && a1[j] == a[j + 1]);
        }
        assert forall|i: int, j: int| 0 <= i < j < b1.len() implies key_le(#[trigger] b1[i], #[trigger] b1[j]) && b1[i] != b1[j] by {
            assert(b1[i] == b[i + 1] && b1[j] == b[j + 1]);
        }
        lemma_sorted_keys_unique(a1, b1);
        assert forall|i: int| 0 <= i < a.len() implies a[i] == b[i] by {
            if i > 0 {
                assert(a[i] == a1[i - 1] && b[i] == b1[i - 1]);
            }
        }
        assert(a =~= b);
    }
}

/// A player is listed under at most one server.
proof fn lemma_latest_unique(m: Map<(ServerView, u128), (PlayerView, u64)>, s1: ServerView, s2: ServerView, u: u128)
    requires
        is_latest(m, s1, u),
        is_latest(m, s2, u),
    ensures
        s1 == s2,
{
    assert(m.contains_key((s1, u)) && m.contains_key((s2, u)));
    if m[(s1, u)].1 == m[(s2, u)].1 {
        lemma_key_le_antisym(server_key(s1), server_key(s2));
    }
    assert(s1 == ServerView { slug: s2.slug, nickname: s2.nickname });
}

/// The servers of a valid listing are those some player is listed under, in
/// strictly increasing order.
proof fn lemma_listing_servers(m: Map<(ServerView, u128), (PlayerView, u64)>, g: Seq<(Server, Vec<Player>)>)
    requires
        valid_listing(m, g),
    ensures
        strictly_sorted(server_keys(g)),
        forall|x: SortKeyView| server_keys(g).contains(x) <==> hosts_listed(m, x),
{
    let k = server_keys(g);
    assert forall|i: int, j: int| 0 <= i < j < k.len() implies key_le(#[trigger] k[i], #[trigger] k[j]) && k[i] != k[j] by {
        assert(g[i].0@ != g[j].0@);
        if k[i] == k[j] {
            assert(g[i].0@ == ServerView { slug: g[j].0@.slug, nickname: g[j].0@.nickname });
        }
    }
    assert forall|x: SortKeyView| k.contains(x) <==> hosts_listed(m, x) by {
        if k.contains(x) {
            let i = choose|i: int| 0 <= i < k.len() && k[i] == x;
            assert(g[i].1@.len() > 0);
            assert(listed_under(m, g[i].0@, g[i].1@[0]@));
        }
        if hosts_listed(m, x) {
            let (s, p) = choose|s: ServerView, p: PlayerView| #[trigger] listed_under(m, s, p) && server_key(s) == x;
            assert(m.contains_key((s, p.uuid)));
            assert(online_anywhere(m, p.uuid));
            assert(lists_uuid(g, p.uuid));
            let (i, a) = choose|i: int, a: int| 0 <= i < g.len() && 0 <= a < g[i].1@.len() && (#[trigger] g[i].1@[a]).uuid == p.uuid;
            assert(listed_under(m, g[i].0@, g[i].1@[a]@));
            lemma_latest_unique(m, g[i].0@, s, p.uuid);
            assert(k[i] == x);
        }
    }
}

/// The players of a group of a valid listing are those listed under its
/// server, in strictly increasing order.
proof fn lemma_listing_players(m: Map<(ServerView, u128), (PlayerView, u64)>, g: Seq<(Server, Vec<Player>)>, i: int)
    requires
        valid_listing(m, g),
        0 <= i < g.len(),
    ensures
        strictly_sorted(player_keys(g[i].1@)),
        forall|y: SortKeyView| player_keys(g[i].1@).contains(y) <==> lists_player_key(m, g[i].0@, y),
{
    let ps = g[i].1@;
    let k = player_keys(ps);
    assert forall|a: int, b: int| 0 <= a < b < k.len() implies key_le(#[trigger] k[a], #[trigger] k[b]) && k[a] != k[b] by {
        assert(key_le(player_key(g[i].1@[a]@), player_key(g[i].1@[b]@)));
        assert(g[i].1@[a].uuid != g[i].1@[b].uuid);
    }
    assert forall|y: SortKeyView| k.contains(y) <==> lists_player_key(m, g[i].0@, y) by {
        if k.contains(y) {
            let a = choose|a: int| 0 <= a < k.len() && k[a] == y;
            assert(listed_under(m, g[i].0@, g[i].1@[a]@));
        }
        if lists_player_key(m, g[i].0@, y) {
            let p = choose|p: PlayerView| #[trigger] listed_under(m, g[i].0@, p) && player_key(p) == y;
            assert(m.contains_key((g[i].0@, p.uuid)));
            assert(online_anywhere(m, p.uuid));
            assert(lists_uuid(g, p.uuid));
            let (j, b) = choose|j: int, b: int| 0 <= j < g.len() && 0 <= b < g[j].1@.len() && (#[trigger] g[j].1@[b]).uuid == p.uuid;
            assert(listed_under(m, g[j].0@, g[j].1@[b]@));
            lemma_latest_unique(m, g[j].0@, g[i].0@, p.uuid);
            assert(j == i);
            assert(g[i].1@[b]@ == p);
            assert(k[b] == y);
        }
    }
}

/// The text of the players of a group depends only on what they mean.
proof fn lemma_players_segments_views(ps: Seq<Player>, qs: Seq<Player>)
    requires
        ps.len() == qs.len(),
        forall|a: int| 0 <= a < ps.len() ==> (#[trigger] ps[a])@ == qs[a]@,
    ensures
        players_segments(ps) == players_segments(qs),
    decreases ps.len(),
{
    if ps.len() > 1 {
        assert forall|a: int| 0 <= a < ps.drop_last().len() implies (#[trigger] ps.drop_last()[a])@ == qs.drop_last()[a]@ by {
            assert(ps[a]@ == qs[a]@);
        }
        lemma_players_segments_views(ps.drop_last(), qs.drop_last());
        assert(ps[ps.len() - 1]@ == qs[qs.len() - 1]@);
    } else if ps.len() == 1 {
        assert(ps[0]@ == qs[0]@);
    }
}

/// The text of a listing depends only on what its servers and players mean.
proof fn lemma_list_segments_views(g: Seq<(Server, Vec<Player>)>, h: Seq<(Server, Vec<Player>)>)
    requires
        g.len() == h.len(),
        forall|i: int| 0 <= i < g.len() ==> (#[trigger] g[i]).0@ == h[i].0@ && g[i].1@.len() == h[i].1@.len(),
        forall|i: int, a: int| 0 <= i < g.len() && 0 <= a < g[i].1@.len() ==> (#[trigger] g[i].1@[a])@ == h[i].1@[a]@,
    ensures
        list_segments(g) == list_segments(h),
    decreases g.len(),
{
    if g.len() > 0 {
        let n = g.len() - 1;
        assert forall|i: int| 0 <= i < g.drop_last().len() implies (#[trigger] g.drop_last()[i]).0@ == h.drop_last()[i].0@
            && g.drop_last()[i].1@.len() == h.drop_last()[i].1@.len() by {
            assert(g[i].0@ == h[i].0@);
        }
        assert forall|i: int, a: int| 0 <= i < g.drop_last().len() && 0 <= a < g.drop_last()[i].1@.len() implies (#[trigger] g.drop_last()[i].1@[a])@
            == h.drop_last()[i].1@[a]@ by {
            assert(g[i].1@[a]@ == h[i].1@[a]@);
        }
        lemma_list_segments_views(g.drop_last(), h.drop_last());
        assert(g[n].0@ == h[n].0@);
        assert forall|a: int| 0 <= a < g[n].1@.len() implies (#[trigger] g[n].1@[a])@ == h[n].1@[a]@ by {}
        lemma_players_segments_views(g[n].1@, h[n].1@);
        assert(group_segments(g.len() == 1, g.last()) == group_segments(h.len() == 1, h.last()));
    }
}

/// Any two valid listings of the same sightings render to the same text:
/// which server a player is listed under, the order of the servers and the
/// order of each server's players are all fixed by the sightings.
pub proof fn law_listing_unique(
    m: Map<(ServerView, u128), (PlayerView, u64)>,
    g: Seq<(Server, Vec<Player>)>,
    h: Seq<(Server, Vec<Player>)>,
)
    requires
        valid_listing(m, g),
        valid_listing(m, h),
    ensures
        list_segments(g) == list_segments(h),
{
    lemma_listing_servers(m, g);
    lemma_listing_servers(m, h);
    assert forall|x: SortKeyView| server_keys(g).contains(x) <==> server_keys(h).contains(x) by {
        assert(server_keys(g).contains(x) <==> hosts_listed(m, x));
    }
    lemma_sorted_keys_unique(server_keys(g), server_keys(h));
    assert(g.len() == server_keys(g).len());
    assert forall|i: int| 0 <= i < g.len() implies (#[trigger] g[i]).0@ == h[i].0@ && g[i].1@.len() == h[i].1@.len() by {
        assert(server_keys(g)[i] == server_keys(h)[i]);
        assert(g[i].0@ == ServerView { slug: h[i].0@.slug, nickname: h[i].0@.nickname });
        lemma_listing_players(m, g, i);
        lemma_listing_players(m, h, i);
        lemma_sorted_keys_unique(player_keys(g[i].1@), player_keys(h[i].1@));
        assert(player_keys(g[i].1@).len() == player_keys(h[i].1@).len());
    }
    assert forall|i: int, a: int| 0 <= i < g.len() && 0 <= a < g[i].1@.len() implies (#[trigger] g[i].1@[a])@ == h[i].1@[a]@ by {
        assert(g[i].0@ == h[i].0@);
        lemma_listing_players(m, g, i);
        lemma_listing_players(m, h, i);
        lemma_sorted_keys_unique(player_keys(g[i].1@), player_keys(h[i].1@));
        assert(player_keys(g[i].1@)[a] == player_keys(h[i].1@)[a]);
        assert(g[i].1@[a]@ == PlayerView { uuid: h[i].1@[a]@.uuid, nickname: h[i].1@[a]@.nickname });
    }
    lemma_list_segments_views(g, h);
}

/// Every valid listing of the sightings `m` renders to the text of the player
/// list for `m`.
pub proof fn law_listing_text(m: Map<(ServerView, u128), (PlayerView, u64)>, g: Seq<(Server, Vec<Player>)>)
    requires
        valid_listing(m, g),
    ensures
        list_segments(g) == listing_text(m),
{
    let h = choose|h: Seq<(Server, Vec<Player>)>| valid_listing(m, h);
    law_listing_unique(m, g, h);
}

} // verus!
