use vstd::prelude::*;

use crate::app::event::{is_join_of, EventToQQ};
use crate::app::state::{online_anywhere, Arrival, State};
use crate::types::{Player, PlayerView, Server, ServerView};

verus! {

/// A server's periodic report of itself and the players on it.
#[derive(Debug)]
pub struct HeartBeat {
    pub server: Server,
    pub players: Vec<Player>,
}

/// The sightings after recording, one after another, heartbeats at `now` of
/// the players `ps` on server `s`.
pub open spec fn beat_players(
    m: Map<(ServerView, u128), (PlayerView, u64)>,
    s: ServerView,
    ps: Seq<Player>,
    now: u64,
) -> Map<(ServerView, u128), (PlayerView, u64)>
    decreases ps.len(),
{
    if ps.len() == 0 {
        m
    } else {
        beat_players(m, s, ps.drop_last(), now).insert((s, ps.last().uuid), (ps.last()@, now))
    }
}

/// The players among `ps` that join while their heartbeats are recorded in
/// turn: those on no server at their turn.
pub open spec fn beat_joins(
    m: Map<(ServerView, u128), (PlayerView, u64)>,
    s: ServerView,
    ps: Seq<Player>,
    now: u64,
) -> Seq<PlayerView>
    decreases ps.len(),
{
    if ps.len() == 0 {
        seq![]
    } else {
        let before = beat_players(m, s, ps.drop_last(), now);
        beat_joins(m, s, ps.drop_last(), now) + if !online_anywhere(before, ps.last().uuid) {
            seq![ps.last()@]
        } else {
            seq![]
        }
    }
}

/// Records a heartbeat at `now`: the server is online, and so is each of its
/// players. Returns a join event for each player that was on no server.
pub fn beat(state: &mut State, payload: HeartBeat, now: u64) -> (events: Vec<EventToQQ>)
    ensures
        final(state)@.servers == old(state)@.servers.insert(payload.server@, now),
        final(state)@.players == beat_players(old(state)@.players, payload.server@, payload.players@, now),
        final(state)@.last_reported_count == old(state)@.last_reported_count,
        events@.len() == beat_joins(old(state)@.players, payload.server@, payload.players@, now).len(),
        forall|k: int| 0 <= k < events@.len() ==> is_join_of(#[trigger] events@[k], beat_joins(old(state)@.players, payload.server@, payload.players@, now)[k]),
        forall|k: int| 0 <= k < events@.len() ==> (#[trigger] events@[k] matches EventToQQ::PlayerJoined(p) && !online_anywhere(
            old(state)@.players,
            p.uuid,
        )),
{
    let ghost m0 = state@.players;
    let ghost servers = state@.servers.insert(payload.server@, now);
    let HeartBeat { server, players } = payload;
    state.mark_server_as_online(&server, now);
    let mut events: Vec<EventToQQ> = Vec::new();
    let n = players.len();
    let mut i: usize = 0;
    proof {
        assert(players@.take(0) =~= Seq::<Player>::empty());
    }
    while i < n
        invariant
            n == players@.len(),
            i <= n,
            state@.servers == servers,
            state@.last_reported_count == old(state)@.last_reported_count,
            state@.players == beat_players(m0, server@, players@.take(i as int), now),
            events@.len() == beat_joins(m0, server@, players@.take(i as int), now).len(),
            forall|k: int| 0 <= k < events@.len() ==> is_join_of(#[trigger] events@[k], beat_joins(m0, server@, players@.take(i as int), now)[k]),
        decreases n - i,
    {
        let ghost before_events = events@;
        let ghost prefix = players@.take(i as int);
        let arrival = state.mark_player_as_online(&server, &players[i], now);
        if arrival == Arrival::Joined {
            events.push(EventToQQ::PlayerJoined(players[i].clone()));
        }
        proof {
            let ps = players@.take(i + 1);
            assert(ps.drop_last() =~= prefix);
            assert(ps.last() == players@[i as int]);
            let joins = beat_joins(m0, server@, ps, now);
            assert(joins == beat_joins(m0, server@, prefix, now) + if !online_anywhere(beat_players(m0, server@, prefix, now), ps.last().uuid) {
                seq![ps.last()@]
            } else {
                seq![]
            });
            assert forall|k: int| 0 <= k < events@.len() implies is_join_of(#[trigger] events@[k], joins[k]) by {
                if k < before_events.len() {
                    assert(events@[k] == before_events[k]);
                }
            }
        }
        i = i + 1;
    }
    proof {
        assert(players@.take(n as int) =~= players@);
        law_heartbeat_joins_only_new(m0, server@, players@, now);
        assert forall|k: int| 0 <= k < events@.len() implies (#[trigger] events@[k] matches EventToQQ::PlayerJoined(p) && !online_anywhere(
            m0,
            p.uuid,
        )) by {
            assert(is_join_of(events@[k], beat_joins(m0, server@, players@, now)[k]));
        }
    }
    events
}

/// After a heartbeat, every player it names is online on its server, with
/// the heartbeat's instant.
pub proof fn law_heartbeat_players_online(
    m: Map<(ServerView, u128), (PlayerView, u64)>,
    s: ServerView,
    ps: Seq<Player>,
    now: u64,
)
    ensures
        forall|k: int| 0 <= k < ps.len() ==> #[trigger] beat_players(m, s, ps, now).contains_key((s, ps[k].uuid))
            && beat_players(m, s, ps, now)[(s, ps[k].uuid)].1 == now,
        forall|k: int| 0 <= k < ps.len() ==> online_anywhere(beat_players(m, s, ps, now), #[trigger] ps[k].uuid),
    decreases ps.len(),
{
    if ps.len() > 0 {
        let init = ps.drop_last();
        law_heartbeat_players_online(m, s, init, now);
        assert forall|k: int| 0 <= k < ps.len() implies #[trigger] beat_players(m, s, ps, now).contains_key((s, ps[k].uuid))
            && beat_players(m, s, ps, now)[(s, ps[k].uuid)].1 == now by {
            if k < ps.len() - 1 {
                assert(ps[k] == init[k]);
                assert(beat_players(m, s, init, now).contains_key((s, init[k].uuid)));
            }
        }
        assert forall|k: int| 0 <= k < ps.len() implies online_anywhere(beat_players(m, s, ps, now), #[trigger] ps[k].uuid) by {
            assert(beat_players(m, s, ps, now).contains_key((s, ps[k].uuid)));
        }
    }
}

/// After a heartbeat, a player is online somewhere exactly when it was before
/// or the heartbeat names it.
pub proof fn law_heartbeat_online_anywhere(
    m: Map<(ServerView, u128), (PlayerView, u64)>,
    s: ServerView,
    ps: Seq<Player>,
    now: u64,
    u: u128,
)
    ensures
        online_anywhere(beat_players(m, s, ps, now), u) <==> (online_anywhere(m, u) || exists|j: int| 0 <= j < ps.len() && #[trigger] ps[j].uuid == u),
    decreases ps.len(),
{
    if ps.len() > 0 {
        let init = ps.drop_last();
        law_heartbeat_online_anywhere(m, s, init, now, u);
        let after = beat_players(m, s, ps, now);
        let before = beat_players(m, s, init, now);
        if online_anywhere(after, u) {
            let sv = choose|sv: ServerView| #[trigger] after.contains_key((sv, u));
            if !(sv == s && ps.last().uuid == u) {
                assert(before.contains_key((sv, u)));
                if exists|j: int| 0 <= j < init.len() && #[trigger] init[j].uuid == u {
                    let j = choose|j: int| 0 <= j < init.len() && #[trigger] init[j].uuid == u;
                    assert(ps[j].uuid == u);
                }
            } else {
                assert(ps[ps.len() - 1].uuid == u);
            }
        }
        if online_anywhere(m, u) || exists|j: int| 0 <= j < ps.len() && #[trigger] ps[j].uuid == u {
            if ps.last().uuid == u {
                assert(after.contains_key((s, u)));
            } else {
                if !online_anywhere(m, u) {
                    let j = choose|j: int| 0 <= j < ps.len() && #[trigger] ps[j].uuid == u;
                    assert(j < ps.len() - 1);
                    assert(init[j].uuid == u);
                }
                let sv = choose|sv: ServerView| #[trigger] before.contains_key((sv, u));
                assert(after.contains_key((sv, u)));
            }
        }
    }
}

/// Player `ps[j]` was on no server before the heartbeat, and the heartbeat
/// names it there for the first time.
pub open spec fn first_newcomer(m: Map<(ServerView, u128), (PlayerView, u64)>, ps: Seq<Player>, j: int) -> bool {
    &&& 0 <= j < ps.len()
    &&& !online_anywhere(m, ps[j].uuid)
    &&& forall|i: int| 0 <= i < j ==> #[trigger] ps[i].uuid != ps[j].uuid
}

/// `p` is a first newcomer of the heartbeat naming `ps`.
pub open spec fn is_newcomer(m: Map<(ServerView, u128), (PlayerView, u64)>, ps: Seq<Player>, p: PlayerView) -> bool {
    exists|j: int| #[trigger] first_newcomer(m, ps, j) && p == ps[j]@
}

/// How a heartbeat's joins grow with one more player.
proof fn lemma_joins_step(m: Map<(ServerView, u128), (PlayerView, u64)>, s: ServerView, ps: Seq<Player>, now: u64)
    requires
        ps.len() > 0,
    ensures
        beat_joins(m, s, ps, now) == beat_joins(m, s, ps.drop_last(), now) + if first_newcomer(m, ps, ps.len() - 1) {
            seq![ps.last()@]
        } else {
            seq![]
        },
{
    let n = ps.len() - 1;
    let init = ps.drop_last();
    law_heartbeat_online_anywhere(m, s, init, now, ps[n].uuid);
    assert forall|i: int| 0 <= i < n implies #[trigger] ps[i] == init[i] by {}
    if exists|j: int| 0 <= j < init.len() && #[trigger] init[j].uuid == ps[n].uuid {
        let j = choose|j: int| 0 <= j < init.len() && #[trigger] init[j].uuid == ps[n].uuid;
        assert(ps[j].uuid == ps[n].uuid);
    }
    if !first_newcomer(m, ps, n) && !online_anywhere(m, ps[n].uuid) {
        let i = choose|i: int| 0 <= i < n && !(#[trigger] ps[i].uuid != ps[n].uuid);
        assert(init[i].uuid == ps[n].uuid);
    }
}

/// Every join a heartbeat announces is of a first newcomer.
proof fn lemma_joins_are_newcomers(m: Map<(ServerView, u128), (PlayerView, u64)>, s: ServerView, ps: Seq<Player>, now: u64)
    ensures
        forall|k: int| 0 <= k < beat_joins(m, s, ps, now).len() ==> is_newcomer(m, ps, #[trigger] beat_joins(m, s, ps, now)[k]),
    decreases ps.len(),
{
    if ps.len() > 0 {
        let n = ps.len() - 1;
        let init = ps.drop_last();
        lemma_joins_step(m, s, ps, now);
        lemma_joins_are_newcomers(m, s, init, now);
        let j0 = beat_joins(m, s, init, now);
        let joins = beat_joins(m, s, ps, now);
        assert forall|k: int| 0 <= k < joins.len() implies is_newcomer(m, ps, #[trigger] joins[k]) by {
            if k < j0.len() {
                assert(is_newcomer(m, init, j0[k]));
                let j = choose|j: int| #[trigger] first_newcomer(m, init, j) && j0[k] == init[j]@;
                assert forall|i: int| 0 <= i < j implies #[trigger] ps[i].uuid != ps[j].uuid by {
                    assert(init[i].uuid != init[j].uuid);
                }
                assert(first_newcomer(m, ps, j));
            } else {
                assert(first_newcomer(m, ps, n));
                assert(joins[k] == ps[n]@);
            }
        }
    }
}

/// Every player a heartbeat names that was on no server is announced.
proof fn lemma_newcomers_are_joined(m: Map<(ServerView, u128), (PlayerView, u64)>, s: ServerView, ps: Seq<Player>, now: u64)
    ensures
        forall|j: int| 0 <= j < ps.len() && !online_anywhere(m, #[trigger] ps[j].uuid) ==> exists|k: int|
            0 <= k < beat_joins(m, s, ps, now).len() && #[trigger] beat_joins(m, s, ps, now)[k].uuid == ps[j].uuid,
    decreases ps.len(),
{
    if ps.len() > 0 {
        let n = ps.len() - 1;
        let init = ps.drop_last();
        lemma_joins_step(m, s, ps, now);
        lemma_newcomers_are_joined(m, s, init, now);
        let j0 = beat_joins(m, s, init, now);
        let joins = beat_joins(m, s, ps, now);
        assert forall|j: int| 0 <= j < ps.len() && !online_anywhere(m, #[trigger] ps[j].uuid) implies exists|k: int|
            0 <= k < joins.len() && #[trigger] joins[k].uuid == ps[j].uuid by {
            if j < n {
                assert(init[j].uuid == ps[j].uuid);
                assert(!online_anywhere(m, init[j].uuid));
                let k = choose|k: int| 0 <= k < j0.len() && #[trigger] j0[k].uuid == init[j].uuid;
                assert(joins[k] == j0[k]);
                assert(0 <= k < joins.len() && joins[k].uuid == ps[j].uuid);
            } else if first_newcomer(m, ps, n) {
                let k = j0.len() as int;
                assert(joins[k] == ps[n]@);
                assert(0 <= k < joins.len() && joins[k].uuid == ps[j].uuid);
            } else {
                assert(j == n);
                assert(!(forall|i: int| 0 <= i < n ==> #[trigger] ps[i].uuid != ps[n].uuid));
                let i = choose|i: int| 0 <= i < n && !(#[trigger] ps[i].uuid != ps[n].uuid);
                assert(init[i].uuid == ps[n].uuid);
                assert(!online_anywhere(m, init[i].uuid));
                let k = choose|k: int| 0 <= k < j0.len() && #[trigger] j0[k].uuid == init[i].uuid;
                assert(joins[k] == j0[k]);
                assert(0 <= k < joins.len() && joins[k].uuid == ps[j].uuid);
            }
        }
    }
}

/// A heartbeat announces nobody twice.
proof fn lemma_joins_distinct(m: Map<(ServerView, u128), (PlayerView, u64)>, s: ServerView, ps: Seq<Player>, now: u64)
    ensures
        forall|k: int, l: int| 0 <= k < l < beat_joins(m, s, ps, now).len() ==> (#[trigger] beat_joins(m, s, ps, now)[k]).uuid
            != (#[trigger] beat_joins(m, s, ps, now)[l]).uuid,
    decreases ps.len(),
{
    if ps.len() > 0 {
        let n = ps.len() - 1;
        let init = ps.drop_last();
        lemma_joins_step(m, s, ps, now);
        lemma_joins_distinct(m, s, init, now);
        lemma_joins_are_newcomers(m, s, init, now);
        let j0 = beat_joins(m, s, init, now);
        let joins = beat_joins(m, s, ps, now);
        assert forall|k: int, l: int| 0 <= k < l < joins.len() implies (#[trigger] joins[k]).uuid != (#[trigger] joins[l]).uuid by {
            assert(joins[k] == j0[k]);
            if l < j0.len() {
                assert(joins[l] == j0[l]);
            } else {
                assert(is_newcomer(m, init, j0[k]));
                let j = choose|j: int| #[trigger] first_newcomer(m, init, j) && j0[k] == init[j]@;
                assert(ps[j] == init[j]);
                assert(first_newcomer(m, ps, n));
                assert(joins[l] == ps[n]@);
            }
        }
    }
}

/// A heartbeat announces a join only for a player that was on no server and
/// that it names for the first time; it announces every player it names that
/// was on no server; and it announces nobody twice. In particular a player
/// already online on any server, the heartbeat's own included, is never
/// announced again.
pub proof fn law_heartbeat_joins_only_new(
    m: Map<(ServerView, u128), (PlayerView, u64)>,
    s: ServerView,
    ps: Seq<Player>,
    now: u64,
)
    ensures
        forall|k: int| 0 <= k < beat_joins(m, s, ps, now).len() ==> is_newcomer(m, ps, #[trigger] beat_joins(m, s, ps, now)[k]),
        forall|k: int| 0 <= k < beat_joins(m, s, ps, now).len() ==> !online_anywhere(m, (#[trigger] beat_joins(m, s, ps, now)[k]).uuid),
        forall|j: int| 0 <= j < ps.len() && !online_anywhere(m, #[trigger] ps[j].uuid) ==> exists|k: int|
            0 <= k < beat_joins(m, s, ps, now).len() && #[trigger] beat_joins(m, s, ps, now)[k].uuid == ps[j].uuid,
        forall|k: int, l: int| 0 <= k < l < beat_joins(m, s, ps, now).len() ==> (#[trigger] beat_joins(m, s, ps, now)[k]).uuid
            != (#[trigger] beat_joins(m, s, ps, now)[l]).uuid,
{
    lemma_joins_are_newcomers(m, s, ps, now);
    lemma_newcomers_are_joined(m, s, ps, now);
    let joins = beat_joins(m, s, ps, now);
    assert forall|k: int| 0 <= k < joins.len() implies !online_anywhere(m, (#[trigger] joins[k]).uuid) by {
        assert(is_newcomer(m, ps, joins[k]));
        let j = choose|j: int| #[trigger] first_newcomer(m, ps, j) && joins[k] == ps[j]@;
    }
    lemma_joins_distinct(m, s, ps, now);
}

} // verus!
