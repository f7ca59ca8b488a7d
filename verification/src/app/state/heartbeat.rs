use vstd::prelude::*;

use crate::app::event::EventToQQ;
use crate::app::state::{
    after_report, arrival_of, count_changed, keep_fresh, online_anywhere, online_uuids, server_pairs, sighting_pair, sighting_pairs, timed_out,
    Arrival, Sighting, State, NANOS_PER_SEC,
};
use crate::assoc::{
    assoc_map, has_key, keys_unique, kept_map, lemma_assoc_at, lemma_assoc_contains,
    lemma_assoc_push, lemma_assoc_update, lemma_kept_all, lemma_kept_none, lemma_kept_step,
};
use crate::types::{Player, PlayerView, Server, ServerView};

verus! {

/// Whether a heartbeat at `last` is too old at `now`.
pub fn is_timed_out(last: u64, now: u64, timeout: u64) -> (res: bool)
    ensures
        res == timed_out(last, now, timeout),
{
    let elapsed: u64 = if now >= last {
        (now - last) / NANOS_PER_SEC
    } else {
        0
    };
    elapsed > timeout
}

/// A player whose heartbeat on a server became too old.
#[derive(Debug)]
pub struct Departure {
    /// The server where the heartbeat timed out.
    pub server: Server,
    /// The player as last reported there.
    pub player: Player,
    /// Whether the player is now on no server at all (a real leave), rather
    /// than still on another server.
    pub last: bool,
}

/// Some heartbeat among the first `i` pairs is of server `s` and too old.
pub open spec fn expired_among(pairs: Seq<(ServerView, u64)>, i: int, s: ServerView, now: u64, timeout: u64) -> bool {
    exists|j: int| 0 <= j < i && #[trigger] pairs[j].0 == s && timed_out(pairs[j].1, now, timeout)
}

/// Some heartbeat among the first `i` sightings is of player `p` on server `s` and too old.
pub open spec fn expired_sighting_among(
    pairs: Seq<((ServerView, u128), (PlayerView, u64))>,
    i: int,
    s: ServerView,
    p: PlayerView,
    now: u64,
    timeout: u64,
) -> bool {
    exists|j: int|
        0 <= j < i && #[trigger] pairs[j].0 == (s, p.uuid) && pairs[j].1.0 == p && timed_out(pairs[j].1.1, now, timeout)
}

/// One of `v` is a player with UUID `u`.
pub open spec fn has_uuid_in(v: Seq<(Server, Player)>, u: u128) -> bool {
    exists|k: int| 0 <= k < v.len() && (#[trigger] v[k]).1.uuid == u
}

/// What a departure reports: a too-old sighting in `before`, and whether the
/// player is on no server in `after`.
pub open spec fn departure_fits(
    before: Map<(ServerView, u128), (PlayerView, u64)>,
    after: Map<(ServerView, u128), (PlayerView, u64)>,
    d: Departure,
    now: u64,
    timeout: u64,
) -> bool {
    let key = (d.server@, d.player.uuid);
    &&& before.contains_key(key)
    &&& before[key].0 == d.player@
    &&& timed_out(before[key].1, now, timeout)
    &&& d.last == !online_anywhere(after, d.player.uuid)
}

/// Server `s` is one of `v`.
pub open spec fn listed(v: Seq<Server>, s: ServerView) -> bool {
    exists|k: int| 0 <= k < v.len() && (#[trigger] v[k])@ == s
}

/// Whether one of `v` is the player with UUID `uuid`.
fn has_uuid(v: &Vec<(Server, Player)>, uuid: u128) -> (res: bool)
    ensures
        res == has_uuid_in(v@, uuid),
{
    let n = v.len();
    let mut i: usize = 0;
    while i < n
        invariant
            n == v@.len(),
            i <= n,
            forall|k: int| 0 <= k < i ==> (#[trigger] v@[k]).1.uuid != uuid,
        decreases n - i,
    {
        if v[i].1.uuid == uuid {
            return true;
        }
        i = i + 1;
    }
    false
}

impl State {
    /// The index of the sighting of player `uuid` on `server`, if any.
    fn find_sighting(&self, server: &Server, uuid: u128) -> (res: Option<usize>)
        requires
            self.wf(),
        ensures
            match res {
                Some(i) => i < self.online_players@.len() && sighting_pairs(self.online_players@)[i as int].0
                    == (server@, uuid),
                None => !has_key(sighting_pairs(self.online_players@), (server@, uuid)),
            },
    {
        let n = self.online_players.len();
        let mut i: usize = 0;
        while i < n
            invariant
                n == self.online_players@.len(),
                i <= n,
                forall|j: int| 0 <= j < i ==> sighting_pairs(self.online_players@)[j].0 != (server@, uuid),
            decreases n - i,
        {
            let s = &self.online_players[i];
            if s.player.uuid == uuid && s.server.same_as(server) {
                return Some(i);
            }
            i = i + 1;
        }
        None
    }

    /// Whether player `uuid` is on at least one server.
    fn is_online(&self, uuid: u128) -> (res: bool)
        requires
            self.wf(),
        ensures
            res == online_anywhere(self@.players, uuid),
    {
        proof {
            self.lemma_unfold();
        }
        let ghost pairs = sighting_pairs(self.online_players@);
        let n = self.online_players.len();
        let mut i: usize = 0;
        while i < n
            invariant
                n == self.online_players@.len(),
                pairs == sighting_pairs(self.online_players@),
                self@.players == crate::assoc::assoc_map(pairs),
                keys_unique(pairs),
                i <= n,
                forall|j: int| 0 <= j < i ==> (#[trigger] pairs[j]).0.1 != uuid,
            decreases n - i,
        {
            if self.online_players[i].player.uuid == uuid {
                proof {
                    lemma_assoc_at(pairs, i as int);
                    assert(self@.players.contains_key((pairs[i as int].0.0, uuid)));
                }
                return true;
            }
            i = i + 1;
        }
        proof {
            if online_anywhere(self@.players, uuid) {
                let s = choose|s| #[trigger] self@.players.contains_key((s, uuid));
                assert(has_key(pairs, (s, uuid)));
                let j = choose|j: int| 0 <= j < pairs.len() && #[trigger] pairs[j].0 == (s, uuid);
                assert(pairs[j].0.1 == uuid);
            }
        }
        false
    }

    /// Records a heartbeat of `player` on `server` at instant `now` and says
    /// whether it is a join, a move to another server, or a refresh.
    pub fn mark_player_as_online(&mut self, server: &Server, player: &Player, now: u64) -> (arrival:
        Arrival)
        ensures
            final(self)@.players == old(self)@.players.insert((server@, player.uuid), (player@, now)),
            final(self)@.servers == old(self)@.servers,
            final(self)@.last_reported_count == old(self)@.last_reported_count,
            arrival == arrival_of(old(self)@.players, server@, player.uuid),
    {
        proof {
            use_type_invariant(&*self);
            self.lemma_unfold();
        }
        let found = self.find_sighting(server, player.uuid);
        let unique_new = !self.is_online(player.uuid);
        let sighting = Sighting { server: server.clone(), player: player.clone(), last_heartbeat: now };
        let ghost old_pairs = sighting_pairs(self.online_players@);
        let ghost key = (server@, player.uuid);
        let ghost val = (player@, now);
        assert(sighting_pair(sighting) == (key, val));
        let mut players: Vec<Sighting> = Vec::new();
        std::mem::swap(&mut players, &mut self.online_players);
        match found {
            Some(i) => {
                players.set(i, sighting);
                proof {
                    assert(sighting_pairs(players@) =~= old_pairs.update(i as int, (key, val)));
                    lemma_assoc_update(old_pairs, i as int, val);
                }
            },
            None => {
                players.push(sighting);
                proof {
                    assert(sighting_pairs(players@) =~= old_pairs.push((key, val)));
                    lemma_assoc_push(old_pairs, key, val);
                }
            },
        }
        self.online_players = players;
        proof {
            self.lemma_unfold();
            crate::assoc::lemma_assoc_contains(old_pairs, key);
        }
        if unique_new {
            Arrival::Joined
        } else if found.is_none() {
            Arrival::JoinedAnotherServer
        } else {
            Arrival::StillOnline
        }
    }

    /// The index of `server` among the online servers, if it is there.
    fn find_server(&self, server: &Server) -> (res: Option<usize>)
        ensures
            match res {
                Some(i) => i < self.online_servers@.len() && server_pairs(self.online_servers@)[i as int].0
                    == server@,
                None => !has_key(server_pairs(self.online_servers@), server@),
            },
    {
        let n = self.online_servers.len();
        let mut i: usize = 0;
        while i < n
            invariant
                n == self.online_servers@.len(),
                i <= n,
                forall|j: int| 0 <= j < i ==> server_pairs(self.online_servers@)[j].0 != server@,
            decreases n - i,
        {
            if self.online_servers[i].0.same_as(server) {
                return Some(i);
            }
            i = i + 1;
        }
        None
    }

    /// Records a heartbeat of `server` at instant `now`; says whether the
    /// server was offline before it.
    pub fn mark_server_as_online(&mut self, server: &Server, now: u64) -> (is_new: bool)
        ensures
            final(self)@.servers == old(self)@.servers.insert(server@, now),
            final(self)@.players == old(self)@.players,
            final(self)@.last_reported_count == old(self)@.last_reported_count,
            is_new == !old(self)@.servers.contains_key(server@),
    {
        proof {
            use_type_invariant(&*self);
            self.lemma_unfold();
        }
        let found = self.find_server(server);
        let ghost old_pairs = server_pairs(self.online_servers@);
        proof {
            lemma_assoc_contains(old_pairs, server@);
        }
        let mut servers: Vec<(Server, u64)> = Vec::new();
        std::mem::swap(&mut servers, &mut self.online_servers);
        match found {
            Some(i) => {
                servers.set(i, (server.clone(), now));
                proof {
                    assert(server_pairs(servers@) =~= old_pairs.update(i as int, (server@, now)));
                    lemma_assoc_update(old_pairs, i as int, now);
                }
            },
            None => {
                servers.push((server.clone(), now));
                proof {
                    assert(server_pairs(servers@) =~= old_pairs.push((server@, now)));
                    lemma_assoc_push(old_pairs, server@, now);
                }
            },
        }
        self.online_servers = servers;
        proof {
            self.lemma_unfold();
        }
        found.is_none()
    }

    /// Drops the servers whose last heartbeat is more than `timeout` seconds
    /// old at `now`, and returns them.
    pub fn check_server_timeouts(&mut self, timeout: u64, now: u64) -> (removed: Vec<Server>)
        ensures
            final(self)@.servers == Map::new(
                |s: ServerView| old(self)@.servers.contains_key(s) && !timed_out(old(self)@.servers[s], now, timeout),
                |s: ServerView| old(self)@.servers[s],
            ),
            final(self)@.players == old(self)@.players,
            final(self)@.last_reported_count == old(self)@.last_reported_count,
            forall|k: int| 0 <= k < removed@.len() ==> old(self)@.servers.contains_key(#[trigger] removed@[k]@)
                && timed_out(old(self)@.servers[removed@[k]@], now, timeout),
            forall|k: int, l: int| 0 <= k < removed@.len() && 0 <= l < removed@.len() && k != l ==> (#[trigger] removed@[k])@
                != (#[trigger] removed@[l])@,
            forall|s: ServerView| old(self)@.servers.contains_key(s) && timed_out(old(self)@.servers[s], now, timeout)
                ==> exists|k: int| 0 <= k < removed@.len() && (#[trigger] removed@[k])@ == s,
    {
        proof {
            use_type_invariant(&*self);
            self.lemma_unfold();
        }
        let ghost pairs = server_pairs(self.online_servers@);
        let ghost keep = |k: ServerView, v: u64| !timed_out(v, now, timeout);
        let mut kept: Vec<(Server, u64)> = Vec::new();
        let mut removed: Vec<Server> = Vec::new();
        let n = self.online_servers.len();
        proof {
            lemma_kept_none(pairs, keep);
            assert(assoc_map(server_pairs(kept@)) =~= Map::empty());
        }
        let mut i: usize = 0;
        while i < n
            invariant
                n == self.online_servers@.len(),
                pairs == server_pairs(self.online_servers@),
                keys_unique(pairs),
                i <= n,
                keys_unique(server_pairs(kept@)),
                assoc_map(server_pairs(kept@)) =~= kept_map(pairs, i as int, keep),
                keep == (|k: ServerView, v: u64| !timed_out(v, now, timeout)),
                forall|k: int| 0 <= k < removed@.len() ==> expired_among(pairs, i as int, #[trigger] removed@[k]@, now, timeout),
                forall|k: int, l: int| 0 <= k < removed@.len() && 0 <= l < removed@.len() && k != l ==> (#[trigger] removed@[k])@
                    != (#[trigger] removed@[l])@,
                forall|j: int| 0 <= j < i && timed_out((#[trigger] pairs[j]).1, now, timeout) ==> listed(removed@, pairs[j].0),
            decreases n - i,
        {
            let entry = &self.online_servers[i];
            let ghost before = removed@;
            proof {
                lemma_kept_step(pairs, server_pairs(kept@), i as int, keep);
                assert(pairs[i as int] == (entry.0@, entry.1));
                assert forall|k: int| 0 <= k < removed@.len() implies expired_among(pairs, i + 1, #[trigger] removed@[k]@, now, timeout) by {
                    let j = choose|j: int| 0 <= j < i && #[trigger] pairs[j].0 == removed@[k]@ && timed_out(pairs[j].1, now, timeout);
                    assert(0 <= j < i + 1 && pairs[j].0 == removed@[k]@ && timed_out(pairs[j].1, now, timeout));
                }
            }
            if is_timed_out(entry.1, now, timeout) {
                proof {
                    assert forall|k: int| 0 <= k < removed@.len() implies (#[trigger] removed@[k])@ != pairs[i as int].0 by {
                        let j = choose|j: int| 0 <= j < i && #[trigger] pairs[j].0 == removed@[k]@ && timed_out(pairs[j].1, now, timeout);
                        assert(pairs[j].0 != pairs[i as int].0);
                    }
                }
                removed.push(entry.0.clone());
                proof {
                    assert forall|k: int| 0 <= k < removed@.len() implies expired_among(pairs, i + 1, #[trigger] removed@[k]@, now, timeout) by {
                        if k < before.len() {
                            assert(removed@[k] == before[k]);
                        } else {
                            assert(0 <= i < i + 1 && pairs[i as int].0 == removed@[k]@ && timed_out(pairs[i as int].1, now, timeout));
                        }
                    }
                    assert forall|j: int| 0 <= j < i + 1 && timed_out((#[trigger] pairs[j]).1, now, timeout) implies listed(removed@, pairs[j].0) by {
                        if j < i {
                            let k = choose|k: int| 0 <= k < before.len() && (#[trigger] before[k])@ == pairs[j].0;
                            assert(removed@[k] == before[k]);
                        } else {
                            assert(removed@[before.len() as int]@ == pairs[j].0);
                        }
                    }
                }
            } else {
                let ghost kept_before = kept@;
                kept.push((entry.0.clone(), entry.1));
                proof {
                    assert(server_pairs(kept@) =~= server_pairs(kept_before).push(pairs[i as int]));
                }
            }
            i = i + 1;
        }
        proof {
            lemma_kept_all(pairs, keep);
        }
        self.online_servers = kept;
        proof {
            self.lemma_unfold();
            assert forall|k: int| 0 <= k < removed@.len() implies old(self)@.servers.contains_key(#[trigger] removed@[k]@)
                && timed_out(old(self)@.servers[removed@[k]@], now, timeout) by {
                let j = choose|j: int| 0 <= j < n && #[trigger] pairs[j].0 == removed@[k]@ && timed_out(pairs[j].1, now, timeout);
                lemma_assoc_at(pairs, j);
            }
            assert forall|s: ServerView| old(self)@.servers.contains_key(s) && timed_out(old(self)@.servers[s], now, timeout)
                implies listed(removed@, s) by {
                let j = choose|j: int| 0 <= j < pairs.len() && #[trigger] pairs[j].0 == s;
                lemma_assoc_at(pairs, j);
            }
        }
        removed
    }

    /// Drops every sighting whose heartbeat is more than `timeout` seconds old
    /// at `now`. Returns one departure per player that timed out somewhere,
    /// telling whether that player is now on no server at all.
    pub fn check_player_timeouts(&mut self, timeout: u64, now: u64) -> (departures: Vec<Departure>)
        ensures
            final(self)@.players == keep_fresh(old(self)@.players, now, timeout),
            final(self)@.servers == old(self)@.servers,
            final(self)@.last_reported_count == old(self)@.last_reported_count,
            forall|k: int| 0 <= k < departures@.len() ==> departure_fits(old(self)@.players, final(self)@.players, #[trigger] departures@[k], now, timeout),
            forall|k: int, l: int| 0 <= k < departures@.len() && 0 <= l < departures@.len() && k != l ==> (#[trigger] departures@[k]).player.uuid
                != (#[trigger] departures@[l]).player.uuid,
            forall|s: ServerView, u: u128| #[trigger] old(self)@.players.contains_key((s, u)) && timed_out(old(self)@.players[(s, u)].1, now, timeout)
                ==> exists|k: int| 0 <= k < departures@.len() && (#[trigger] departures@[k]).player.uuid == u,
    {
        proof {
            use_type_invariant(&*self);
            self.lemma_unfold();
        }
        let ghost pairs = sighting_pairs(self.online_players@);
        let ghost keep = |k: (ServerView, u128), v: (PlayerView, u64)| !timed_out(v.1, now, timeout);
        let mut kept: Vec<Sighting> = Vec::new();
        let mut timed: Vec<(Server, Player)> = Vec::new();
        let n = self.online_players.len();
        proof {
            lemma_kept_none(pairs, keep);
            assert(assoc_map(sighting_pairs(kept@)) =~= Map::empty());
        }
        let mut i: usize = 0;
        while i < n
            invariant
                n == self.online_players@.len(),
                pairs == sighting_pairs(self.online_players@),
                keys_unique(pairs),
                i <= n,
                keys_unique(sighting_pairs(kept@)),
                assoc_map(sighting_pairs(kept@)) =~= kept_map(pairs, i as int, keep),
                keep == (|k: (ServerView, u128), v: (PlayerView, u64)| !timed_out(v.1, now, timeout)),
                forall|k: int| 0 <= k < timed@.len() ==> expired_sighting_among(pairs, i as int, (#[trigger] timed@[k]).0@, timed@[k].1@, now, timeout),
                forall|k: int, l: int| 0 <= k < timed@.len() && 0 <= l < timed@.len() && k != l ==> (#[trigger] timed@[k]).1.uuid
                    != (#[trigger] timed@[l]).1.uuid,
                forall|j: int| 0 <= j < i && timed_out((#[trigger] pairs[j]).1.1, now, timeout) ==> has_uuid_in(timed@, pairs[j].0.1),
            decreases n - i,
        {
            let sighting = &self.online_players[i];
            let ghost before = timed@;
            proof {
                lemma_kept_step(pairs, sighting_pairs(kept@), i as int, keep);
                assert(pairs[i as int] == sighting_pair(*sighting));
                assert forall|k: int| 0 <= k < timed@.len() implies expired_sighting_among(pairs, i + 1, (#[trigger] timed@[k]).0@, timed@[k].1@, now, timeout) by {
                    let j = choose|j: int| 0 <= j < i && #[trigger] pairs[j].0 == (timed@[k].0@, timed@[k].1@.uuid) && pairs[j].1.0 == timed@[k].1@
                        && timed_out(pairs[j].1.1, now, timeout);
                    assert(0 <= j < i + 1 && pairs[j].0 == (timed@[k].0@, timed@[k].1@.uuid) && pairs[j].1.0 == timed@[k].1@
                        && timed_out(pairs[j].1.1, now, timeout));
                }
            }
            if is_timed_out(sighting.last_heartbeat, now, timeout) {
                if !has_uuid(&timed, sighting.player.uuid) {
                    timed.push((sighting.server.clone(), sighting.player.clone()));
                    proof {
                        assert forall|k: int| 0 <= k < timed@.len() implies expired_sighting_among(pairs, i + 1, (#[trigger] timed@[k]).0@, timed@[k].1@, now, timeout) by {
                            if k < before.len() {
                                assert(timed@[k] == before[k]);
                            } else {
                                assert(0 <= i < i + 1 && pairs[i as int].0 == (timed@[k].0@, timed@[k].1@.uuid) && pairs[i as int].1.0 == timed@[k].1@
                                    && timed_out(pairs[i as int].1.1, now, timeout));
                            }
                        }
                        assert forall|k: int, l: int| 0 <= k < timed@.len() && 0 <= l < timed@.len() && k != l implies (#[trigger] timed@[k]).1.uuid
                            != (#[trigger] timed@[l]).1.uuid by {
                            if k < before.len() && l < before.len() {
                                assert(timed@[k] == before[k] && timed@[l] == before[l]);
                            } else if k < before.len() {
                                assert(timed@[k] == before[k]);
                            } else {
                                assert(timed@[l] == before[l]);
                            }
                        }
                    }
                }
                proof {
                    assert forall|j: int| 0 <= j < i + 1 && timed_out((#[trigger] pairs[j]).1.1, now, timeout) implies has_uuid_in(timed@, pairs[j].0.1) by {
                        if j < i {
                            let k = choose|k: int| 0 <= k < before.len() && (#[trigger] before[k]).1.uuid == pairs[j].0.1;
                            assert(timed@[k] == before[k]);
                        } else if timed@.len() > before.len() {
                            assert(timed@[before.len() as int].1.uuid == pairs[j].0.1);
                        }
                    }
                }
            } else {
                let ghost kept_before = kept@;
                kept.push(sighting.clone());
                proof {
                    assert(sighting_pairs(kept@) =~= sighting_pairs(kept_before).push(pairs[i as int]));
                }
            }
            i = i + 1;
        }
        proof {
            lemma_kept_all(pairs, keep);
        }
        self.online_players = kept;
        proof {
            self.lemma_unfold();
            assert(self@.players =~= keep_fresh(old(self)@.players, now, timeout));
        }
        let mut departures: Vec<Departure> = Vec::new();
        let m = timed.len();
        let mut k: usize = 0;
        while k < m
            invariant
                m == timed@.len(),
                k <= m,
                self.wf(),
                pairs == sighting_pairs(old(self).online_players@),
                old(self)@.players == assoc_map(pairs),
                keys_unique(pairs),
                departures@.len() == k,
                forall|a: int| 0 <= a < k ==> (#[trigger] departures@[a]).server == timed@[a].0 && departures@[a].player == timed@[a].1
                    && departures@[a].last == !online_anywhere(self@.players, timed@[a].1.uuid),
            decreases m - k,
        {
            let last = !self.is_online(timed[k].1.uuid);
            departures.push(Departure { server: timed[k].0.clone(), player: timed[k].1.clone(), last });
            k = k + 1;
        }
        proof {
            assert forall|a: int| 0 <= a < departures@.len() implies departure_fits(old(self)@.players, self@.players, #[trigger] departures@[a], now, timeout) by {
                let d = departures@[a];
                let j = choose|j: int| 0 <= j < n && #[trigger] pairs[j].0 == (timed@[a].0@, timed@[a].1@.uuid) && pairs[j].1.0 == timed@[a].1@
                    && timed_out(pairs[j].1.1, now, timeout);
                lemma_assoc_at(pairs, j);
            }
            assert forall|a: int, b: int| 0 <= a < departures@.len() && 0 <= b < departures@.len() && a != b implies (#[trigger] departures@[a]).player.uuid
                != (#[trigger] departures@[b]).player.uuid by {
                assert(timed@[a].1.uuid != timed@[b].1.uuid);
            }
            assert forall|s: ServerView, u: u128| #[trigger] old(self)@.players.contains_key((s, u)) && timed_out(old(self)@.players[(s, u)].1, now, timeout)
                implies exists|a: int| 0 <= a < departures@.len() && (#[trigger] departures@[a]).player.uuid == u by {
                let j = choose|j: int| 0 <= j < pairs.len() && #[trigger] pairs[j].0 == (s, u);
                lemma_assoc_at(pairs, j);
                let a = choose|a: int| 0 <= a < timed@.len() && (#[trigger] timed@[a]).1.uuid == pairs[j].0.1;
                assert(departures@[a].player.uuid == u);
            }
        }
        departures
    }

    /// The number of distinct players online, whatever the number of servers
    /// each is on.
    pub fn unique_player_count(&self) -> (count: usize)
        ensures
            count == online_uuids(self@.players).len(),
            online_uuids(self@.players).finite(),
    {
        proof {
            use_type_invariant(&*self);
            self.lemma_unfold();
        }
        let ghost pairs = sighting_pairs(self.online_players@);
        let mut seen: Vec<u128> = Vec::new();
        let n = self.online_players.len();
        let mut i: usize = 0;
        while i < n
            invariant
                n == self.online_players@.len(),
                pairs == sighting_pairs(self.online_players@),
                i <= n,
                seen@.no_duplicates(),
                seen@.to_set() =~= Set::new(|u: u128| exists|j: int| 0 <= j < i && (#[trigger] pairs[j]).0.1 == u),
            decreases n - i,
        {
            let u = self.online_players[i].player.uuid;
            proof {
                assert(pairs[i as int].0.1 == u);
            }
            let mut found = false;
            let m = seen.len();
            let mut k: usize = 0;
            while k < m
                invariant
                    m == seen@.len(),
                    k <= m,
                    found == exists|a: int| 0 <= a < k && seen@[a] == u,
                decreases m - k,
            {
                if seen[k] == u {
                    found = true;
                }
                k = k + 1;
            }
            let ghost before = seen@;
            if !found {
                seen.push(u);
                proof {
                    assert forall|a: int, b: int| 0 <= a < seen@.len() && 0 <= b < seen@.len() && a != b implies seen@[a] != seen@[b] by {
                        if a < before.len() && b < before.len() {
                        } else if a < before.len() {
                            assert(seen@[a] == before[a]);
                        } else {
                            assert(seen@[b] == before[b]);
                        }
                    }
                }
            }
            proof {
                assert forall|x: u128| #[trigger] seen@.to_set().contains(x) == (exists|j: int| 0 <= j < i + 1 && (#[trigger] pairs[j]).0.1 == x) by {
                    if seen@.to_set().contains(x) {
                        let a = choose|a: int| 0 <= a < seen@.len() && seen@[a] == x;
                        if a < before.len() {
                            assert(before.to_set().contains(x));
                            let j = choose|j: int| 0 <= j < i && (#[trigger] pairs[j]).0.1 == x;
                            assert(0 <= j < i + 1 && pairs[j].0.1 == x);
                        } else {
                            assert(0 <= i < i + 1 && pairs[i as int].0.1 == x);
                        }
                    }
                    if exists|j: int| 0 <= j < i + 1 && (#[trigger] pairs[j]).0.1 == x {
                        let j = choose|j: int| 0 <= j < i + 1 && (#[trigger] pairs[j]).0.1 == x;
                        if j < i {
                            assert(before.to_set().contains(x));
                            let a = choose|a: int| 0 <= a < before.len() && before[a] == x;
                            assert(seen@[a] == x);
                        } else if found {
                            let a = choose|a: int| 0 <= a < m && seen@[a] == u;
                            assert(seen@[a] == x);
                        } else {
                            assert(seen@[before.len() as int] == x);
                        }
                    }
                }
            }
            i = i + 1;
        }
        proof {
            seen@.unique_seq_to_set();
            assert forall|x: u128| #[trigger] seen@.to_set().contains(x) == online_uuids(self@.players).contains(x) by {
                if seen@.to_set().contains(x) {
                    let j = choose|j: int| 0 <= j < n && (#[trigger] pairs[j]).0.1 == x;
                    lemma_assoc_at(pairs, j);
                    assert(self@.players.contains_key((pairs[j].0.0, x)));
                }
                if online_uuids(self@.players).contains(x) {
                    let s = choose|s: ServerView| #[trigger] self@.players.contains_key((s, x));
                    assert(has_key(pairs, (s, x)));
                    let j = choose|j: int| 0 <= j < pairs.len() && #[trigger] pairs[j].0 == (s, x);
                    assert(pairs[j].0.1 == x);
                }
            }
            assert(seen@.to_set() =~= online_uuids(self@.players));
        }
        seen.len()
    }

    /// Records the current count of distinct online players as reported, and
    /// returns the event to report it when it differs from the last one.
    pub fn report_player_count(&mut self) -> (event: Option<EventToQQ>)
        ensures
            final(self)@ == after_report(old(self)@),
            match event {
                None => !count_changed(old(self)@),
                Some(EventToQQ::PlayerCountChanged(c)) => count_changed(old(self)@) && c == online_uuids(
                    old(self)@.players,
                ).len(),
                Some(_) => false,
            },
    {
        proof {
            use_type_invariant(&*self);
            self.lemma_unfold();
        }
        let count = self.unique_player_count();
        let previous = self.last_reported_count;
        self.last_reported_count = count;
        proof {
            self.lemma_unfold();
        }
        if previous == count {
            None
        } else {
            Some(EventToQQ::PlayerCountChanged(count))
        }
    }
}

} // verus!
