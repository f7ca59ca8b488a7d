pub mod heartbeat;

use vstd::prelude::*;

use crate::assoc::{assoc_map, keys_unique};
use crate::types::{Player, PlayerView, Server, ServerView};



verus! {

/// Heartbeat instants are nanoseconds on a monotonic clock; this many make a second.
pub const NANOS_PER_SEC: u64 = 1_000_000_000;

/// One server's latest report that a player is on it.
pub struct Sighting {
    pub server: Server,
    pub player: Player,
    pub last_heartbeat: u64,
}

impl Clone for Sighting {
    fn clone(&self) -> (res: Self)
        ensures
            res == *self,
    {
        Sighting { server: self.server.clone(), player: self.player.clone(), last_heartbeat: self.last_heartbeat }
    }
}

/// The key and the value that a sighting stands for.
pub open spec fn sighting_pair(s: Sighting) -> ((ServerView, u128), (PlayerView, u64)) {
    ((s.server@, s.player.uuid), (s.player@, s.last_heartbeat))
}

/// The association list that a sequence of sightings stands for.
pub open spec fn sighting_pairs(v: Seq<Sighting>) -> Seq<((ServerView, u128), (PlayerView, u64))> {
    v.map_values(|s: Sighting| sighting_pair(s))
}

/// The association list that the online servers stand for.
pub open spec fn server_pairs(v: Seq<(Server, u64)>) -> Seq<(ServerView, u64)> {
    v.map_values(|e: (Server, u64)| (e.0@, e.1))
}

/// What the hub knows of who is online.
pub struct StateView {
    /// For each server and player UUID, the player as last reported there
    /// and the instant of that heartbeat.
    pub players: Map<(ServerView, u128), (PlayerView, u64)>,
    /// For each online server, the instant of its last heartbeat.
    pub servers: Map<ServerView, u64>,
    /// The count of distinct online players last reported to QQ.
    pub last_reported_count: nat,
}

/// Whole seconds from `last` to `now`, as `Instant::duration_since(..).as_secs()`
/// counts them (zero when `last` is later than `now`).
pub open spec fn elapsed_secs(last: u64, now: u64) -> int {
    if now >= last {
        (now - last) / (NANOS_PER_SEC as int)
    } else {
        0
    }
}

/// A heartbeat at `last` is too old at `now` when more than `timeout` whole
/// seconds have passed since it.
pub open spec fn timed_out(last: u64, now: u64, timeout: u64) -> bool {
    elapsed_secs(last, now) > timeout
}

/// The player with UUID `u` is on at least one server.
pub open spec fn online_anywhere(players: Map<(ServerView, u128), (PlayerView, u64)>, u: u128) -> bool {
    exists|s: ServerView| #[trigger] players.contains_key((s, u))
}

/// The UUIDs of the players online on at least one server.
pub open spec fn online_uuids(players: Map<(ServerView, u128), (PlayerView, u64)>) -> Set<u128> {
    Set::new(|u: u128| online_anywhere(players, u))
}

/// The entries of `m` whose heartbeat is not too old at `now`.
pub open spec fn keep_fresh<K, P>(m: Map<K, (P, u64)>, now: u64, timeout: u64) -> Map<K, (P, u64)> {
    Map::new(|k: K| m.contains_key(k) && !timed_out(m[k].1, now, timeout), |k: K| m[k])
}

/// How a heartbeat for a player on a server relates to what was known before it.
#[derive(PartialEq, Eq, Structural, Debug, Clone, Copy)]
pub enum Arrival {
    /// The player was on no server: this is a join.
    Joined,
    /// The player was on other servers, but not on this one.
    JoinedAnotherServer,
    /// The player was already known to be on this server.
    StillOnline,
}

/// What a heartbeat for player `u` on server `s` means, given who was online.
pub open spec fn arrival_of(players: Map<(ServerView, u128), (PlayerView, u64)>, s: ServerView, u: u128) -> Arrival {
    if !online_anywhere(players, u) {
        Arrival::Joined
    } else if !players.contains_key((s, u)) {
        Arrival::JoinedAnotherServer
    } else {
        Arrival::StillOnline
    }
}

/// The presence bookkeeping of the hub: which players are on which servers,
/// which servers are online, and the last reported player count.
pub struct State {
    pub(crate) online_players: Vec<Sighting>,
    pub(crate) online_servers: Vec<(Server, u64)>,
    pub(crate) last_reported_count: usize,
}

impl View for State {
    type V = StateView;

    closed spec fn view(&self) -> StateView {
        StateView {
            players: assoc_map(sighting_pairs(self.online_players@)),
            servers: assoc_map(server_pairs(self.online_servers@)),
            last_reported_count: self.last_reported_count as nat,
        }
    }
}

impl State {
    /// The representation invariant: no (server, player) pair and no server
    /// is recorded twice.
    #[verifier::type_invariant]
    pub(crate) closed spec fn wf(&self) -> bool {
        &&& keys_unique(sighting_pairs(self.online_players@))
        &&& keys_unique(server_pairs(self.online_servers@))
    }

    pub(crate) proof fn lemma_unfold(&self)
        ensures
            self@.players == assoc_map(sighting_pairs(self.online_players@)),
            self@.servers == assoc_map(server_pairs(self.online_servers@)),
            self@.last_reported_count == self.last_reported_count as nat,
            self.wf() == (keys_unique(sighting_pairs(self.online_players@)) && keys_unique(
                server_pairs(self.online_servers@),
            )),
    {
    }

    /// An empty state: nobody online, no server online, zero reported.
    pub fn new() -> (res: Self)
        ensures
            res@.players == Map::<(ServerView, u128), (PlayerView, u64)>::empty(),
            res@.servers == Map::<ServerView, u64>::empty(),
            res@.last_reported_count == 0,
    {
        let res = State { online_players: Vec::new(), online_servers: Vec::new(), last_reported_count: 0 };
        assert(res@.players =~= Map::empty());
        assert(res@.servers =~= Map::empty());
        res
    }
}

/// A join is reported at most once: once a heartbeat of a player has been
/// recorded on some server, a heartbeat of that player on any server is not
/// a join.
pub proof fn law_join_reported_once(
    players: Map<(ServerView, u128), (PlayerView, u64)>,
    first: ServerView,
    second: ServerView,
    p: PlayerView,
    now: u64,
)
    ensures
        arrival_of(players.insert((first, p.uuid), (p, now)), second, p.uuid) != Arrival::Joined,
{
    assert(players.insert((first, p.uuid), (p, now)).contains_key((first, p.uuid)));
}

/// A fresh heartbeat keeps a player online: right after a heartbeat is
/// recorded at `now`, a check at `now` keeps it, whatever the timeout.
pub proof fn law_fresh_heartbeat_kept(
    players: Map<(ServerView, u128), (PlayerView, u64)>,
    s: ServerView,
    p: PlayerView,
    now: u64,
    timeout: u64,
)
    ensures
        keep_fresh(players.insert((s, p.uuid), (p, now)), now, timeout).contains_key((s, p.uuid)),
        online_anywhere(keep_fresh(players.insert((s, p.uuid), (p, now)), now, timeout), p.uuid),
{
    assert(elapsed_secs(now, now) == 0);
    let fresh = keep_fresh(players.insert((s, p.uuid), (p, now)), now, timeout);
    assert(fresh.contains_key((s, p.uuid)));
}

/// A heartbeat survives a check exactly while it is at most `timeout`
/// whole seconds old.
pub proof fn law_timeout_boundary(
    players: Map<(ServerView, u128), (PlayerView, u64)>,
    key: (ServerView, u128),
    now: u64,
    timeout: u64,
)
    requires
        players.contains_key(key),
    ensures
        keep_fresh(players, now, timeout).contains_key(key) <==> elapsed_secs(players[key].1, now) <= timeout,
{
}

/// Whether the count of distinct online players differs from the last one
/// reported.
pub open spec fn count_changed(sv: StateView) -> bool {
    sv.last_reported_count != online_uuids(sv.players).len()
}

/// The state after the count of distinct online players has been reported.
pub open spec fn after_report(sv: StateView) -> StateView {
    StateView { last_reported_count: online_uuids(sv.players).len(), ..sv }
}

/// The count is not reported twice: right after a report, with nobody
/// arriving or leaving in between, a second report finds nothing changed,
/// and leaves the state as it is.
pub proof fn law_count_reported_once(sv: StateView)
    ensures
        !count_changed(after_report(sv)),
        after_report(after_report(sv)) == after_report(sv),
{
}

} // verus!
