//! The periodic check of heartbeats.
use vstd::prelude::*;

use crate::app::event::EventToQQ;
use crate::app::state::{keep_fresh, online_anywhere, online_uuids, timed_out, State};
use crate::app::state::heartbeat::{departure_fits, Departure};
use crate::types::{PlayerView, ServerView};

verus! {

/// Player `p` left: one of its sightings in `before` is too old, and it is
/// on no server in `after`.
pub open spec fn leave_fits(
    before: Map<(ServerView, u128), (PlayerView, u64)>,
    after: Map<(ServerView, u128), (PlayerView, u64)>,
    p: PlayerView,
    now: u64,
    timeout: u64,
) -> bool {
    &&& exists|s: ServerView| #[trigger] before.contains_key((s, p.uuid)) && before[(s, p.uuid)].0 == p && timed_out(
        before[(s, p.uuid)].1,
        now,
        timeout,
    )
    &&& !online_anywhere(after, p.uuid)
}

/// Event `e` reports the leave of a player that fits `leave_fits`.
pub open spec fn is_fitting_leave(
    e: EventToQQ,
    before: Map<(ServerView, u128), (PlayerView, u64)>,
    after: Map<(ServerView, u128), (PlayerView, u64)>,
    now: u64,
    timeout: u64,
) -> bool {
    e matches EventToQQ::PlayerLeft(p) && leave_fits(before, after, p@, now, timeout)
}

/// The UUID of the player an event is about (zero for a count).
pub open spec fn event_uuid(e: EventToQQ) -> u128 {
    match e {
        EventToQQ::PlayerJoined(p) => p.uuid,
        EventToQQ::PlayerLeft(p) => p.uuid,
        EventToQQ::PlayerSentChat(p, _) => p.uuid,
        EventToQQ::PlayerCountChanged(_) => 0,
    }
}

/// `e` reports the leave of one of the first `k` departures, one that was a last one.
pub open spec fn reports_departure(deps: Seq<Departure>, k: int, e: EventToQQ) -> bool {
    exists|a: int| 0 <= a < k && (#[trigger] deps[a]).last && e == EventToQQ::PlayerLeft(deps[a].player)
}

/// One round of the heartbeat check at `now`: drops the sightings and the
/// servers whose heartbeats are more than `timeout` seconds old, then
/// reports a leave for each player now on no server, and then the count of
/// online players if it changed.
pub fn check(state: &mut State, timeout: u64, now: u64) -> (events: Vec<EventToQQ>)
    ensures
        final(state)@.players == keep_fresh(old(state)@.players, now, timeout),
        final(state)@.servers == Map::new(
            |s: ServerView| old(state)@.servers.contains_key(s) && !timed_out(old(state)@.servers[s], now, timeout),
            |s: ServerView| old(state)@.servers[s],
        ),
        final(state)@.last_reported_count == online_uuids(final(state)@.players).len(),
        exists|n: int|
            {
                &&& 0 <= n <= events@.len()
                &&& forall|k: int| 0 <= k < n ==> is_fitting_leave(#[trigger] events@[k], old(state)@.players, final(state)@.players, now, timeout)
                &&& forall|k: int, l: int| 0 <= k < n && 0 <= l < n && k != l ==> event_uuid(#[trigger] events@[k]) != event_uuid(#[trigger] events@[l])
                &&& forall|s: ServerView, u: u128| #[trigger] old(state)@.players.contains_key((s, u)) && timed_out(old(state)@.players[(s, u)].1, now, timeout)
                    && !online_anywhere(final(state)@.players, u) ==> exists|k: int| 0 <= k < n && event_uuid(#[trigger] events@[k]) == u
                &&& if old(state)@.last_reported_count == online_uuids(final(state)@.players).len() {
                    events@.len() == n
                } else {
                    events@.len() == n + 1 && events@[n] == EventToQQ::PlayerCountChanged(online_uuids(final(state)@.players).len() as usize)
                }
            },
{
    let ghost before = state@.players;
    let departures = state.check_player_timeouts(timeout, now);
    let ghost after = state@.players;
    let mut events = leaves(&departures, Ghost(before), Ghost(after), now, timeout);
    let ghost n = events@.len() as int;
    let ghost lefts = events@;
    state.check_server_timeouts(timeout, now);
    let count_event = state.report_player_count();
    match count_event {
        Some(e) => {
            events.push(e);
        },
        None => {},
    }
    proof {
        assert forall|k: int| 0 <= k < n implies #[trigger] events@[k] == lefts[k] by {}
        assert forall|s: ServerView, u: u128| #[trigger] before.contains_key((s, u)) && timed_out(before[(s, u)].1, now, timeout)
            && !online_anywhere(after, u) implies exists|x: int| 0 <= x < n && event_uuid(#[trigger] events@[x]) == u by {
            let a = choose|a: int| 0 <= a < departures@.len() && (#[trigger] departures@[a]).player.uuid == u;
            assert(departure_fits(before, after, departures@[a], now, timeout));
            let x = choose|x: int| 0 <= x < lefts.len() && event_uuid(#[trigger] lefts[x]) == departures@[a].player.uuid;
            assert(events@[x] == lefts[x]);
        }
        assert forall|k: int| 0 <= k < n implies is_fitting_leave(#[trigger] events@[k], before, after, now, timeout) by {
            assert(events@[k] == lefts[k]);
        }
        assert forall|k: int, l: int| 0 <= k < n && 0 <= l < n && k != l implies event_uuid(#[trigger] events@[k]) != event_uuid(#[trigger] events@[l]) by {
            assert(events@[k] == lefts[k] && events@[l] == lefts[l]);
        }
        let c = online_uuids(state@.players).len();
        assert(0 <= n <= events@.len());
        assert(if old(state)@.last_reported_count == c {
            events@.len() == n
        } else {
            events@.len() == n + 1 && events@[n] == EventToQQ::PlayerCountChanged(c as usize)
        });
    }
    events
}

/// The leave events for the departures that were last ones.
fn leaves(
    departures: &Vec<Departure>,
    Ghost(before): Ghost<Map<(ServerView, u128), (PlayerView, u64)>>,
    Ghost(after): Ghost<Map<(ServerView, u128), (PlayerView, u64)>>,
    now: u64,
    timeout: u64,
) -> (events: Vec<EventToQQ>)
    requires
        forall|a: int| 0 <= a < departures@.len() ==> departure_fits(before, after, #[trigger] departures@[a], now, timeout),
        forall|a: int, b: int| 0 <= a < departures@.len() && 0 <= b < departures@.len() && a != b ==> (#[trigger] departures@[a]).player.uuid != (#[trigger] departures@[b]).player.uuid,
    ensures
        forall|x: int| 0 <= x < events@.len() ==> is_fitting_leave(#[trigger] events@[x], before, after, now, timeout),
        forall|x: int, y: int| 0 <= x < events@.len() && 0 <= y < events@.len() && x != y ==> event_uuid(#[trigger] events@[x]) != event_uuid(#[trigger] events@[y]),
        forall|a: int| 0 <= a < departures@.len() && (#[trigger] departures@[a]).last ==> exists|x: int| 0 <= x < events@.len() && event_uuid(#[trigger] events@[x]) == departures@[a].player.uuid,
{
    let mut events: Vec<EventToQQ> = Vec::new();
    let m = departures.len();
    let mut k: usize = 0;
    while k < m
        invariant
            m == departures@.len(),
            k <= m,
            forall|a: int| 0 <= a < m ==> departure_fits(before, after, #[trigger] departures@[a], now, timeout),
            forall|a: int, b: int| 0 <= a < m && 0 <= b < m && a != b ==> (#[trigger] departures@[a]).player.uuid != (#[trigger] departures@[b]).player.uuid,
            forall|x: int| 0 <= x < events@.len() ==> reports_departure(departures@, k as int, #[trigger] events@[x]),
            forall|x: int| 0 <= x < events@.len() ==> is_fitting_leave(#[trigger] events@[x], before, after, now, timeout),
            forall|x: int, y: int| 0 <= x < events@.len() && 0 <= y < events@.len() && x != y ==> event_uuid(#[trigger] events@[x]) != event_uuid(#[trigger] events@[y]),
            forall|a: int| 0 <= a < k && (#[trigger] departures@[a]).last ==> exists|x: int| 0 <= x < events@.len() && event_uuid(#[trigger] events@[x]) == departures@[a].player.uuid,
        decreases m - k,
    {
        let ghost prev = events@;
        if departures[k].last {
            let ghost d = departures@[k as int];
            events.push(EventToQQ::PlayerLeft(departures[k].player.clone()));
            proof {
                let s = d.server@;
                assert(before.contains_key((s, d.player.uuid)));
                assert(leave_fits(before, after, d.player@, now, timeout));
                assert forall|x: int| 0 <= x < prev.len() implies event_uuid(#[trigger] prev[x]) != d.player.uuid by {
                    assert(reports_departure(departures@, k as int, prev[x]));
                    let a = choose|a: int| 0 <= a < k && (#[trigger] departures@[a]).last && prev[x] == EventToQQ::PlayerLeft(departures@[a].player);
                    assert(departures@[a].player.uuid != departures@[k as int].player.uuid);
                }
                assert forall|x: int, y: int| 0 <= x < events@.len() && 0 <= y < events@.len() && x != y implies event_uuid(#[trigger] events@[x]) != event_uuid(#[trigger] events@[y]) by {
                    if x < prev.len() && y < prev.len() {
                        assert(events@[x] == prev[x] && events@[y] == prev[y]);
                    } else if x < prev.len() {
                        assert(events@[x] == prev[x]);
                    } else {
                        assert(events@[y] == prev[y]);
                    }
                }
                assert forall|x: int| 0 <= x < events@.len() implies reports_departure(departures@, k + 1, #[trigger] events@[x]) by {
                    if x < prev.len() {
                        assert(events@[x] == prev[x]);
                        assert(reports_departure(departures@, k as int, prev[x]));
                        let a = choose|a: int| 0 <= a < k && (#[trigger] departures@[a]).last && prev[x] == EventToQQ::PlayerLeft(departures@[a].player);
                        assert(0 <= a < k + 1 && departures@[a].last && events@[x] == EventToQQ::PlayerLeft(departures@[a].player));
                    } else {
                        assert(0 <= k < k + 1 && departures@[k as int].last && events@[x] == EventToQQ::PlayerLeft(departures@[k as int].player));
                    }
                }
                assert forall|x: int| 0 <= x < events@.len() implies is_fitting_leave(#[trigger] events@[x], before, after, now, timeout) by {
                    if x < prev.len() {
                        assert(events@[x] == prev[x]);
                    }
                }
                assert forall|a: int| 0 <= a < k + 1 && (#[trigger] departures@[a]).last implies exists|x: int| 0 <= x < events@.len() && event_uuid(#[trigger] events@[x]) == departures@[a].player.uuid by {
                    if a < k {
                        let x = choose|x: int| 0 <= x < prev.len() && event_uuid(#[trigger] prev[x]) == departures@[a].player.uuid;
                        assert(events@[x] == prev[x]);
                    } else {
                        assert(event_uuid(events@[prev.len() as int]) == departures@[a].player.uuid);
                    }
                }
            }
        } else {
            proof {
                assert forall|x: int| 0 <= x < events@.len() implies reports_departure(departures@, k + 1, #[trigger] events@[x]) by {
                    assert(reports_departure(departures@, k as int, events@[x]));
                    let a = choose|a: int| 0 <= a < k && (#[trigger] departures@[a]).last && events@[x] == EventToQQ::PlayerLeft(departures@[a].player);
                    assert(0 <= a < k + 1 && departures@[a].last && events@[x] == EventToQQ::PlayerLeft(departures@[a].player));
                }
            }
        }
        k = k + 1;
    }
    events
}

} // verus!
