use bdtv_hub::app::state::heartbeat::is_timed_out;
use bdtv_hub::app::state::{Arrival, NANOS_PER_SEC};
use bdtv_hub::server::ws::heartbeat::{beat, HeartBeat};
use bdtv_hub::warden::check;
use bdtv_hub::{EventToQQ, Player, Server, State};

fn server(slug: &str, nickname: &str) -> Server {
    Server { slug: slug.to_string(), nickname: nickname.to_string() }
}

fn player(uuid: u128, nickname: &str) -> Player {
    Player { uuid, nickname: nickname.to_string() }
}

const SEC: u64 = NANOS_PER_SEC;

#[test]
fn first_heartbeat_is_a_join() {
    let mut state = State::new();
    let lobby = server("lobby", "Lobby");
    let survival = server("survival", "Survival");
    let steve = player(1, "Steve");
    assert_eq!(state.mark_player_as_online(&lobby, &steve, 10 * SEC), Arrival::Joined);
    assert_eq!(state.mark_player_as_online(&lobby, &steve, 11 * SEC), Arrival::StillOnline);
    assert_eq!(state.mark_player_as_online(&survival, &steve, 12 * SEC), Arrival::JoinedAnotherServer);
    assert_eq!(state.mark_player_as_online(&survival, &steve, 13 * SEC), Arrival::StillOnline);
}

#[test]
fn unique_count_ignores_servers() {
    let mut state = State::new();
    let lobby = server("lobby", "Lobby");
    let survival = server("survival", "Survival");
    state.mark_player_as_online(&lobby, &player(1, "Steve"), SEC);
    state.mark_player_as_online(&survival, &player(1, "Steve"), SEC);
    state.mark_player_as_online(&survival, &player(2, "Alex"), SEC);
    assert_eq!(state.unique_player_count(), 2);
}

#[test]
fn count_is_reported_once() {
    let mut state = State::new();
    assert!(state.report_player_count().is_none());
    state.mark_player_as_online(&server("lobby", "Lobby"), &player(1, "Steve"), SEC);
    state.mark_player_as_online(&server("lobby", "Lobby"), &player(2, "Alex"), SEC);
    assert!(matches!(state.report_player_count(), Some(EventToQQ::PlayerCountChanged(2))));
    assert!(state.report_player_count().is_none());
}

#[test]
fn leave_only_when_gone_from_all_servers() {
    let mut state = State::new();
    let lobby = server("lobby", "Lobby");
    let survival = server("survival", "Survival");
    let steve = player(7, "Steve");
    state.mark_player_as_online(&lobby, &steve, 0);
    state.mark_player_as_online(&survival, &steve, 100 * SEC);
    // the lobby sighting is 101 s old, the survival one 1 s
    let departures = state.check_player_timeouts(30, 101 * SEC);
    assert_eq!(departures.len(), 1);
    assert_eq!(departures[0].server.slug, "lobby");
    assert_eq!(departures[0].player.uuid, 7);
    assert!(!departures[0].last);
    assert_eq!(state.unique_player_count(), 1);
    // now the survival sighting is old too
    let departures = state.check_player_timeouts(30, 200 * SEC);
    assert_eq!(departures.len(), 1);
    assert_eq!(departures[0].server.slug, "survival");
    assert!(departures[0].last);
    assert_eq!(state.unique_player_count(), 0);
}

#[test]
fn one_departure_per_player() {
    let mut state = State::new();
    let steve = player(7, "Steve");
    state.mark_player_as_online(&server("a", "A"), &steve, 0);
    state.mark_player_as_online(&server("b", "B"), &steve, 0);
    state.mark_player_as_online(&server("b", "B"), &player(8, "Alex"), 0);
    let departures = state.check_player_timeouts(5, 60 * SEC);
    assert_eq!(departures.len(), 2);
    assert!(departures.iter().all(|d| d.last));
    let mut uuids: Vec<u128> = departures.iter().map(|d| d.player.uuid).collect();
    uuids.sort();
    assert_eq!(uuids, vec![7, 8]);
}

#[test]
fn timeout_counts_whole_seconds() {
    // exactly `timeout` whole seconds old: kept
    assert!(!is_timed_out(0, 30 * SEC + SEC - 1, 30));
    assert!(!is_timed_out(0, 30 * SEC, 30));
    // one whole second more: dropped
    assert!(is_timed_out(0, 31 * SEC, 30));
    // a heartbeat later than now counts as zero seconds old
    assert!(!is_timed_out(50 * SEC, 10 * SEC, 0));
    let mut state = State::new();
    state.mark_player_as_online(&server("a", "A"), &player(1, "Steve"), 0);
    assert!(state.check_player_timeouts(30, 30 * SEC + SEC - 1).is_empty());
    assert_eq!(state.unique_player_count(), 1);
    assert_eq!(state.check_player_timeouts(30, 31 * SEC).len(), 1);
}

#[test]
fn fresh_heartbeat_survives_zero_timeout() {
    let mut state = State::new();
    state.mark_player_as_online(&server("a", "A"), &player(1, "Steve"), 5 * SEC);
    assert!(state.check_player_timeouts(0, 5 * SEC).is_empty());
    assert_eq!(state.unique_player_count(), 1);
}

#[test]
fn servers_come_and_go() {
    let mut state = State::new();
    let lobby = server("lobby", "Lobby");
    assert!(state.mark_server_as_online(&lobby, 0));
    assert!(!state.mark_server_as_online(&lobby, 10 * SEC));
    assert!(state.mark_server_as_online(&server("pvp", "PvP"), 0));
    let removed = state.check_server_timeouts(15, 20 * SEC);
    assert_eq!(removed.len(), 1);
    assert_eq!(removed[0].slug, "pvp");
    assert!(!state.mark_server_as_online(&lobby, 21 * SEC));
    assert!(state.mark_server_as_online(&server("pvp", "PvP"), 21 * SEC));
}

#[test]
fn heartbeat_reports_joins() {
    let mut state = State::new();
    let lobby = server("lobby", "Lobby");
    let events = beat(
        &mut state,
        HeartBeat { server: lobby.clone(), players: vec![player(1, "Steve"), player(2, "Alex"), player(1, "Steve")] },
        SEC,
    );
    assert_eq!(events.len(), 2);
    assert!(matches!(&events[0], EventToQQ::PlayerJoined(p) if p.uuid == 1));
    assert!(matches!(&events[1], EventToQQ::PlayerJoined(p) if p.uuid == 2));
    let events = beat(&mut state, HeartBeat { server: server("b", "B"), players: vec![player(2, "Alex")] }, 2 * SEC);
    assert!(events.is_empty());
    assert_eq!(state.unique_player_count(), 2);
}

#[test]
fn warden_check_reports_leaves_then_count() {
    let mut state = State::new();
    let lobby = server("lobby", "Lobby");
    beat(&mut state, HeartBeat { server: lobby.clone(), players: vec![player(1, "Steve"), player(2, "Alex")] }, 0);
    let events = check(&mut state, 10, SEC);
    assert_eq!(events.len(), 1);
    assert!(matches!(events[0], EventToQQ::PlayerCountChanged(2)));
    beat(&mut state, HeartBeat { server: lobby.clone(), players: vec![player(2, "Alex")] }, 20 * SEC);
    let events = check(&mut state, 10, 25 * SEC);
    assert_eq!(events.len(), 2);
    assert!(matches!(&events[0], EventToQQ::PlayerLeft(p) if p.uuid == 1 && p.nickname == "Steve"));
    assert!(matches!(events[1], EventToQQ::PlayerCountChanged(1)));
    let events = check(&mut state, 10, 26 * SEC);
    assert!(events.is_empty());
}

#[test]
fn heartbeat_players_are_listed() {
    let mut state = State::new();
    beat(&mut state, HeartBeat { server: server("lobby", "Lobby"), players: vec![player(3, "c"), player(1, "a")] }, SEC);
    let groups = bdtv_hub::richtext::list::player_groups(&state);
    assert_eq!(groups.len(), 1);
    let uuids: Vec<u128> = groups[0].1.iter().map(|p| p.uuid).collect();
    assert_eq!(uuids, vec![1, 3]);
}
