use bdtv_hub::richtext::list::{list, player_groups};
use bdtv_hub::richtext::motd::motd;
use bdtv_hub::richtext::{Hover, NamedColor, TextSegment};
use bdtv_hub::server::goto::get_servers;
use bdtv_hub::{Player, Server, State};

fn server(slug: &str, nickname: &str) -> Server {
    Server { slug: slug.to_string(), nickname: nickname.to_string() }
}

fn player(uuid: u128, nickname: &str) -> Player {
    Player { uuid, nickname: nickname.to_string() }
}

fn text(seg: &TextSegment) -> &str {
    match seg {
        TextSegment::Plain(t) => t,
        TextSegment::Styled { text, .. } => text,
    }
}

#[test]
fn empty_list() {
    let state = State::new();
    assert!(list(&state).is_empty());
    assert!(player_groups(&state).is_empty());
}

#[test]
fn list_is_sorted_and_deduplicated() {
    let mut state = State::new();
    let survival = server("survival", "Survival");
    let lobby = server("lobby", "Lobby");
    state.mark_player_as_online(&survival, &player(1, "steve"), 100);
    state.mark_player_as_online(&survival, &player(2, "Alex"), 100);
    state.mark_player_as_online(&lobby, &player(3, "bob"), 100);
    // Steve was seen later on the lobby than on survival
    state.mark_player_as_online(&lobby, &player(1, "steve"), 200);
    let groups = player_groups(&state);
    assert_eq!(groups.len(), 2);
    assert_eq!(groups[0].0.slug, "lobby");
    let lobby_names: Vec<&str> = groups[0].1.iter().map(|p| p.nickname.as_str()).collect();
    assert_eq!(lobby_names, vec!["bob", "steve"]);
    assert_eq!(groups[1].0.slug, "survival");
    let survival_names: Vec<&str> = groups[1].1.iter().map(|p| p.nickname.as_str()).collect();
    assert_eq!(survival_names, vec!["Alex"]);

    let segs = list(&state);
    let texts: Vec<&str> = segs.iter().map(text).collect();
    assert_eq!(texts, vec!["Lobby", " ", "bob", ", ", "steve", "\n", "Survival", " ", "Alex"]);
    match &segs[0] {
        TextSegment::Styled { color, suggest_command, hover, .. } => {
            assert_eq!(*color, Some(NamedColor::Green));
            assert_eq!(suggest_command.as_deref(), Some("!!goto lobby"));
            assert!(matches!(hover, Some(Hover::ShowText(t)) if t == "点击前往"));
        }
        _ => panic!("server name should be styled"),
    }
    match &segs[3] {
        TextSegment::Styled { color, suggest_command, hover, .. } => {
            assert_eq!(*color, Some(NamedColor::White));
            assert!(suggest_command.is_none());
            assert!(hover.is_none());
        }
        _ => panic!("separator should be styled"),
    }
    assert!(matches!(&segs[1], TextSegment::Plain(t) if t == " "));
    assert!(matches!(&segs[5], TextSegment::Plain(t) if t == "\n"));
}

#[test]
fn player_segment_shows_entity() {
    let mut state = State::new();
    let uuid: u128 = 0x069a79f4_44e9_4726_a5be_fca90e38aaf5;
    state.mark_player_as_online(&server("lobby", "Lobby"), &player(uuid, "Notch"), 1);
    let segs = list(&state);
    assert_eq!(segs.len(), 3);
    match &segs[2] {
        TextSegment::Styled { text, color, hover, .. } => {
            assert_eq!(text, "Notch");
            assert_eq!(*color, Some(NamedColor::Yellow));
            match hover {
                Some(Hover::ShowEntity { name, id, uuid }) => {
                    assert_eq!(name, "Notch");
                    assert_eq!(id, "minecraft:player");
                    assert_eq!(uuid, "069a79f4-44e9-4726-a5be-fca90e38aaf5");
                }
                _ => panic!("player hover should show the entity"),
            }
        }
        _ => panic!("player name should be styled"),
    }
}

#[test]
fn players_sorted_by_lowercase_nickname() {
    let mut state = State::new();
    let lobby = server("lobby", "Lobby");
    state.mark_player_as_online(&lobby, &player(1, "Zed"), 1);
    state.mark_player_as_online(&lobby, &player(2, "alice"), 1);
    state.mark_player_as_online(&lobby, &player(3, "Bob"), 1);
    state.mark_player_as_online(&lobby, &player(4, "ÉMILE"), 1);
    let groups = player_groups(&state);
    let names: Vec<&str> = groups[0].1.iter().map(|p| p.nickname.as_str()).collect();
    assert_eq!(names, vec!["alice", "Bob", "Zed", "ÉMILE"]);
}

#[test]
fn list_names_each_online_player_once() {
    let mut state = State::new();
    for (i, slug) in ["a", "b", "c"].iter().enumerate() {
        let s = server(slug, slug);
        for uuid in 0..4u128 {
            state.mark_player_as_online(&s, &player(uuid, &format!("p{uuid}")), (i as u64) * 10 + uuid as u64);
        }
    }
    let groups = player_groups(&state);
    let listed: usize = groups.iter().map(|g| g.1.len()).sum();
    assert_eq!(listed, state.unique_player_count());
    assert_eq!(listed, 4);
    // everybody was seen last on server "c"
    assert_eq!(groups.len(), 1);
    assert_eq!(groups[0].0.slug, "c");
}

#[test]
fn motd_starts_with_greeting() {
    let mut state = State::new();
    state.mark_player_as_online(&server("lobby", "Lobby"), &player(1, "Steve"), 1);
    let segs = motd(&state);
    let texts: Vec<&str> = segs.iter().map(text).collect();
    assert_eq!(texts, vec!["欢迎来到", " ", "BDTV", "\n\n", "当前在线玩家:", "\n", "Lobby", " ", "Steve"]);
    assert!(matches!(&segs[0], TextSegment::Styled { color: Some(NamedColor::White), .. }));
}

#[test]
fn servers_by_slug() {
    let mut state = State::new();
    state.mark_server_as_online(&server("lobby", "Lobby"), 1);
    state.mark_server_as_online(&server("survival", "Survival"), 1);
    state.mark_server_as_online(&server("lobby", "Lobby (renamed)"), 2);
    let servers = get_servers(&state);
    assert_eq!(servers.len(), 2);
    let mut slugs: Vec<&str> = servers.iter().map(|(s, _)| s.as_str()).collect();
    slugs.sort();
    assert_eq!(slugs, vec!["lobby", "survival"]);
    assert!(servers.iter().all(|(slug, s)| *slug == s.slug));
}

#[test]
fn uuid_of_listed_player_is_hyphenated() {
    for (uuid, text) in [
        (0u128, "00000000-0000-0000-0000-000000000000"),
        (0xa1a2a3a4b1b2c1c2d1d2d3d4d5d6d7d8, "a1a2a3a4-b1b2-c1c2-d1d2-d3d4d5d6d7d8"),
        (u128::MAX, "ffffffff-ffff-ffff-ffff-ffffffffffff"),
    ] {
        let mut state = State::new();
        state.mark_player_as_online(&server("lobby", "Lobby"), &player(uuid, "P"), 1);
        let segs = list(&state);
        assert!(matches!(&segs[2], TextSegment::Styled { hover: Some(Hover::ShowEntity { uuid: u, .. }), .. } if u == text));
    }
}

#[test]
fn equal_lowercase_names_ordered_by_name_then_uuid() {
    let mut state = State::new();
    let lobby = server("lobby", "Lobby");
    state.mark_player_as_online(&lobby, &player(7, "alice"), 1);
    state.mark_player_as_online(&lobby, &player(9, "Alice"), 1);
    state.mark_player_as_online(&lobby, &player(3, "Alice"), 1);
    let groups = player_groups(&state);
    let listed: Vec<(u128, &str)> = groups[0].1.iter().map(|p| (p.uuid, p.nickname.as_str())).collect();
    assert_eq!(listed, vec![(3, "Alice"), (9, "Alice"), (7, "alice")]);
}

#[test]
fn equally_recent_sightings_list_under_first_server() {
    let mut state = State::new();
    state.mark_player_as_online(&server("survival", "Survival"), &player(1, "steve"), 50);
    state.mark_player_as_online(&server("creative", "Creative"), &player(1, "steve"), 50);
    let groups = player_groups(&state);
    assert_eq!(groups.len(), 1);
    assert_eq!(groups[0].0.slug, "creative");
}

#[test]
fn motd_is_greeting_then_list() {
    let mut state = State::new();
    state.mark_player_as_online(&server("lobby", "Lobby"), &player(1, "steve"), 5);
    state.mark_player_as_online(&server("survival", "Survival"), &player(2, "Alex"), 6);
    let listed = list(&state);
    let full = motd(&state);
    assert_eq!(full.len(), 6 + listed.len());
    assert_eq!(format!("{:?}", &full[6..]), format!("{:?}", listed));
}
