use bdtv_hub::app::event::event_to_client::ClientSentMsg;
use bdtv_hub::server::ws::chat::{received_player_chat, PlayerChat};
use bdtv_hub::server::ws::{handle_event_from_client, EventFromClient};
use bdtv_hub::{Audience, EventToClient, EventToQQ, Player, Server, State};

fn chat() -> PlayerChat {
    PlayerChat {
        player: Player { uuid: 42, nickname: "Steve".to_string() },
        server: Server { slug: "lobby".to_string(), nickname: "Lobby".to_string() },
        content: "hello".to_string(),
    }
}

#[test]
fn chat_goes_to_qq_and_other_servers() {
    let (to_qq, to_clients) = received_player_chat(chat());
    assert!(matches!(&to_qq, EventToQQ::PlayerSentChat(p, c) if p.uuid == 42 && c == "hello"));
    assert!(matches!(&to_clients.audience, Audience::Except(s) if s == "lobby"));
    assert!(matches!(&to_clients.event,
        EventToClient::ClientSentMsg(ClientSentMsg { source, sender, message })
            if source.slug == "lobby" && sender.nickname == "Steve" && message == "hello"));
}

#[test]
fn chat_is_not_echoed() {
    let (_, to_clients) = received_player_chat(chat());
    assert!(!to_clients.audience.includes("lobby"));
    assert!(to_clients.audience.includes("survival"));
    assert!(to_clients.audience.includes(""));
}

#[test]
fn audience_selection() {
    assert!(Audience::All.includes("lobby"));
    assert!(Audience::Only("lobby".to_string()).includes("lobby"));
    assert!(!Audience::Only("lobby".to_string()).includes("lobby2"));
    assert!(!Audience::Except("lobby".to_string()).includes("lobby"));
    assert!(Audience::Except("lobby".to_string()).includes("Lobby"));
}

#[test]
fn client_chat_leaves_presence_alone() {
    let mut state = State::new();
    let out = handle_event_from_client(&mut state, EventFromClient::PlayerChat(chat()), 0);
    assert_eq!(out.to_qq.len(), 1);
    assert_eq!(out.to_clients.len(), 1);
    assert_eq!(state.unique_player_count(), 0);
}

#[test]
fn console_say_reaches_every_server() {
    let w = bdtv_hub::console::say("restart in 5 minutes".to_string());
    assert!(matches!(&w.event, EventToClient::ConsoleSentMsg(m) if m == "restart in 5 minutes"));
    assert!(matches!(w.audience, Audience::All));
    assert!(w.audience.includes("lobby"));
}
