use bdtv_hub::qq::viaws::handler::get_sender_name;
use bdtv_hub::qq::viaws::utils::player_count_card;
use bdtv_hub::qq::viaws::{GroupRelay, QqAction, QqEvent, QqGroupMessage, QqReaction, QqSender};
use bdtv_hub::{Audience, EventToClient, EventToQQ, Player};

fn message(group_id: i64, user_id: i64, card: Option<&str>, nickname: Option<&str>) -> QqGroupMessage {
    QqGroupMessage {
        group_id,
        user_id,
        raw_message: "hi there".to_string(),
        sender: QqSender {
            user_id: Some(user_id),
            nickname: nickname.map(|s| s.to_string()),
            card: card.map(|s| s.to_string()),
        },
    }
}

#[test]
fn sender_name_prefers_card_then_nickname_then_number() {
    assert_eq!(get_sender_name(&message(1, 10001, Some("Card"), Some("Nick"))), "Card");
    assert_eq!(get_sender_name(&message(1, 10001, Some(""), Some("Nick"))), "Nick");
    assert_eq!(get_sender_name(&message(1, 10001, None, Some("Nick"))), "Nick");
    assert_eq!(get_sender_name(&message(1, 10001, Some(""), Some(""))), "10001");
    assert_eq!(get_sender_name(&message(1, 1234567890123, None, None)), "1234567890123");
    assert_eq!(get_sender_name(&message(1, 0, None, None)), "0");
    assert_eq!(get_sender_name(&message(1, -42, None, None)), "-42");
    assert_eq!(get_sender_name(&message(1, i64::MIN, None, None)), "-9223372036854775808");
}

#[test]
fn texts_sent_to_the_group() {
    let relay = GroupRelay { group_id: 777 };
    let steve = Player { uuid: 1, nickname: "Steve".to_string() };
    let a = relay.handle_event_to_qq(EventToQQ::PlayerJoined(steve.clone()));
    assert!(matches!(a, QqAction::SendGroupMsg { group_id: 777, ref message } if message == "Steve 加入了服务器"));
    let a = relay.handle_event_to_qq(EventToQQ::PlayerLeft(steve.clone()));
    assert!(matches!(a, QqAction::SendGroupMsg { group_id: 777, ref message } if message == "Steve 离开了服务器"));
    let a = relay.handle_event_to_qq(EventToQQ::PlayerSentChat(steve.clone(), "gg".to_string()));
    assert!(matches!(a, QqAction::SendGroupMsg { group_id: 777, ref message } if message == "Steve: gg"));
    let a = relay.handle_event_to_qq(EventToQQ::PlayerCountChanged(3));
    assert!(matches!(a, QqAction::ShowOnlineCount { group_id: 777, count: 3 }));
}

#[test]
fn group_card_shows_count() {
    assert_eq!(player_count_card(0, "HubBot"), "HubBot");
    assert_eq!(player_count_card(1, "HubBot"), "1 人在线");
    assert_eq!(player_count_card(12, "HubBot"), "12 人在线");
    assert_eq!(player_count_card(1000, "HubBot"), "1000 人在线");
}

#[test]
fn events_from_qq() {
    let relay = GroupRelay { group_id: 5 };
    let r = relay.handle_event_from_qq(QqEvent::Lifecycle {
        meta_event_type: "lifecycle".to_string(),
        sub_type: "connect".to_string(),
        self_id: 99,
    });
    assert!(matches!(r, QqReaction::Connected(99)));
    let r = relay.handle_event_from_qq(QqEvent::Lifecycle {
        meta_event_type: "lifecycle".to_string(),
        sub_type: "enable".to_string(),
        self_id: 99,
    });
    assert!(matches!(r, QqReaction::Ignore));
    let r = relay.handle_event_from_qq(QqEvent::GroupMessage(message(6, 1, Some("C"), None)));
    assert!(matches!(r, QqReaction::Ignore));
    let r = relay.handle_event_from_qq(QqEvent::Other);
    assert!(matches!(r, QqReaction::Ignore));
    let r = relay.handle_event_from_qq(QqEvent::GroupMessage(message(5, 31, None, Some("Nick"))));
    match r {
        QqReaction::Forward(w) => {
            assert!(matches!(w.audience, Audience::All));
            assert!(w.audience.includes("any-server"));
            match w.event {
                EventToClient::GroupMemberSentMsg(m) => {
                    assert_eq!(m.sender_id, 31);
                    assert_eq!(m.sender_nickname, "Nick");
                    assert_eq!(m.message, "hi there");
                }
                _ => panic!("wrong event"),
            }
        }
        _ => panic!("not forwarded"),
    }
}
