pub mod handler;
pub mod utils;

use vstd::prelude::*;

use crate::app::event::{audience_includes, Audience, EventToClient, EventToClientWrapper, EventToQQ};
use crate::app::event::event_to_client::GroupMemberSentMsg;
use crate::qq::viaws::handler::{handle_special_group_msg, sender_name};
use crate::qq::viaws::utils::{chat_text, join_text, left_text, player_chat, player_join, player_left};
use crate::text::str_eq;

verus! {

/// The sender of a group message, as QQ describes it.
#[derive(Debug)]
pub struct QqSender {
    pub user_id: Option<i64>,
    pub nickname: Option<String>,
    /// The sender's card (display name) in the group.
    pub card: Option<String>,
}

/// A message posted in a QQ group.
#[derive(Debug)]
pub struct QqGroupMessage {
    pub group_id: i64,
    /// The sender's QQ number.
    pub user_id: i64,
    /// The message as QQ delivered it.
    pub raw_message: String,
    pub sender: QqSender,
}

/// The events from QQ that the hub tells apart.
#[derive(Debug)]
pub enum QqEvent {
    /// A lifecycle meta event of the bot account.
    Lifecycle { meta_event_type: String, sub_type: String, self_id: i64 },
    /// A message in some group.
    GroupMessage(QqGroupMessage),
    /// Anything else.
    Other,
}

/// What the hub does with an event from QQ.
#[derive(Debug)]
pub enum QqReaction {
    /// The connection to the bot account `self_id` is up: note it.
    Connected(i64),
    /// Push this to the Minecraft servers.
    Forward(EventToClientWrapper),
    /// Nothing.
    Ignore,
}

/// What the hub asks of QQ for an event.
#[derive(Debug)]
pub enum QqAction {
    /// Send a text message to a group.
    SendGroupMsg { group_id: i64, message: String },
    /// Set the bot's card in a group to show this number of online players;
    /// the card for zero is the bot's own nickname, so it needs the login info.
    ShowOnlineCount { group_id: i64, count: usize },
}

/// The hub's binding to one QQ group.
#[derive(Debug, Clone, Copy)]
pub struct GroupRelay {
    pub group_id: i64,
}

/// What the hub does with `event` when bound to group `group_id`.
pub open spec fn reaction_fits(group_id: i64, event: QqEvent, r: QqReaction) -> bool {
    match event {
        QqEvent::Lifecycle { meta_event_type, sub_type, self_id } => if meta_event_type@ == "lifecycle"@ && sub_type@
            == "connect"@ {
            r == QqReaction::Connected(self_id)
        } else {
            r == QqReaction::Ignore
        },
        QqEvent::GroupMessage(m) => if m.group_id == group_id {
            match r {
                QqReaction::Forward(w) => {
                    &&& w.audience == Audience::All
                    &&& w.event matches EventToClient::GroupMemberSentMsg(g)
                    &&& g.sender_id == m.user_id
                    &&& g.sender_nickname@ == sender_name(m)
                    &&& g.message == m.raw_message
                },
                _ => false,
            }
        } else {
            r == QqReaction::Ignore
        },
        QqEvent::Other => r == QqReaction::Ignore,
    }
}

/// What the hub asks of QQ for `event` when bound to group `group_id`.
pub open spec fn action_fits(group_id: i64, event: EventToQQ, a: QqAction) -> bool {
    match event {
        EventToQQ::PlayerJoined(p) => a matches QqAction::SendGroupMsg { group_id: g, message } && g == group_id
            && message@ == join_text(p.nickname@),
        EventToQQ::PlayerLeft(p) => a matches QqAction::SendGroupMsg { group_id: g, message } && g == group_id
            && message@ == left_text(p.nickname@),
        EventToQQ::PlayerCountChanged(n) => a == QqAction::ShowOnlineCount { group_id, count: n },
        EventToQQ::PlayerSentChat(p, content) => a matches QqAction::SendGroupMsg { group_id: g, message } && g == group_id
            && message@ == chat_text(p.nickname@, content@),
    }
}

impl GroupRelay {
    /// Handles an event of the hub that goes to QQ.
    pub fn handle_event_to_qq(&self, event: EventToQQ) -> (action: QqAction)
        ensures
            action_fits(self.group_id, event, action),
    {
        match event {
            EventToQQ::PlayerJoined(player) => QqAction::SendGroupMsg { group_id: self.group_id, message: player_join(&player) },
            EventToQQ::PlayerLeft(player) => QqAction::SendGroupMsg { group_id: self.group_id, message: player_left(&player) },
            EventToQQ::PlayerCountChanged(count) => QqAction::ShowOnlineCount { group_id: self.group_id, count },
            EventToQQ::PlayerSentChat(player, content) => QqAction::SendGroupMsg {
                group_id: self.group_id,
                message: player_chat(&player, content.as_str()),
            },
        }
    }

    /// Handles an event from QQ: notes the connection, forwards messages of
    /// the bound group to every Minecraft server, and ignores the rest.
    pub fn handle_event_from_qq(&self, event: QqEvent) -> (reaction: QqReaction)
        ensures
            reaction_fits(self.group_id, event, reaction),
            reaction is Forward <==> (event matches QqEvent::GroupMessage(m) && m.group_id == self.group_id),
    {
        match event {
            QqEvent::Lifecycle { meta_event_type, sub_type, self_id } => {
                if str_eq(meta_event_type.as_str(), "lifecycle") && str_eq(sub_type.as_str(), "connect") {
                    QqReaction::Connected(self_id)
                } else {
                    QqReaction::Ignore
                }
            },
            QqEvent::GroupMessage(group_message) => {
                if group_message.group_id == self.group_id {
                    QqReaction::Forward(handle_special_group_msg(group_message))
                } else {
                    QqReaction::Ignore
                }
            },
            QqEvent::Other => QqReaction::Ignore,
        }
    }
}

/// A message of the bound QQ group reaches every Minecraft server.
pub proof fn law_group_message_reaches_all(group_id: i64, event: QqEvent, r: QqReaction, slug: Seq<char>)
    requires
        reaction_fits(group_id, event, r),
        event matches QqEvent::GroupMessage(m) && m.group_id == group_id,
    ensures
        r matches QqReaction::Forward(w) && audience_includes(w.audience, slug),
{
}

/// Only the bound group reaches the Minecraft servers: a message of any
/// other group is ignored, and whatever is forwarded is a message of the
/// bound group.
pub proof fn law_other_groups_ignored(group_id: i64, event: QqEvent, r: QqReaction)
    requires
        reaction_fits(group_id, event, r),
    ensures
        (event matches QqEvent::GroupMessage(m) && m.group_id != group_id) ==> r is Ignore,
        r is Forward ==> (event matches QqEvent::GroupMessage(m) && m.group_id == group_id),
{
}

} // verus!
