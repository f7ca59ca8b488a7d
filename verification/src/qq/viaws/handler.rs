use vstd::prelude::*;

use crate::app::event::{Audience, EventToClient, EventToClientWrapper};
use crate::app::event::event_to_client::GroupMemberSentMsg;
use crate::qq::viaws::QqGroupMessage;
use crate::text::{decimal_i64, signed_decimal};

verus! {

/// The name a group message's sender is shown under: the group card when
/// there is a non-empty one, else the non-empty nickname, else the QQ number.
pub open spec fn sender_name(m: QqGroupMessage) -> Seq<char> {
    if m.sender.card is Some && m.sender.card->0@.len() > 0 {
        m.sender.card->0@
    } else if m.sender.nickname is Some && m.sender.nickname->0@.len() > 0 {
        m.sender.nickname->0@
    } else {
        signed_decimal(m.user_id as int)
    }
}

/// The name a group message's sender is shown under.
pub fn get_sender_name(group_message: &QqGroupMessage) -> (res: String)
    ensures
        res@ == sender_name(*group_message),
{
    let sender = &group_message.sender;
    if let Some(card) = &sender.card {
        if !card.as_str().is_empty() {
            return card.clone();
        }
    }
    if let Some(nickname) = &sender.nickname {
        if !nickname.as_str().is_empty() {
            return nickname.clone();
        }
    }
    decimal_i64(group_message.user_id)
}

/// A message of the bound group, as pushed to every Minecraft server.
pub fn handle_special_group_msg(group_message: QqGroupMessage) -> (res: EventToClientWrapper)
    ensures
        res.audience == Audience::All,
        res.event matches EventToClient::GroupMemberSentMsg(g) && g.sender_id == group_message.user_id
            && g.sender_nickname@ == sender_name(group_message) && g.message == group_message.raw_message,
{
    let sender_nickname = get_sender_name(&group_message);
    EventToClientWrapper {
        event: EventToClient::GroupMemberSentMsg(
            GroupMemberSentMsg { sender_id: group_message.user_id, sender_nickname, message: group_message.raw_message },
        ),
        audience: Audience::All,
    }
}

} // verus!
