use vstd::prelude::*;

use crate::app::event::{audience_includes, Audience, EventToClient, EventToClientWrapper, EventToQQ};
use crate::app::event::event_to_client::ClientSentMsg;
use crate::qq::viaws::action_fits;
use crate::qq::viaws::QqAction;
use crate::types::{Player, Server};

verus! {

/// A chat message that a player wrote on a Minecraft server.
#[derive(Debug)]
pub struct PlayerChat {
    pub player: Player,
    pub server: Server,
    pub content: String,
}

impl Clone for PlayerChat {
    fn clone(&self) -> (res: Self)
        ensures
            res == *self,
    {
        PlayerChat { player: self.player.clone(), server: self.server.clone(), content: self.content.clone() }
    }
}

/// The events a chat message gives: one for the QQ group, and one for every
/// Minecraft server but the one it was written on.
pub open spec fn chat_routes(payload: PlayerChat) -> (EventToQQ, EventToClientWrapper) {
    (
        EventToQQ::PlayerSentChat(payload.player, payload.content),
        EventToClientWrapper {
            event: EventToClient::ClientSentMsg(
                ClientSentMsg { source: payload.server, sender: payload.player, message: payload.content },
            ),
            audience: Audience::Except(payload.server.slug),
        },
    )
}

/// Where a player's chat message goes: to the QQ group, and to every
/// Minecraft server but the one it was written on.
pub fn received_player_chat(payload: PlayerChat) -> (res: (EventToQQ, EventToClientWrapper))
    ensures
        res == chat_routes(payload),
        res.0 matches EventToQQ::PlayerSentChat(p, c) && p == payload.player && c == payload.content,
        res.1.event matches EventToClient::ClientSentMsg(m) && m.sender == payload.player && m.source == payload.server
            && m.message == payload.content,
        res.1.audience == Audience::Except(payload.server.slug),
{
    let for_qq = payload.clone();
    let for_clients = payload.clone();
    let to_qq = EventToQQ::PlayerSentChat(for_qq.player, for_qq.content);
    let to_clients = EventToClientWrapper {
        event: EventToClient::ClientSentMsg(
            ClientSentMsg { source: for_clients.server, sender: for_clients.player, message: for_clients.content },
        ),
        audience: Audience::Except(payload.server.slug),
    };
    (to_qq, to_clients)
}

/// A chat message is relayed to every Minecraft server except the one it was
/// written on.
pub proof fn law_chat_not_echoed(payload: PlayerChat, slug: Seq<char>)
    ensures
        audience_includes(chat_routes(payload).1.audience, slug) <==> slug != payload.server.slug@,
{
}

/// A chat message goes to the QQ group as said by its own speaker: the event
/// carries the chat's player and content unchanged, and the group receives
/// the speaker's nickname, a colon and the content, in the bound group.
pub proof fn law_chat_names_speaker(payload: PlayerChat, group_id: i64, a: QqAction)
    requires
        action_fits(group_id, chat_routes(payload).0, a),
    ensures
        chat_routes(payload).0 matches EventToQQ::PlayerSentChat(p, c) && p == payload.player && c == payload.content,
        a matches QqAction::SendGroupMsg { group_id: g, message } && g == group_id && message@ == payload.player.nickname@
            + ": "@ + payload.content@,
{
}

/// A chat message reaches the other servers as written, by its speaker, from
/// its server.
pub proof fn law_chat_relayed_unchanged(payload: PlayerChat)
    ensures
        chat_routes(payload).0 matches EventToQQ::PlayerSentChat(p, c) && p == payload.player && c == payload.content,
        chat_routes(payload).1.event matches EventToClient::ClientSentMsg(m) && m.sender == payload.player && m.source
            == payload.server && m.message == payload.content,
{
}

} // verus!
