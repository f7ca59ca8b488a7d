pub mod chat;
pub mod heartbeat;

use vstd::prelude::*;

use crate::app::event::{is_join_of, EventToClientWrapper, EventToQQ};
use crate::app::state::State;
use crate::server::ws::chat::{chat_routes, received_player_chat, PlayerChat};
use crate::server::ws::heartbeat::{beat, beat_joins, beat_players, HeartBeat};

verus! {

/// An event that a Minecraft server sends to the hub.
#[derive(Debug)]
pub enum EventFromClient {
    Heartbeat(HeartBeat),
    PlayerChat(PlayerChat),
}

/// The query of a Minecraft server's WebSocket connection.
#[derive(Debug)]
pub struct WsParams {
    /// The slug of the connecting server.
    pub slug: String,
}

/// What handling an event from a Minecraft server gives: events for the QQ
/// group and events for the Minecraft servers.
#[derive(Debug)]
pub struct ClientOutcome {
    pub to_qq: Vec<EventToQQ>,
    pub to_clients: Vec<EventToClientWrapper>,
}

/// Handles an event from a Minecraft server at instant `now`: a heartbeat
/// updates who is online and reports joins; a chat message goes to the QQ
/// group and to the other servers.
pub fn handle_event_from_client(state: &mut State, event: EventFromClient, now: u64) -> (out: ClientOutcome)
    ensures
        match event {
            EventFromClient::Heartbeat(hb) => {
                &&& final(state)@.servers == old(state)@.servers.insert(hb.server@, now)
                &&& final(state)@.players == beat_players(old(state)@.players, hb.server@, hb.players@, now)
                &&& final(state)@.last_reported_count == old(state)@.last_reported_count
                &&& out.to_clients@.len() == 0
                &&& out.to_qq@.len() == beat_joins(old(state)@.players, hb.server@, hb.players@, now).len()
                &&& forall|k: int| 0 <= k < out.to_qq@.len() ==> is_join_of(#[trigger] out.to_qq@[k], beat_joins(old(state)@.players, hb.server@, hb.players@, now)[k])
            },
            EventFromClient::PlayerChat(chat) => {
                &&& final(state)@ == old(state)@
                &&& out.to_qq@ == seq![chat_routes(chat).0]
                &&& out.to_clients@ == seq![chat_routes(chat).1]
            },
        },
{
    match event {
        EventFromClient::Heartbeat(heart_beat) => {
            let to_qq = beat(state, heart_beat, now);
            ClientOutcome { to_qq, to_clients: Vec::new() }
        },
        EventFromClient::PlayerChat(chat) => {
            let (q, c) = received_player_chat(chat);
            let mut to_qq = Vec::new();
            to_qq.push(q);
            let mut to_clients = Vec::new();
            to_clients.push(c);
            ClientOutcome { to_qq, to_clients }
        },
    }
}

} // verus!
