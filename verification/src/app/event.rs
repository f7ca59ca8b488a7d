pub mod event_to_client;

use vstd::prelude::*;

use crate::app::event::event_to_client::{ClientSentMsg, GroupMemberSentMsg};
use crate::text::str_eq;
use crate::types::{Player, PlayerView};

verus! {

/// An event that the hub reports to the QQ group.
#[derive(Debug)]
pub enum EventToQQ {
    /// A player came online on some server, having been online on none.
    PlayerJoined(Player),
    /// A player is no longer online on any server.
    PlayerLeft(Player),
    /// The number of distinct players online changed to this value.
    PlayerCountChanged(usize),
    /// A player said something in the chat of a Minecraft server.
    PlayerSentChat(Player, String),
}

/// An event that the hub pushes to the connected Minecraft servers.
#[derive(Debug)]
pub enum EventToClient {
    /// A message from a member of the QQ group.
    GroupMemberSentMsg(GroupMemberSentMsg),
    /// A chat message from a player on one of the Minecraft servers.
    ClientSentMsg(ClientSentMsg),
    /// A message typed on the hub's console.
    ConsoleSentMsg(String),
}

/// `e` reports that player `p` joined.
pub open spec fn is_join_of(e: EventToQQ, p: PlayerView) -> bool {
    e matches EventToQQ::PlayerJoined(q) && q@ == p
}

/// `e` reports that player `p` left.
pub open spec fn is_leave_of(e: EventToQQ, p: PlayerView) -> bool {
    e matches EventToQQ::PlayerLeft(q) && q@ == p
}

/// Which Minecraft servers receive an [`EventToClient`].
#[derive(Debug)]
pub enum Audience {
    /// Every server.
    All,
    /// Only the server with this slug.
    Only(String),
    /// Every server but the one with this slug.
    Except(String),
}

/// Whether a server with slug `slug` is among `audience`.
pub open spec fn audience_includes(audience: Audience, slug: Seq<char>) -> bool {
    match audience {
        Audience::All => true,
        Audience::Only(s) => s@ == slug,
        Audience::Except(s) => s@ != slug,
    }
}

impl Audience {
    pub fn includes(&self, slug: &str) -> (res: bool)
        ensures
            res == audience_includes(*self, slug@),
    {
        match self {
            Audience::All => true,
            Audience::Only(s) => str_eq(s.as_str(), slug),
            Audience::Except(s) => !str_eq(s.as_str(), slug),
        }
    }
}

/// An event to the Minecraft servers together with the servers it is for.
#[derive(Debug)]
pub struct EventToClientWrapper {
    pub event: EventToClient,
    pub audience: Audience,
}

impl Clone for EventToQQ {
    fn clone(&self) -> (res: Self)
        ensures
            res == *self,
    {
        match self {
            EventToQQ::PlayerJoined(p) => EventToQQ::PlayerJoined(p.clone()),
            EventToQQ::PlayerLeft(p) => EventToQQ::PlayerLeft(p.clone()),
            EventToQQ::PlayerCountChanged(n) => EventToQQ::PlayerCountChanged(*n),
            EventToQQ::PlayerSentChat(p, s) => EventToQQ::PlayerSentChat(p.clone(), s.clone()),
        }
    }
}

impl Clone for EventToClient {
    fn clone(&self) -> (res: Self)
        ensures
            res == *self,
    {
        match self {
            EventToClient::GroupMemberSentMsg(m) => EventToClient::GroupMemberSentMsg(m.clone()),
            EventToClient::ClientSentMsg(m) => EventToClient::ClientSentMsg(m.clone()),
            EventToClient::ConsoleSentMsg(s) => EventToClient::ConsoleSentMsg(s.clone()),
        }
    }
}

impl Clone for Audience {
    fn clone(&self) -> (res: Self)
        ensures
            res == *self,
    {
        match self {
            Audience::All => Audience::All,
            Audience::Only(s) => Audience::Only(s.clone()),
            Audience::Except(s) => Audience::Except(s.clone()),
        }
    }
}

impl Clone for EventToClientWrapper {
    fn clone(&self) -> (res: Self)
        ensures
            res == *self,
    {
        EventToClientWrapper { event: self.event.clone(), audience: self.audience.clone() }
    }
}

} // verus!
