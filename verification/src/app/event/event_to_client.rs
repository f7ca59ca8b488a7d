use vstd::prelude::*;

use crate::types::{Player, Server};

verus! {

/// A message of a QQ group member, as pushed to the Minecraft servers.
#[derive(Debug)]
pub struct GroupMemberSentMsg {
    /// The sender's QQ number.
    pub sender_id: i64,
    /// The name under which the sender is shown.
    pub sender_nickname: String,
    /// The message, as QQ delivered it.
    pub message: String,
}

/// A chat message of a player, as pushed to the other Minecraft servers.
#[derive(Debug)]
pub struct ClientSentMsg {
    /// The server the message comes from.
    pub source: Server,
    /// The player who wrote it.
    pub sender: Player,
    /// The message.
    pub message: String,
}

impl Clone for GroupMemberSentMsg {
    fn clone(&self) -> (res: Self)
        ensures
            res == *self,
    {
        GroupMemberSentMsg {
            sender_id: self.sender_id,
            sender_nickname: self.sender_nickname.clone(),
            message: self.message.clone(),
        }
    }
}

impl Clone for ClientSentMsg {
    fn clone(&self) -> (res: Self)
        ensures
            res == *self,
    {
        ClientSentMsg {
            source: self.source.clone(),
            sender: self.sender.clone(),
            message: self.message.clone(),
        }
    }
}

} // verus!
