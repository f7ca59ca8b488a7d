//! What the hub's console commands do.
use vstd::prelude::*;

use crate::app::event::{Audience, EventToClient, EventToClientWrapper};

verus! {

/// `say <msg>`: the message goes to every Minecraft server.
pub fn say(msg: String) -> (res: EventToClientWrapper)
    ensures
        res == (EventToClientWrapper { event: EventToClient::ConsoleSentMsg(msg), audience: Audience::All }),
{
    EventToClientWrapper { event: EventToClient::ConsoleSentMsg(msg), audience: Audience::All }
}

} // verus!
