pub mod chat;

use vstd::prelude::*;

use crate::config::node::chat::ChatConfig;

verus! {

/// The settings of a Minecraft server node.
#[derive(Debug, Clone)]
pub struct NodeConfig {
    /// The chat rules.
    pub chat: ChatConfig,
}

} // verus!
