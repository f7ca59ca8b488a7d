//! What the hub does for the Minecraft servers that connect to it.
pub mod goto;
pub mod ws;
