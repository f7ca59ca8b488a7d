//! The verified core of a hub that links Minecraft servers with a QQ group:
//! presence bookkeeping from heartbeats, routing of chat between servers and
//! the group, the rich-text player list, and the texts sent to the group.

pub mod app;
pub mod assoc;
pub mod config;
pub mod console;
pub mod order;
pub mod qq;
pub mod richtext;
pub mod server;
pub mod text;
pub mod types;
pub mod warden;

pub use app::{Audience, EventToClient, EventToClientWrapper, EventToQQ, State};
pub use config::{AppConfig, QqConfig, WardenConfig};
pub use types::{Player, Server};
