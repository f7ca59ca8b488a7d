pub mod event;
pub mod state;

pub use event::{Audience, EventToClient, EventToClientWrapper, EventToQQ};
pub use state::State;
