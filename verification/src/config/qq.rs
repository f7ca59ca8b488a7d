use vstd::prelude::*;

verus! {

/// The OneBot v11 WebSocket connection to QQ.
#[derive(Debug, Clone)]
pub struct QqConfig {
    /// The WebSocket host.
    pub host: String,
    /// The WebSocket port.
    pub port: u16,
    /// The access token, if the server asks for one.
    pub token: Option<String>,
    /// The QQ group the hub is bound to.
    pub group_id: i64,
}

} // verus!
