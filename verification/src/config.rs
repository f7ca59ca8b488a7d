//! The hub's configuration, as read from `config.yaml`.
pub mod check;
pub mod node;
pub mod qq;

use vstd::prelude::*;

pub use check::WardenConfig;
pub use qq::QqConfig;

verus! {

/// The whole configuration.
#[derive(Debug, Clone)]
pub struct AppConfig {
    /// The address the HTTP server listens on.
    pub listen: String,
    /// The QQ connection, when the hub is bound to a QQ group.
    pub qq: Option<QqConfig>,
    /// How heartbeats are checked.
    pub check: WardenConfig,
}

} // verus!
