//! Verified core of the Vakil pluggable reverse proxy: the plugin ABI data
//! model, plugin host decisions, runtime configuration parsing, hook dispatch
//! planning and the logic of the bundled example plugins.

pub mod text;
pub mod abi;
pub mod config;
pub mod host;
pub mod dispatch;
pub mod l4;
pub mod plugins;
