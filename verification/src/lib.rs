//! Configuration assembly and plugin lifecycle rules for a Zenoh plugin
//! template, with machine-checked contracts.

pub mod bridge_args;
pub mod config;
pub mod dispatch;
pub mod json;
pub mod plugin;
