//! Verified core of a Mosh-compatible client: configuration, bootstrap
//! parsing, the SSP protocol layers and a small terminal model.

pub mod protocol;
pub mod text;
pub mod terminal;
pub mod config;
pub mod bootstrap;
pub mod platform;
pub mod client;
