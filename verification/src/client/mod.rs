//! The command-line client: arguments, key mapping, updates and its error type.

pub mod error;
pub mod version;
pub mod update;
pub mod keys;
pub mod cli;
pub mod session;
pub mod interactive;
pub mod uninstall;
