//! Starting a session: the remote command, what `mosh-server` prints, and the session key.

pub mod command;
pub mod secret;
pub mod error;
pub mod parser;
pub mod ssh;
