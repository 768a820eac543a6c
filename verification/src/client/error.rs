//! The error type of the command-line client.

use vstd::prelude::*;

use crate::bootstrap::error::{bootstrap_error_text, BootstrapError};
use crate::config::model::{config_error_text, io_error_text, ConfigError};

verus! {

/// Why a command failed.
#[derive(Debug)]
pub enum Error {
    Cli(String),
    Config(ConfigError),
    Bootstrap(BootstrapError),
    Protocol(String),
    Update(String),
    Io(std::io::Error),
}

impl From<ConfigError> for Error {
    fn from(error: ConfigError) -> (r: Self) {
        Error::Config(error)
    }
}

impl vstd::std_specs::convert::FromSpecImpl<ConfigError> for Error {
    open spec fn obeys_from_spec() -> bool {
        true
    }

    open spec fn from_spec(v: ConfigError) -> Self {
        Error::Config(v)
    }
}

impl From<BootstrapError> for Error {
    fn from(error: BootstrapError) -> (r: Self) {
        Error::Bootstrap(error)
    }
}

impl vstd::std_specs::convert::FromSpecImpl<BootstrapError> for Error {
    open spec fn obeys_from_spec() -> bool {
        true
    }

    open spec fn from_spec(v: BootstrapError) -> Self {
        Error::Bootstrap(v)
    }
}

impl From<std::io::Error> for Error {
    fn from(error: std::io::Error) -> (r: Self) {
        Error::Io(error)
    }
}

impl vstd::std_specs::convert::FromSpecImpl<std::io::Error> for Error {
    open spec fn obeys_from_spec() -> bool {
        true
    }

    open spec fn from_spec(v: std::io::Error) -> Self {
        Error::Io(v)
    }
}

/// Whether `e` is a usage error with message `message`.
pub open spec fn is_cli_error(e: Error, message: Seq<char>) -> bool {
    e matches Error::Cli(m) && m@ == message
}

/// The message of an error, where it is known without an operating system's text.
pub open spec fn error_text(e: Error) -> Option<Seq<char>> {
    match e {
        Error::Cli(m) => Some(m@),
        Error::Protocol(m) => Some(m@),
        Error::Update(m) => Some(m@),
        Error::Config(c) => config_error_text(c),
        Error::Bootstrap(b) => bootstrap_error_text(b),
        Error::Io(_) => None,
    }
}

impl Error {
    /// The message of the error, as it is shown to the user.
    pub fn describe(&self) -> (s: String)
        ensures
            error_text(*self) matches Some(t) ==> s@ == t,
    {
        match self {
            Error::Cli(m) => m.clone(),
            Error::Config(e) => e.describe(),
            Error::Bootstrap(e) => e.describe(),
            Error::Protocol(m) => m.clone(),
            Error::Update(m) => m.clone(),
            Error::Io(e) => io_error_text(e),
        }
    }
}

} // verus!
