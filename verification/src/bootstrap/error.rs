//! Errors of starting a session.

use vstd::prelude::*;

use crate::config::model::{io_error_text, path_text, ConfigError};
use crate::text::{decimal, push_decimal, push_signed_decimal, push_str, signed_decimal};

verus! {

/// Why starting a session failed.
#[allow(inconsistent_fields)]
#[derive(Debug)]
pub enum BootstrapError {
    InvalidServerOutput(String),
    OutputTooLarge { limit: usize },
    SshConfig(ConfigError),
    SshStart { path: std::path::PathBuf, source: std::io::Error },
    SshWait(std::io::Error),
    SshTimeout { timeout: std::time::Duration },
    SshExit { code: Option<i32>, diagnostic: String },
    OutputReader(String),
}

impl From<ConfigError> for BootstrapError {
    fn from(error: ConfigError) -> (r: Self) {
        BootstrapError::SshConfig(error)
    }
}

impl vstd::std_specs::convert::FromSpecImpl<ConfigError> for BootstrapError {
    open spec fn obeys_from_spec() -> bool {
        true
    }

    open spec fn from_spec(v: ConfigError) -> Self {
        BootstrapError::SshConfig(v)
    }
}

/// Whether `e` reports invalid `mosh-server` output with message `message`.
pub open spec fn is_invalid_output(e: BootstrapError, message: Seq<char>) -> bool {
    e matches BootstrapError::InvalidServerOutput(m) && m@ == message
}

/// The whole seconds of a duration (`Duration::as_secs`). Nothing is claimed of the number:
/// durations are opaque here.
#[verifier::external_body]
fn duration_secs(d: &std::time::Duration) -> u64 {
    d.as_secs()
}

/// The message of an error that holds no path, I/O error, duration or configuration error.
pub open spec fn bootstrap_error_text(e: BootstrapError) -> Option<Seq<char>> {
    match e {
        BootstrapError::InvalidServerOutput(m) => Some("invalid mosh-server output: "@ + m@),
        BootstrapError::OutputTooLarge { limit } => Some(
            "mosh-server output exceeded the "@ + decimal(limit as nat) + "-byte limit"@,
        ),
        BootstrapError::SshExit { code: Some(c), diagnostic } => Some(
            "ssh.exe exited with code "@ + signed_decimal(c as int) + ": "@ + diagnostic@,
        ),
        BootstrapError::SshExit { code: None, diagnostic } => Some(
            "ssh.exe exited without a status: "@ + diagnostic@,
        ),
        BootstrapError::OutputReader(m) => Some("failed reading ssh output: "@ + m@),
        _ => None,
    }
}

/// What the message of the other errors starts with.
pub open spec fn bootstrap_error_prefix(e: BootstrapError) -> Seq<char> {
    match e {
        BootstrapError::SshStart { .. } => "failed to start "@,
        BootstrapError::SshWait(_) => "failed waiting for ssh.exe: "@,
        BootstrapError::SshTimeout { .. } => "ssh.exe timed out after "@,
        _ => seq![],
    }
}

impl BootstrapError {
    /// The message of the error, as it is shown to the user.
    pub fn describe(&self) -> (s: String)
        ensures
            bootstrap_error_text(*self) matches Some(t) ==> s@ == t,
            bootstrap_error_prefix(*self).is_prefix_of(s@),
    {
        let s = match self {
            BootstrapError::InvalidServerOutput(m) => {
                let mut s = "invalid mosh-server output: ".to_owned();
                push_str(&mut s, m.as_str());
                s
            },
            BootstrapError::OutputTooLarge { limit } => {
                let mut s = "mosh-server output exceeded the ".to_owned();
                push_decimal(&mut s, *limit as u64);
                push_str(&mut s, "-byte limit");
                s
            },
            BootstrapError::SshConfig(e) => e.describe(),
            BootstrapError::SshStart { path, source } => {
                let mut s = "failed to start ".to_owned();
                let ghost prefix = s@;
                let p = path_text(path);
                push_str(&mut s, p.as_str());
                push_str(&mut s, ": ");
                let t = io_error_text(source);
                push_str(&mut s, t.as_str());
                assert(s@.subrange(0, prefix.len() as int) =~= prefix);
                s
            },
            BootstrapError::SshWait(e) => {
                let mut s = "failed waiting for ssh.exe: ".to_owned();
                let ghost prefix = s@;
                let t = io_error_text(e);
                push_str(&mut s, t.as_str());
                assert(s@.subrange(0, prefix.len() as int) =~= prefix);
                s
            },
            BootstrapError::SshTimeout { timeout } => {
                let mut s = "ssh.exe timed out after ".to_owned();
                let ghost prefix = s@;
                push_decimal(&mut s, duration_secs(timeout));
                push_str(&mut s, " seconds");
                assert(s@.subrange(0, prefix.len() as int) =~= prefix);
                s
            },
            BootstrapError::SshExit { code, diagnostic } => match code {
                Some(c) => {
                    let mut s = "ssh.exe exited with code ".to_owned();
                    push_signed_decimal(&mut s, *c as i64);
                    push_str(&mut s, ": ");
                    push_str(&mut s, diagnostic.as_str());
                    s
                },
                None => {
                    let mut s = "ssh.exe exited without a status: ".to_owned();
                    push_str(&mut s, diagnostic.as_str());
                    s
                },
            },
            BootstrapError::OutputReader(m) => {
                let mut s = "failed reading ssh output: ".to_owned();
                push_str(&mut s, m.as_str());
                s
            },
        };
        assert(seq![].is_prefix_of(s@)) by {
            assert(s@.subrange(0, 0) =~= Seq::<char>::empty());
        }
        s
    }
}

} // verus!
