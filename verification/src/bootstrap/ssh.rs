//! Running `mosh-server new` over ssh: the ssh arguments, how its output is captured, and
//! what its exit and output decide.

use vstd::prelude::*;

use crate::bootstrap::command::{build_remote_command, spec_remote_command, BootstrapRequest};
use crate::bootstrap::error::BootstrapError;
use crate::bootstrap::parser::{
    boot_result_is, parse_mosh_server_output_bytes, spec_server_output, BootstrapResult,
};
use crate::config::model::{opt_text, SSH_OUTPUT_LIMIT};
use crate::config::ssh_config::{first_non_empty_line as first_text_line, first_nonempty, ssh_diagnostic};
use crate::text::{chars_of, decimal, decode_lossy, lines, push_decimal, starts_with_chars, utf8_lossy_text};

verus! {

/// The arguments that ssh is started with: the port, batch mode, the target and the remote
/// command.
pub open spec fn spec_ssh_arguments(r: BootstrapRequest) -> Seq<Seq<char>> {
    seq![
        "-p"@,
        decimal(r.target.effective_ssh.port as nat),
        "-o"@,
        "BatchMode=yes"@,
        "--"@,
        r.target.ssh_target@,
        spec_remote_command(r),
    ]
}

/// The arguments of the ssh process that starts `mosh-server`.
pub fn ssh_arguments(request: &BootstrapRequest) -> (v: Vec<String>)
    ensures
        v@.map_values(|s: String| s@) == spec_ssh_arguments(*request),
{
    let mut port = String::new();
    push_decimal(&mut port, request.target.effective_ssh.port as u64);
    let mut v: Vec<String> = Vec::new();
    v.push("-p".to_owned());
    v.push(port);
    v.push("-o".to_owned());
    v.push("BatchMode=yes".to_owned());
    v.push("--".to_owned());
    v.push(request.target.ssh_target.clone());
    v.push(build_remote_command(request));
    assert(v@.map_values(|s: String| s@) =~= spec_ssh_arguments(*request));
    v
}

/// One read of `read` bytes from ssh, after `collected` bytes were kept and with at most
/// `limit` kept in all: how many of them to keep, and whether some are dropped (which makes
/// the output too large).
pub fn capture_len(collected: usize, read: usize, limit: usize) -> (r: (usize, bool))
    ensures
        r.0 == if collected < limit {
            if read < limit - collected {
                read as int
            } else {
                limit - collected
            }
        } else {
            0
        },
        r.1 == (r.0 < read),
{
    let keep = if collected < limit {
        let remaining = limit - collected;
        if read < remaining {
            read
        } else {
            remaining
        }
    } else {
        0
    };
    (keep, keep < read)
}

// ---------------------------------------------------------------------------
// Diagnostics
// ---------------------------------------------------------------------------

/// A diagnostic line as it may be shown: a connect line, which holds the session key, is
/// replaced by a fixed message.
pub open spec fn spec_sanitize(line: Seq<char>) -> Seq<char> {
    if "MOSH CONNECT "@.is_prefix_of(line) {
        "mosh-server returned a connection line while ssh.exe failed"@
    } else {
        line
    }
}

/// The diagnostic of a failed ssh: the first non-blank line of its error output, else of its
/// standard output, sanitized; a fixed text when both are blank.
pub open spec fn spec_diagnostic_text(stderr: Seq<u8>, stdout: Seq<u8>) -> Seq<char> {
    match ssh_diagnostic(utf8_lossy_text(stdout), utf8_lossy_text(stderr)) {
        Some(l) => spec_sanitize(l),
        None => "no diagnostic output"@,
    }
}

/// A diagnostic line with any connect line replaced.
pub fn sanitize_diagnostic(line: &str) -> (s: String)
    ensures
        s@ == spec_sanitize(line@),
        !"MOSH CONNECT "@.is_prefix_of(s@),
{
    let chars = chars_of(line);
    let marker = chars_of("MOSH CONNECT ");
    proof {
        reveal_strlit("MOSH CONNECT ");
        reveal_strlit("mosh-server returned a connection line while ssh.exe failed");
    }
    if starts_with_chars(chars.as_slice(), marker.as_slice()) {
        let m = "mosh-server returned a connection line while ssh.exe failed".to_owned();
        assert(m@.subrange(0, 13)[0] != "MOSH CONNECT "@[0]);
        m
    } else {
        line.to_owned()
    }
}

/// The first non-blank line of some output bytes, decoded lossily and trimmed.
pub fn first_non_empty_line(bytes: &[u8]) -> (r: Option<String>)
    ensures
        opt_text(r) == first_nonempty(lines(utf8_lossy_text(bytes@))),
{
    let text = decode_lossy(bytes);
    first_text_line(text.as_str())
}

/// What is shown of a failed ssh. It never starts with a connect line, so it never shows a
/// session key that the server printed.
pub fn diagnostic_text(stderr: &[u8], stdout: &[u8]) -> (s: String)
    ensures
        s@ == spec_diagnostic_text(stderr@, stdout@),
        !"MOSH CONNECT "@.is_prefix_of(s@),
{
    let line = match first_non_empty_line(stderr) {
        Some(l) => Some(l),
        None => first_non_empty_line(stdout),
    };
    proof {
        reveal_strlit("MOSH CONNECT ");
        reveal_strlit("no diagnostic output");
    }
    match line {
        Some(l) => sanitize_diagnostic(l.as_str()),
        None => {
            let m = "no diagnostic output".to_owned();
            assert(m@.subrange(0, 13)[0] != "MOSH CONNECT "@[0]);
            m
        },
    }
}

// ---------------------------------------------------------------------------
// The outcome
// ---------------------------------------------------------------------------

/// What a finished ssh decides: output over the limit is an error, a non-zero or missing exit
/// code is an error with the diagnostic, and otherwise the standard output is read.
pub fn finish_bootstrap(
    code: Option<i32>,
    stdout: &[u8],
    stdout_truncated: bool,
    stderr: &[u8],
    stderr_truncated: bool,
) -> (r: Result<BootstrapResult, BootstrapError>)
    ensures
        stdout_truncated || stderr_truncated ==> r is Err && r->Err_0 == (BootstrapError::OutputTooLarge {
            limit: SSH_OUTPUT_LIMIT,
        }),
        !(stdout_truncated || stderr_truncated) && code != Some(0i32) ==> r is Err && (r->Err_0 matches BootstrapError::SshExit { code: c, diagnostic: d } && c == code && d@
            == spec_diagnostic_text(stderr@, stdout@)),
        !(stdout_truncated || stderr_truncated) && code == Some(0i32) ==> boot_result_is(
            r,
            spec_server_output(utf8_lossy_text(stdout@)),
        ),
{
    if stdout_truncated || stderr_truncated {
        return Err(BootstrapError::OutputTooLarge { limit: SSH_OUTPUT_LIMIT });
    }
    let success = match code {
        Some(c) => c == 0,
        None => false,
    };
    if !success {
        return Err(BootstrapError::SshExit { code, diagnostic: diagnostic_text(stderr, stdout) });
    }
    parse_mosh_server_output_bytes(stdout)
}

} // verus!
