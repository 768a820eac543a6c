//! What `ssh -G` prints: the effective host, user, port and address family for a target.

use vstd::prelude::*;

use crate::config::model::{
    is_plain_parse_error, opt_text, spec_parse_family, AddressFamily, ConfigError, EffectiveSshConfig,
};
use crate::text::{
    chars_equal_str, chars_of, copy_chars, find_char, find_char_index, find_space, find_space_index, lemma_find_char,
    lines, lines_of, lower_all, lower_chars, parse_unsigned, parse_unsigned_chars, push_chars,
    push_str, rfind_char, rfind_char_index, string_of, trim, trim_chars,
};

verus! {

/// The ssh executable that was found, and the version line it printed.
#[derive(Debug, Clone, PartialEq, Eq)]
pub struct SshProbe {
    pub path: std::path::PathBuf,
    pub version: Option<String>,
}

// ---------------------------------------------------------------------------
// Splitting a line into key and value
// ---------------------------------------------------------------------------

/// A key and a value, when neither is empty.
pub open spec fn nonempty_pair(key: Seq<char>, value: Seq<char>) -> Option<(Seq<char>, Seq<char>)> {
    if key.len() > 0 && value.len() > 0 {
        Some((key, value))
    } else {
        None
    }
}

/// The key and value of a line of `ssh -G` output: the key runs up to the first whitespace
/// and the value is the trimmed rest; failing that, the two sides of the first `=`, trimmed.
pub open spec fn spec_split_line(line: Seq<char>) -> Option<(Seq<char>, Seq<char>)> {
    let by_space = match find_space(line) {
        Some(i) => nonempty_pair(line.take(i), trim(line.skip(i))),
        None => None,
    };
    match by_space {
        Some(p) => Some(p),
        None => match find_char(line, '=') {
            Some(j) => nonempty_pair(trim(line.take(j)), trim(line.skip(j + 1))),
            None => None,
        },
    }
}

fn split_chars(line: &[char]) -> (r: Option<(Vec<char>, Vec<char>)>)
    ensures
        match spec_split_line(line@) {
            Some(p) => r is Some && r->Some_0.0@ == p.0 && r->Some_0.1@ == p.1,
            None => r is None,
        },
{
    if let Some(i) = find_space_index(line) {
        let key = copy_chars(line, 0, i);
        let rest = copy_chars(line, i, line.len());
        let value = trim_chars(rest.as_slice());
        assert(key@ =~= line@.take(i as int));
        assert(rest@ =~= line@.skip(i as int));
        if key.len() > 0 && value.len() > 0 {
            return Some((key, value));
        }
    }
    proof {
        lemma_find_char(line@, '=');
    }
    match find_char_index(line, '=') {
        Some(j) => {
            let n = line.len();
            assert(j < n);
            let left = copy_chars(line, 0, j);
            let right = copy_chars(line, j + 1, n);
            assert(left@ =~= line@.take(j as int));
            assert(right@ =~= line@.skip(j + 1));
            let key = trim_chars(left.as_slice());
            let value = trim_chars(right.as_slice());
            if key.len() > 0 && value.len() > 0 {
                Some((key, value))
            } else {
                None
            }
        },
        None => None,
    }
}

/// Splits a line of `ssh -G` output into its key and value.
pub fn split_ssh_config_line(line: &str) -> (r: Option<(String, String)>)
    ensures
        match spec_split_line(line@) {
            Some(p) => r is Some && r->Some_0.0@ == p.0 && r->Some_0.1@ == p.1,
            None => r is None,
        },
{
    let chars = chars_of(line);
    match split_chars(chars.as_slice()) {
        Some((key, value)) => Some((string_of(key.as_slice()), string_of(value.as_slice()))),
        None => None,
    }
}

// ---------------------------------------------------------------------------
// Reading the whole output
// ---------------------------------------------------------------------------

/// What the lines read so far have set.
pub struct SshScanModel {
    pub hostname: Option<Seq<char>>,
    pub user: Option<Seq<char>>,
    pub port: Option<u16>,
    pub family: AddressFamily,
}

/// A line that `ssh -G` output may not hold: a port that is no `u16`, or an unknown address
/// family.
pub enum SshFault {
    InvalidPort(Seq<char>),
    InvalidFamily(Seq<char>),
}

pub open spec fn initial_scan() -> SshScanModel {
    SshScanModel { hostname: None, user: None, port: None, family: AddressFamily::Auto }
}

/// One line of output applied to what was read before: blank lines, comments and lines with
/// no key and value change nothing, nor do keys other than `hostname`, `user`, `port` and
/// `addressfamily` (in any ASCII case).
pub open spec fn spec_scan_line(st: SshScanModel, raw: Seq<char>) -> Result<SshScanModel, SshFault> {
    let t = trim(raw);
    if t.len() == 0 || t[0] == '#' {
        Ok(st)
    } else {
        match spec_split_line(t) {
            None => Ok(st),
            Some((key, value)) => {
                let k = lower_all(key);
                if k == "hostname"@ {
                    Ok(SshScanModel { hostname: Some(value), ..st })
                } else if k == "user"@ {
                    Ok(SshScanModel { user: Some(value), ..st })
                } else if k == "port"@ {
                    match parse_unsigned(value, 0xffff) {
                        Some(p) => Ok(SshScanModel { port: Some(p as u16), ..st }),
                        None => Err(SshFault::InvalidPort(value)),
                    }
                } else if k == "addressfamily"@ {
                    match spec_parse_family(value) {
                        Some(f) => Ok(SshScanModel { family: f, ..st }),
                        None => Err(SshFault::InvalidFamily(value)),
                    }
                } else {
                    Ok(st)
                }
            },
        }
    }
}

/// The scan after the first `k` lines; the first fault stops it.
pub open spec fn spec_scan_lines(ls: Seq<Seq<char>>, k: nat) -> Result<SshScanModel, SshFault>
    decreases k,
{
    if k == 0 {
        Ok(initial_scan())
    } else {
        match spec_scan_lines(ls, (k - 1) as nat) {
            Err(f) => Err(f),
            Ok(st) => spec_scan_line(st, ls[k - 1]),
        }
    }
}

/// The user part of `user@host`: what precedes the last `@`, when both sides are non-empty.
pub open spec fn target_user(target: Seq<char>) -> Option<Seq<char>> {
    match rfind_char(target, '@') {
        Some(j) => if j > 0 && j + 1 < target.len() {
            Some(target.take(j))
        } else {
            None
        },
        None => None,
    }
}

/// The host part of a target: what follows the last `@` when `target_user` is there, else
/// the whole target.
pub open spec fn target_host(target: Seq<char>) -> Seq<char> {
    match rfind_char(target, '@') {
        Some(j) => if j > 0 && j + 1 < target.len() {
            target.skip(j + 1)
        } else {
            target
        },
        None => target,
    }
}

/// `e` is what a scan that ended in `st` gives for `target`: what ssh said, else what the
/// target says, else `default_user` for the user and 22 for the port.
pub open spec fn effective_from_scan(
    e: EffectiveSshConfig,
    st: SshScanModel,
    target: Seq<char>,
    default_user: Seq<char>,
) -> bool {
    &&& e.hostname@ == (match st.hostname {
        Some(h) => h,
        None => target_host(target),
    })
    &&& e.user@ == (match st.user {
        Some(u) => u,
        None => match target_user(target) {
            Some(u) => u,
            None => default_user,
        },
    })
    &&& e.port == (match st.port {
        Some(p) => p,
        None => 22u16,
    })
    &&& e.address_family == st.family
}

/// `e` is the error that reports fault `f`.
pub open spec fn ssh_fault_error(e: ConfigError, f: SshFault) -> bool {
    match f {
        SshFault::InvalidPort(v) => e matches ConfigError::SshConfig(m) && m@ == "ssh -G returned invalid port: "@ + v,
        SshFault::InvalidFamily(v) => is_plain_parse_error(e, "invalid address family: "@ + v),
    }
}

struct ScanState {
    hostname: Option<String>,
    user: Option<String>,
    port: Option<u16>,
    family: AddressFamily,
}

spec fn scan_view(st: ScanState) -> SshScanModel {
    SshScanModel { hostname: opt_text(st.hostname), user: opt_text(st.user), port: st.port, family: st.family }
}

fn scan_line(st: ScanState, raw: &[char]) -> (r: Result<ScanState, ConfigError>)
    ensures
        match spec_scan_line(scan_view(st), raw@) {
            Ok(m) => r is Ok && scan_view(r->Ok_0) == m,
            Err(f) => r is Err && ssh_fault_error(r->Err_0, f),
        },
{
    let t = trim_chars(raw);
    if t.len() == 0 || t[0] == '#' {
        return Ok(st);
    }
    let (key, value) = match split_chars(t.as_slice()) {
        Some(p) => p,
        None => {
            return Ok(st);
        },
    };
    let k = lower_chars(key.as_slice());
    if chars_equal_str(k.as_slice(), "hostname") {
        Ok(ScanState { hostname: Some(string_of(value.as_slice())), user: st.user, port: st.port, family: st.family })
    } else if chars_equal_str(k.as_slice(), "user") {
        Ok(ScanState { hostname: st.hostname, user: Some(string_of(value.as_slice())), port: st.port, family: st.family })
    } else if chars_equal_str(k.as_slice(), "port") {
        match parse_unsigned_chars(value.as_slice(), 0xffff) {
            Some(p) => Ok(ScanState { hostname: st.hostname, user: st.user, port: Some(p as u16), family: st.family }),
            None => {
                let mut message = "ssh -G returned invalid port: ".to_owned();
                push_chars(&mut message, value.as_slice());
                Err(ConfigError::SshConfig(message))
            },
        }
    } else if chars_equal_str(k.as_slice(), "addressfamily") {
        let text = string_of(value.as_slice());
        match AddressFamily::parse(text.as_str()) {
            Ok(f) => Ok(ScanState { hostname: st.hostname, user: st.user, port: st.port, family: f }),
            Err(e) => Err(e),
        }
    } else {
        Ok(st)
    }
}

proof fn lemma_scan_error_persists(ls: Seq<Seq<char>>, k: nat, m: nat)
    requires
        k <= m <= ls.len(),
        spec_scan_lines(ls, k) is Err,
    ensures
        spec_scan_lines(ls, m) == spec_scan_lines(ls, k),
    decreases m - k,
{
    if m > k {
        lemma_scan_error_persists(ls, k, (m - 1) as nat);
    }
}

/// Reads the output of `ssh -G target`. Where the output names no host, user or port, they
/// come from `target` (`user@host` or `host`), then from `default_user` and port 22.
pub fn parse_effective_ssh_config(input: &str, original_target: &str, default_user: &str) -> (r: Result<
    EffectiveSshConfig,
    ConfigError,
>)
    ensures
        match spec_scan_lines(lines(input@), lines(input@).len()) {
            Ok(st) => r is Ok && effective_from_scan(r->Ok_0, st, original_target@, default_user@),
            Err(f) => r is Err && ssh_fault_error(r->Err_0, f),
        },
{
    let chars = chars_of(input);
    let ls = lines_of(chars.as_slice());
    let ghost lsv = ls@.map_values(|l: Vec<char>| l@);
    let mut st = ScanState { hostname: None, user: None, port: None, family: AddressFamily::Auto };
    let mut k: usize = 0;
    while k < ls.len()
        invariant
            k <= ls@.len(),
            lsv == ls@.map_values(|l: Vec<char>| l@),
            lsv == lines(input@),
            spec_scan_lines(lsv, k as nat) == Ok::<SshScanModel, SshFault>(scan_view(st)),
        decreases ls@.len() - k,
    {
        assert(lsv[k as int] == ls@[k as int]@);
        st = match scan_line(st, ls[k].as_slice()) {
            Ok(s) => s,
            Err(e) => {
                proof {
                    lemma_scan_error_persists(lsv, (k + 1) as nat, lsv.len());
                }
                return Err(e);
            },
        };
        k = k + 1;
    }
    let target = chars_of(original_target);
    let n = target.len();
    let at = rfind_char_index(target.as_slice(), '@');
    let (fallback_user, fallback_host) = match at {
        Some(j) => if j > 0 && j < n - 1 {
            (Some(copy_chars(target.as_slice(), 0, j)), copy_chars(target.as_slice(), j + 1, n))
        } else {
            (None, target)
        },
        None => (None, target),
    };
    assert(fallback_user matches Some(u) ==> u@ =~= target_user(original_target@).unwrap());
    let hostname = match st.hostname {
        Some(h) => h,
        None => {
            assert(fallback_host@ =~= target_host(original_target@));
            string_of(fallback_host.as_slice())
        },
    };
    let user = match st.user {
        Some(u) => u,
        None => match fallback_user {
            Some(u) => string_of(u.as_slice()),
            None => default_user.to_owned(),
        },
    };
    let port = match st.port {
        Some(p) => p,
        None => 22,
    };
    Ok(EffectiveSshConfig { hostname, user, port, address_family: st.family })
}

// ---------------------------------------------------------------------------
// Running ssh: what its output decides
// ---------------------------------------------------------------------------

/// The first line that is not blank, trimmed.
pub open spec fn first_nonempty(ls: Seq<Seq<char>>) -> Option<Seq<char>>
    decreases ls.len(),
{
    if ls.len() == 0 {
        None
    } else if trim(ls[0]).len() > 0 {
        Some(trim(ls[0]))
    } else {
        first_nonempty(ls.drop_first())
    }
}

/// The first line of `input` that is not blank, trimmed.
pub fn first_non_empty_line(input: &str) -> (r: Option<String>)
    ensures
        opt_text(r) == first_nonempty(lines(input@)),
{
    let chars = chars_of(input);
    let ls = lines_of(chars.as_slice());
    let ghost lsv = ls@.map_values(|l: Vec<char>| l@);
    let mut k: usize = 0;
    assert(lsv.skip(0) =~= lsv);
    while k < ls.len()
        invariant
            k <= ls@.len(),
            lsv == ls@.map_values(|l: Vec<char>| l@),
            lsv == lines(input@),
            first_nonempty(lsv) == first_nonempty(lsv.skip(k as int)),
        decreases ls@.len() - k,
    {
        assert(lsv.skip(k as int)[0] == ls@[k as int]@);
        let t = trim_chars(ls[k].as_slice());
        if t.len() > 0 {
            return Some(string_of(t.as_slice()));
        }
        assert(lsv.skip(k as int).drop_first() =~= lsv.skip(k + 1));
        k = k + 1;
    }
    assert(lsv.skip(k as int) =~= Seq::<Seq<char>>::empty());
    None
}

/// What ssh said about a failure: the first non-blank line of its error output, else of its
/// standard output.
pub open spec fn ssh_diagnostic(stdout: Seq<char>, stderr: Seq<char>) -> Option<Seq<char>> {
    match first_nonempty(lines(stderr)) {
        Some(l) => Some(l),
        None => first_nonempty(lines(stdout)),
    }
}

fn diagnostic(stdout: &str, stderr: &str) -> (r: Option<String>)
    ensures
        opt_text(r) == ssh_diagnostic(stdout@, stderr@),
{
    match first_non_empty_line(stderr) {
        Some(l) => Some(l),
        None => first_non_empty_line(stdout),
    }
}

/// The version line of `ssh -V`, which OpenSSH prints on its error output.
pub fn ssh_version_from_output(stdout: &str, stderr: &str) -> (r: Option<String>)
    ensures
        opt_text(r) == ssh_diagnostic(stdout@, stderr@),
{
    diagnostic(stdout, stderr)
}

/// The message of a failed `ssh -G`.
pub open spec fn ssh_failure_message(target: Seq<char>, stdout: Seq<char>, stderr: Seq<char>) -> Seq<char> {
    "ssh -G "@ + target + " failed: "@ + match ssh_diagnostic(stdout, stderr) {
        Some(l) => l,
        None => "ssh -G failed without diagnostic output"@,
    }
}

/// What `ssh -G target` that exited with `status` (none when it was stopped) and printed
/// `stdout` and `stderr` says: an error unless it exited with 0, else what its output says.
pub fn effective_ssh_from_output(
    status: Option<i32>,
    stdout: &str,
    stderr: &str,
    target: &str,
    default_user: &str,
) -> (r: Result<EffectiveSshConfig, ConfigError>)
    ensures
        status != Some(0i32) ==> r is Err && (r->Err_0 matches ConfigError::SshConfig(m) && m@
            == ssh_failure_message(target@, stdout@, stderr@)),
        status == Some(0i32) ==> match spec_scan_lines(lines(stdout@), lines(stdout@).len()) {
            Ok(st) => r is Ok && effective_from_scan(r->Ok_0, st, target@, default_user@),
            Err(f) => r is Err && ssh_fault_error(r->Err_0, f),
        },
{
    let ok = match status {
        Some(code) => code == 0,
        None => false,
    };
    if !ok {
        let mut message = "ssh -G ".to_owned();
        push_str(&mut message, target);
        push_str(&mut message, " failed: ");
        match diagnostic(stdout, stderr) {
            Some(l) => push_str(&mut message, l.as_str()),
            None => push_str(&mut message, "ssh -G failed without diagnostic output"),
        }
        return Err(ConfigError::SshConfig(message));
    }
    parse_effective_ssh_config(stdout, target, default_user)
}

/// One read of a child's output, capped at `limit` bytes in all: after `collected` bytes,
/// a read of `read` bytes keeps this many, or none (`None`) when the output has ended or the
/// cap is reached, which ends the reading.
pub fn output_chunk_len(collected: usize, read: usize, limit: usize) -> (r: Option<usize>)
    ensures
        (read == 0 || collected >= limit) <==> r is None,
        r matches Some(n) ==> n == if read < limit - collected {
            read as int
        } else {
            limit - collected
        },
{
    if read == 0 {
        return None;
    }
    let remaining = limit.saturating_sub(collected);
    if remaining == 0 {
        return None;
    }
    Some(if remaining < read { remaining } else { read })
}

} // verus!
