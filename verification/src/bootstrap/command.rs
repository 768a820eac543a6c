//! The `mosh-server new` command line that ssh runs on the remote host.

use vstd::prelude::*;

use crate::config::model::{spec_port_text, PortSpec, ResolvedTarget};
use crate::text::{
    chars_of, contains_chars, contains_chars_exec, decimal, ends_with_chars, is_suffix, lower_all, lower_chars,
    push_char, push_decimal, push_str,
};

verus! {

/// What starting a session needs: the resolved target, the terminal size, the locale, the
/// ssh executable if one was given, and how long ssh may take.
#[derive(Debug, Clone, PartialEq, Eq)]
pub struct BootstrapRequest {
    pub target: ResolvedTarget,
    pub columns: u16,
    pub rows: u16,
    pub locale: String,
    pub ssh_path: Option<String>,
    pub timeout: std::time::Duration,
}

// ---------------------------------------------------------------------------
// Colors
// ---------------------------------------------------------------------------

/// How many colors a terminal type offers, judged by its name in ASCII lower case.
pub open spec fn spec_color_count(terminal: Seq<char>) -> u16 {
    let t = lower_all(terminal);
    if contains_chars(t, "truecolor"@) || contains_chars(t, "24bit"@) {
        256
    } else if is_suffix("-256color"@, t) || contains_chars(t, "-256"@) {
        256
    } else if is_suffix("-88color"@, t) {
        88
    } else if is_suffix("-16color"@, t) {
        16
    } else {
        8
    }
}

fn contains_text(t: &[char], p: &str) -> (r: bool)
    ensures
        r == contains_chars(t@, p@),
{
    let pc = chars_of(p);
    contains_chars_exec(t, pc.as_slice())
}

fn ends_with_text(t: &[char], p: &str) -> (r: bool)
    ensures
        r == is_suffix(p@, t@),
{
    let pc = chars_of(p);
    ends_with_chars(t, pc.as_slice())
}

/// The color count that `mosh-server -c` is given for a terminal type.
pub fn terminal_color_count(terminal: &str) -> (n: u16)
    ensures
        n == spec_color_count(terminal@),
{
    let chars = chars_of(terminal);
    let t = lower_chars(chars.as_slice());
    let t = t.as_slice();
    if contains_text(t, "truecolor") || contains_text(t, "24bit") {
        256
    } else if ends_with_text(t, "-256color") || contains_text(t, "-256") {
        256
    } else if ends_with_text(t, "-88color") {
        88
    } else if ends_with_text(t, "-16color") {
        16
    } else {
        8
    }
}

// ---------------------------------------------------------------------------
// The command
// ---------------------------------------------------------------------------

/// The arguments of `mosh-server new`: server path, `new -s`, the color count, the locale
/// and the UDP port or port range. The session key is not among them.
pub open spec fn spec_server_command(r: BootstrapRequest) -> Seq<Seq<char>> {
    seq![
        r.target.mosh_server@,
        "new"@,
        "-s"@,
        "-c"@,
        decimal(spec_color_count(r.target.terminal@) as nat),
        "-l"@,
        "LANG="@ + r.locale@,
        "-p"@,
        spec_port_text(r.target.udp_port),
    ]
}

/// The `mosh-server new` arguments for a request.
pub fn build_server_command(request: &BootstrapRequest) -> (v: Vec<String>)
    ensures
        v@.map_values(|s: String| s@) == spec_server_command(*request),
{
    let mut colors = String::new();
    push_decimal(&mut colors, terminal_color_count(request.target.terminal.as_str()) as u64);
    let mut lang = "LANG=".to_owned();
    push_str(&mut lang, request.locale.as_str());
    let mut port = String::new();
    match request.target.udp_port {
        PortSpec::Single(p) => push_decimal(&mut port, p as u64),
        PortSpec::Range { start, end } => {
            push_decimal(&mut port, start as u64);
            push_char(&mut port, ':');
            push_decimal(&mut port, end as u64);
        },
    }
    proof {
        reveal_strlit(":");
    }
    assert(port@ =~= spec_port_text(request.target.udp_port));
    let mut v: Vec<String> = Vec::new();
    v.push(request.target.mosh_server.clone());
    v.push("new".to_owned());
    v.push("-s".to_owned());
    v.push("-c".to_owned());
    v.push(colors);
    v.push("-l".to_owned());
    v.push(lang);
    v.push("-p".to_owned());
    v.push(port);
    assert(v@.map_values(|s: String| s@) =~= spec_server_command(*request));
    v
}

// ---------------------------------------------------------------------------
// Quoting for the remote shell
// ---------------------------------------------------------------------------

/// A character that a POSIX shell reads as itself outside quotes: ASCII letters and digits
/// and `_./:-=+`.
pub open spec fn is_shell_safe(c: char) -> bool {
    ||| ('a' <= c && c <= 'z')
    ||| ('A' <= c && c <= 'Z')
    ||| ('0' <= c && c <= '9')
    ||| c == '_'
    ||| c == '.'
    ||| c == '/'
    ||| c == ':'
    ||| c == '-'
    ||| c == '='
    ||| c == '+'
}

fn is_shell_safe_char(c: char) -> (b: bool)
    ensures
        b == is_shell_safe(c),
{
    ('a' <= c && c <= 'z') || ('A' <= c && c <= 'Z') || ('0' <= c && c <= '9') || c == '_' || c == '.' || c
        == '/' || c == ':' || c == '-' || c == '=' || c == '+'
}

/// `s` with each `'` written as `'\''`.
pub open spec fn quote_escaped(s: Seq<char>) -> Seq<char>
    decreases s.len(),
{
    if s.len() == 0 {
        seq![]
    } else {
        quote_escaped(s.drop_last()) + if s.last() == '\'' {
            "'\\''"@
        } else {
            seq![s.last()]
        }
    }
}

/// `s` as one word for a POSIX shell: unchanged when every character is safe, else in
/// single quotes.
pub open spec fn spec_shell_quote(s: Seq<char>) -> Seq<char> {
    if forall|i: int| 0 <= i < s.len() ==> #[trigger] is_shell_safe(s[i]) {
        s
    } else {
        "'"@ + quote_escaped(s) + "'"@
    }
}

/// Quotes one argument for the remote shell.
pub fn shell_quote(value: &str) -> (s: String)
    ensures
        s@ == spec_shell_quote(value@),
{
    let chars = chars_of(value);
    let mut i: usize = 0;
    let mut safe = true;
    while i < chars.len()
        invariant
            i <= chars@.len(),
            chars@ == value@,
            safe == forall|j: int| 0 <= j < i ==> #[trigger] is_shell_safe(chars@[j]),
        decreases chars@.len() - i,
    {
        if !is_shell_safe_char(chars[i]) {
            safe = false;
        }
        i = i + 1;
    }
    if safe {
        return value.to_owned();
    }
    let mut s = String::new();
    push_char(&mut s, '\'');
    proof {
        reveal_strlit("'");
        reveal_strlit("'\\''");
    }
    let mut k: usize = 0;
    assert(chars@.take(0) =~= Seq::<char>::empty());
    while k < chars.len()
        invariant
            k <= chars@.len(),
            chars@ == value@,
            s@ == "'"@ + quote_escaped(chars@.take(k as int)),
        decreases chars@.len() - k,
    {
        let c = chars[k];
        let ghost before = s@;
        if c == '\'' {
            push_str(&mut s, "'\\''");
        } else {
            push_char(&mut s, c);
        }
        assert(chars@.take(k + 1).drop_last() =~= chars@.take(k as int));
        k = k + 1;
        assert(s@ =~= "'"@ + quote_escaped(chars@.take(k as int)));
    }
    assert(chars@.take(k as int) =~= chars@);
    push_char(&mut s, '\'');
    assert(s@ =~= "'"@ + quote_escaped(value@) + "'"@);
    s
}

/// Words joined by single spaces.
pub open spec fn join_words(ws: Seq<Seq<char>>) -> Seq<char>
    decreases ws.len(),
{
    if ws.len() == 0 {
        seq![]
    } else if ws.len() == 1 {
        ws[0]
    } else {
        join_words(ws.drop_last()) + seq![' '] + ws.last()
    }
}

/// The remote command line: each argument of `mosh-server new`, quoted, joined by spaces.
pub open spec fn spec_remote_command(r: BootstrapRequest) -> Seq<char> {
    join_words(spec_server_command(r).map_values(|a: Seq<char>| spec_shell_quote(a)))
}

/// The command line that ssh hands to the remote shell.
pub fn build_remote_command(request: &BootstrapRequest) -> (s: String)
    ensures
        s@ == spec_remote_command(*request),
{
    let args = build_server_command(request);
    let ghost q = spec_server_command(*request).map_values(|a: Seq<char>| spec_shell_quote(a));
    assert(args@.len() == 9);
    assert(args@[0]@ == spec_server_command(*request)[0]);
    let mut s = shell_quote(args[0].as_str());
    assert(q.take(1).drop_last() =~= Seq::<Seq<char>>::empty());
    assert(s@ == join_words(q.take(1)));
    let mut i: usize = 1;
    while i < args.len()
        invariant
            1 <= i <= args@.len(),
            args@.len() == 9,
            q.len() == 9,
            args@.map_values(|s: String| s@) == spec_server_command(*request),
            q == spec_server_command(*request).map_values(|a: Seq<char>| spec_shell_quote(a)),
            s@ == join_words(q.take(i as int)),
        decreases args@.len() - i,
    {
        assert(args@[i as int]@ == spec_server_command(*request)[i as int]);
        push_char(&mut s, ' ');
        let word = shell_quote(args[i].as_str());
        push_str(&mut s, word.as_str());
        assert(q.take(i + 1).drop_last() =~= q.take(i as int));
        i = i + 1;
        assert(s@ =~= join_words(q.take(i as int)));
    }
    assert(q.take(9) =~= q);
    s
}

} // verus!
