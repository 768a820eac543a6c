//! Reading and writing the configuration file format.

use vstd::prelude::*;

use crate::config::alias::{sanitize_server_path, spec_sanitize_server_path, valid_alias_name, valid_ssh_target};
use crate::config::hosts::{entries_view, lookup, spec_insert, HostEntryModel, HostTable};
use crate::config::model::{
    opt_text, prediction_text, spec_parse_port_spec, spec_parse_prediction, spec_port_text, AppConfig, ConfigError,
    Defaults, DefaultsModel, HostConfig, HostConfigModel, PortSpec, PredictionMode, CONFIG_VERSION,
};
use crate::text::{
    chars_equal_str, chars_of, copy_chars, decimal, find_char, find_char_index, lines, lines_of, parse_unsigned,
    joined, parse_unsigned_chars, push_char, push_chars, push_decimal, push_joined, push_str, starts_with_chars, string_of, trim,
    trim_chars,
};

verus! {

/// A configuration together with where it came from and the bytes it was read from.
#[derive(Debug, Clone)]
pub struct ConfigDocument {
    pub path: std::path::PathBuf,
    pub config: AppConfig,
    pub original_bytes: Option<Vec<u8>>,
}

impl ConfigDocument {
    pub fn new(path: std::path::PathBuf, config: AppConfig, original_bytes: Option<Vec<u8>>) -> (r: Self)
        ensures
            r.path == path,
            r.config == config,
            r.original_bytes == original_bytes,
    {
        ConfigDocument { path, config, original_bytes }
    }
}

/// What stands at a configuration's path just before the configuration is written there.
#[derive(Debug)]
pub enum FoundFile {
    /// A file, read, with its bytes.
    Contents(Vec<u8>),
    /// A file, not read.
    Exists,
    /// No file.
    Missing,
    /// A file that could not be read.
    Unreadable(std::io::Error),
}

/// Whether a configuration loaded from `original` (the bytes it was read from, or `None` for
/// a file that did not exist) may be written over what now stands at `path`: only while the
/// file there is still the one it was loaded from, or, for one that had no file, while there
/// still is none. A file that cannot be read is an I/O error at `path`.
pub fn check_unchanged(original: &Option<Vec<u8>>, found: FoundFile, path: std::path::PathBuf) -> (r: Result<(), ConfigError>)
    ensures
        match (original, found) {
            (Some(o), FoundFile::Contents(c)) => if c@ == o@ {
                r is Ok
            } else {
                r == Err::<(), ConfigError>(ConfigError::ConcurrentModification { path })
            },
            (_, FoundFile::Unreadable(e)) => r == Err::<(), ConfigError>(ConfigError::Io { path, source: e }),
            (None, FoundFile::Missing) => r is Ok,
            _ => r == Err::<(), ConfigError>(ConfigError::ConcurrentModification { path }),
        },
{
    match (original, found) {
        (Some(o), FoundFile::Contents(c)) => if crate::protocol::proto::same_bytes(c.as_slice(), o.as_slice()) {
            Ok(())
        } else {
            Err(ConfigError::ConcurrentModification { path })
        },
        (_, FoundFile::Unreadable(e)) => Err(ConfigError::io(path, e)),
        (None, FoundFile::Missing) => Ok(()),
        _ => Err(ConfigError::ConcurrentModification { path }),
    }
}

/// The largest configuration file read, in bytes.
pub const MAX_CONFIG_SIZE: u64 = 1024 * 1024;

// ---------------------------------------------------------------------------
// Where the configuration lives
// ---------------------------------------------------------------------------

/// The directory of the application `app_name` under the user's roaming application data:
/// under `APPDATA` when it is set (`appdata`), else under `AppData\Roaming` in the user's
/// profile (`userprofile`), else none.
pub open spec fn spec_app_data_dir(appdata: Option<Seq<char>>, userprofile: Option<Seq<char>>, app_name: Seq<char>, sep: char) -> Option<Seq<char>> {
    match appdata {
        Some(a) => Some(joined(a, app_name, sep)),
        None => match userprofile {
            Some(u) => Some(joined(joined(joined(u, "AppData"@, sep), "Roaming"@, sep), app_name, sep)),
            None => None,
        },
    }
}

/// The directory of the application `app_name` under the user's roaming application data,
/// from the values of `APPDATA` and `USERPROFILE` and the platform's separator.
pub fn app_data_dir_from(appdata: Option<String>, userprofile: Option<String>, app_name: &str, sep: char) -> (r: Option<String>)
    ensures
        opt_text(r) == spec_app_data_dir(opt_text(appdata), opt_text(userprofile), app_name@, sep),
{
    match appdata {
        Some(a) => {
            let mut p = a;
            push_joined(&mut p, app_name, sep);
            Some(p)
        },
        None => match userprofile {
            Some(u) => {
                let mut p = u;
                push_joined(&mut p, "AppData", sep);
                push_joined(&mut p, "Roaming", sep);
                push_joined(&mut p, app_name, sep);
                Some(p)
            },
            None => None,
        },
    }
}

/// The default configuration path, from the values of `APPDATA` and `USERPROFILE` and the
/// platform's separator: `config.toml` in the `WinMosh` directory of the user's roaming
/// application data, or in the current directory when neither variable is set.
pub fn config_path_from(appdata: Option<String>, userprofile: Option<String>, sep: char) -> (p: String)
    ensures
        p@ == match appdata {
            Some(a) => joined(joined(a@, "WinMosh"@, sep), "config.toml"@, sep),
            None => match userprofile {
                Some(u) => joined(
                    joined(joined(joined(u@, "AppData"@, sep), "Roaming"@, sep), "WinMosh"@, sep),
                    "config.toml"@,
                    sep,
                ),
                None => joined("."@, "config.toml"@, sep),
            },
        },
{
    let mut p = match app_data_dir_from(appdata, userprofile, "WinMosh", sep) {
        Some(dir) => dir,
        None => ".".to_owned(),
    };
    push_joined(&mut p, "config.toml", sep);
    p
}

// ---------------------------------------------------------------------------
// Comments, strings, escapes
// ---------------------------------------------------------------------------

/// Where the comment of `line` starts, scanning from `i` with the given quoting state: a `#`
/// outside a double-quoted string, where a backslash inside a string escapes the next
/// character.
pub open spec fn comment_start(line: Seq<char>, i: int, escaped: bool, quoted: bool) -> Option<int>
    decreases line.len() - i,
{
    if i >= line.len() || i < 0 {
        None
    } else if escaped {
        comment_start(line, i + 1, false, quoted)
    } else {
        let c = line[i];
        if c == '\\' && quoted {
            comment_start(line, i + 1, true, quoted)
        } else if c == '"' {
            comment_start(line, i + 1, false, !quoted)
        } else if c == '#' && !quoted {
            Some(i)
        } else {
            comment_start(line, i + 1, false, quoted)
        }
    }
}

/// `line` without its comment.
pub open spec fn spec_strip_comment(line: Seq<char>) -> Seq<char> {
    match comment_start(line, 0, false, false) {
        Some(i) => line.take(i),
        None => line,
    }
}

fn strip_comment(line: &[char]) -> (v: Vec<char>)
    ensures
        v@ == spec_strip_comment(line@),
{
    let mut escaped = false;
    let mut quoted = false;
    let mut i: usize = 0;
    while i < line.len()
        invariant
            i <= line@.len(),
            comment_start(line@, 0, false, false) == comment_start(line@, i as int, escaped, quoted),
        decreases line@.len() - i,
    {
        if escaped {
            escaped = false;
        } else {
            let c = line[i];
            if c == '\\' && quoted {
                escaped = true;
            } else if c == '"' {
                quoted = !quoted;
            } else if c == '#' && !quoted {
                return copy_chars(line, 0, i);
            }
        }
        i = i + 1;
    }
    copy_chars(line, 0, line.len())
}

/// The character that an escape letter stands for, if it is one.
pub open spec fn unescaped_char(c: char) -> Option<char> {
    if c == '"' {
        Some('"')
    } else if c == '\\' {
        Some('\\')
    } else if c == 'n' {
        Some('\n')
    } else if c == 'r' {
        Some('\r')
    } else if c == 't' {
        Some('\t')
    } else {
        None
    }
}

/// Why a quoted value could not be read.
pub enum ValueFault {
    Unterminated,
    UnsupportedEscape(char),
    UnterminatedString,
}

pub open spec fn prepend_chars(prefix: Seq<char>, r: Result<Seq<char>, ValueFault>) -> Result<Seq<char>, ValueFault> {
    match r {
        Ok(s) => Ok(prefix + s),
        Err(e) => Err(e),
    }
}

/// The characters that the escaped text `s` stands for.
pub open spec fn spec_unescape(s: Seq<char>) -> Result<Seq<char>, ValueFault>
    decreases s.len(),
{
    if s.len() == 0 {
        Ok(seq![])
    } else if s[0] != '\\' {
        prepend_chars(seq![s[0]], spec_unescape(s.drop_first()))
    } else if s.len() == 1 {
        Err(ValueFault::Unterminated)
    } else {
        match unescaped_char(s[1]) {
            Some(c) => prepend_chars(seq![c], spec_unescape(s.skip(2))),
            None => Err(ValueFault::UnsupportedEscape(s[1])),
        }
    }
}

/// The escaped form of one character.
pub open spec fn escaped_char(c: char) -> Seq<char> {
    if c == '"' {
        seq!['\\', '"']
    } else if c == '\\' {
        seq!['\\', '\\']
    } else if c == '\n' {
        seq!['\\', 'n']
    } else if c == '\r' {
        seq!['\\', 'r']
    } else if c == '\t' {
        seq!['\\', 't']
    } else {
        seq![c]
    }
}

/// The escaped form of `s`.
pub open spec fn spec_escape(s: Seq<char>) -> Seq<char>
    decreases s.len(),
{
    if s.len() == 0 {
        seq![]
    } else {
        escaped_char(s[0]) + spec_escape(s.drop_first())
    }
}

/// Unescaping what escaping gave returns the original characters.
pub proof fn lemma_escape_round_trip(s: Seq<char>)
    ensures
        spec_unescape(spec_escape(s)) == Ok::<Seq<char>, ValueFault>(s),
    decreases s.len(),
{
    if s.len() > 0 {
        lemma_escape_round_trip(s.drop_first());
        let e = spec_escape(s);
        let rest = spec_escape(s.drop_first());
        let c = s[0];
        assert(e == escaped_char(c) + rest);
        if c == '"' || c == '\\' || c == '\n' || c == '\r' || c == '\t' {
            assert(e[0] == '\\' && e[1] == escaped_char(c)[1]);
            assert(unescaped_char(e[1]) == Some(c));
            assert(e.skip(2) =~= rest);
        } else {
            assert(e[0] == c);
            assert(e.drop_first() =~= rest);
        }
        assert(seq![c] + s.drop_first() =~= s);
    } else {
        assert(s =~= Seq::<char>::empty());
    }
}

fn unescape(input: &[char]) -> (r: Result<Vec<char>, ValueFault>)
    ensures
        match spec_unescape(input@) {
            Ok(s) => r is Ok && r->Ok_0@ == s,
            Err(e) => r is Err && r->Err_0 == e,
        },
{
    let mut output: Vec<char> = Vec::new();
    let mut i: usize = 0;
    assert(input@.skip(0) =~= input@);
    while i < input.len()
        invariant
            i <= input@.len(),
            spec_unescape(input@) == prepend_chars(output@, spec_unescape(input@.skip(i as int))),
        decreases input@.len() - i,
    {
        let ghost rest = input@.skip(i as int);
        let c = input[i];
        assert(rest[0] == c);
        if c != '\\' {
            assert(spec_unescape(rest) == prepend_chars(seq![c], spec_unescape(rest.drop_first())));
            let ghost old_out = output@;
            output.push(c);
            assert(rest.drop_first() =~= input@.skip(i + 1));
            i = i + 1;
            proof {
                match spec_unescape(input@.skip(i as int)) {
                    Ok(t) => assert(old_out + (seq![c] + t) =~= output@ + t),
                    Err(_) => {},
                }
            }
        } else {
            if i + 1 >= input.len() {
                return Err(ValueFault::Unterminated);
            }
            let next = input[i + 1];
            let mapped = if next == '"' {
                '"'
            } else if next == '\\' {
                '\\'
            } else if next == 'n' {
                '\n'
            } else if next == 'r' {
                '\r'
            } else if next == 't' {
                '\t'
            } else {
                return Err(ValueFault::UnsupportedEscape(next));
            };
            assert(rest[1] == next);
            assert(unescaped_char(next) == Some(mapped));
            assert(spec_unescape(rest) == prepend_chars(seq![mapped], spec_unescape(rest.skip(2))));
            let ghost old_out = output@;
            output.push(mapped);
            assert(rest.skip(2) =~= input@.skip(i + 2));
            i = i + 2;
            proof {
                match spec_unescape(input@.skip(i as int)) {
                    Ok(t) => assert(old_out + (seq![mapped] + t) =~= output@ + t),
                    Err(_) => {},
                }
            }
        }
    }
    assert(input@.skip(i as int) =~= Seq::<char>::empty());
    assert(output@ + Seq::<char>::empty() =~= output@);
    Ok(output)
}

fn escape_into(output: &mut String, input: &[char])
    ensures
        final(output)@ == old(output)@ + spec_escape(input@),
{
    let ghost start = output@;
    let mut i: usize = input.len();
    let mut escaped: Vec<char> = Vec::new();
    // Build the escaped text from the back so that its specification unfolds from the front.
    while i > 0
        invariant
            i <= input@.len(),
            escaped@ == spec_escape(input@.skip(i as int)),
        decreases i,
    {
        let c = input[i - 1];
        let piece: Vec<char> = if c == '"' {
            vec!['\\', '"']
        } else if c == '\\' {
            vec!['\\', '\\']
        } else if c == '\n' {
            vec!['\\', 'n']
        } else if c == '\r' {
            vec!['\\', 'r']
        } else if c == '\t' {
            vec!['\\', 't']
        } else {
            vec![c]
        };
        assert(piece@ =~= escaped_char(c));
        let mut next = piece;
        let mut j: usize = 0;
        let ghost before = next@;
        while j < escaped.len()
            invariant
                j <= escaped@.len(),
                next@ == before + escaped@.take(j as int),
            decreases escaped@.len() - j,
        {
            next.push(escaped[j]);
            j = j + 1;
            assert(next@ =~= before + escaped@.take(j as int));
        }
        assert(escaped@.take(j as int) =~= escaped@);
        assert(input@.skip(i - 1).drop_first() =~= input@.skip(i as int));
        escaped = next;
        i = i - 1;
    }
    assert(input@.skip(0) =~= input@);
    push_chars(output, escaped.as_slice());
}

/// A value as written after `=`: a double-quoted string, unescaped, or the text itself.
pub open spec fn spec_parse_string_value(value: Seq<char>) -> Result<Seq<char>, ValueFault> {
    if value.len() > 0 && value[0] == '"' {
        if !(value.last() == '"') || value.len() < 2 {
            Err(ValueFault::UnterminatedString)
        } else {
            spec_unescape(value.subrange(1, value.len() - 1))
        }
    } else {
        Ok(value)
    }
}

fn parse_string_value(value: &[char]) -> (r: Result<Vec<char>, ValueFault>)
    ensures
        match spec_parse_string_value(value@) {
            Ok(s) => r is Ok && r->Ok_0@ == s,
            Err(e) => r is Err && r->Err_0 == e,
        },
{
    if value.len() > 0 && value[0] == '"' {
        if !(value[value.len() - 1] == '"') || value.len() < 2 {
            return Err(ValueFault::UnterminatedString);
        }
        let inner = copy_chars(value, 1, value.len() - 1);
        unescape(inner.as_slice())
    } else {
        Ok(copy_chars(value, 0, value.len()))
    }
}

/// The message of a value fault.
pub open spec fn value_fault_text(f: ValueFault) -> Seq<char> {
    match f {
        ValueFault::Unterminated => "unterminated escape sequence"@,
        ValueFault::UnsupportedEscape(c) => "unsupported escape sequence: \\"@ + seq![c],
        ValueFault::UnterminatedString => "unterminated string value"@,
    }
}

fn value_fault_message(f: &ValueFault) -> (s: String)
    ensures
        s@ == value_fault_text(*f),
{
    match f {
        ValueFault::Unterminated => "unterminated escape sequence".to_owned(),
        ValueFault::UnsupportedEscape(c) => {
            let mut s = "unsupported escape sequence: \\".to_owned();
            push_char(&mut s, *c);
            s
        },
        ValueFault::UnterminatedString => "unterminated string value".to_owned(),
    }
}

} // verus!

verus! {

// ---------------------------------------------------------------------------
// Parsing
// ---------------------------------------------------------------------------

/// The part of the file that key lines belong to.
pub enum SectionModel {
    Root,
    Defaults,
    Host(Seq<char>),
}

/// What the parser has read so far.
pub struct ParseModel {
    pub version: u32,
    pub defaults: DefaultsModel,
    pub hosts: Seq<HostEntryModel>,
    pub section: SectionModel,
}

/// Why the configuration could not be read.
pub enum ConfigFault {
    /// A parse error at a line of the file.
    AtLine { line: nat, message: Seq<char> },
    /// A parse error about the file as a whole.
    InFile { message: Seq<char> },
    /// A parse error from reading a value, with no file or line attached.
    InValue { message: Seq<char> },
    UnsupportedVersion { version: u32 },
    InvalidAliasName { name: Seq<char> },
    InvalidPortSpec { value: Seq<char> },
}

/// Whether `e` is the fault `f`, where a file error carries the path the parser was given,
/// if any.
pub open spec fn config_error_is(e: ConfigError, f: ConfigFault, given: Option<std::path::PathBuf>) -> bool {
    match (e, f) {
        (ConfigError::Parse { path, line, message }, ConfigFault::AtLine { line: l, message: m }) => path == given
            && line == Some(l as usize) && message@ == m,
        (ConfigError::Parse { path, line, message }, ConfigFault::InFile { message: m }) => path == given
            && line is None && message@ == m,
        (ConfigError::Parse { path, line, message }, ConfigFault::InValue { message: m }) => path is None && line is None
            && message@ == m,
        (ConfigError::UnsupportedVersion { version }, ConfigFault::UnsupportedVersion { version: v }) => version == v,
        (ConfigError::InvalidAliasName { name }, ConfigFault::InvalidAliasName { name: n }) => name@ == n,
        (ConfigError::InvalidPortSpec { value }, ConfigFault::InvalidPortSpec { value: v }) => value@ == v,
        _ => false,
    }
}

/// A value given to an optional setting that is parsed on its own: a port spec or a
/// prediction mode.
pub open spec fn parse_port_value(value: Seq<char>) -> Result<PortSpec, ConfigFault> {
    match spec_parse_port_spec(value) {
        Some(p) => Ok(p),
        None => Err(ConfigFault::InvalidPortSpec { value }),
    }
}

pub open spec fn parse_prediction_value(value: Seq<char>) -> Result<PredictionMode, ConfigFault> {
    match spec_parse_prediction(value) {
        Some(p) => Ok(p),
        None => Err(ConfigFault::InValue { message: "invalid prediction mode: "@ + value }),
    }
}

/// The defaults after `key = value` in the `[defaults]` section.
pub open spec fn spec_apply_default(d: DefaultsModel, key: Seq<char>, value: Seq<char>, line: nat) -> Result<DefaultsModel, ConfigFault> {
    if key == "mosh_server"@ {
        Ok(DefaultsModel { mosh_server: Some(spec_sanitize_server_path(value)), ..d })
    } else if key == "udp_port"@ {
        match parse_port_value(value) {
            Ok(p) => Ok(DefaultsModel { udp_port: Some(p), ..d }),
            Err(f) => Err(f),
        }
    } else if key == "terminal"@ {
        Ok(DefaultsModel { terminal: Some(value), ..d })
    } else if key == "prediction"@ {
        match parse_prediction_value(value) {
            Ok(p) => Ok(DefaultsModel { prediction: Some(p), ..d }),
            Err(f) => Err(f),
        }
    } else {
        Err(ConfigFault::AtLine { line, message: "unknown defaults key: "@ + key })
    }
}

/// A host after `key = value` in its `[hosts.NAME]` section.
pub open spec fn spec_apply_host(h: HostConfigModel, key: Seq<char>, value: Seq<char>, line: nat) -> Result<HostConfigModel, ConfigFault> {
    if key == "ssh_target"@ {
        if !valid_ssh_target(value) {
            Err(ConfigFault::AtLine { line, message: "ssh_target must not be empty or start with '-'"@ })
        } else {
            Ok(HostConfigModel { ssh_target: value, ..h })
        }
    } else if key == "udp_host"@ {
        Ok(HostConfigModel { udp_host: Some(value), ..h })
    } else if key == "udp_port"@ {
        match parse_port_value(value) {
            Ok(p) => Ok(HostConfigModel { udp_port: Some(p), ..h }),
            Err(f) => Err(f),
        }
    } else if key == "mosh_server"@ {
        Ok(HostConfigModel { mosh_server: Some(spec_sanitize_server_path(value)), ..h })
    } else if key == "terminal"@ {
        Ok(HostConfigModel { terminal: Some(value), ..h })
    } else if key == "prediction"@ {
        match parse_prediction_value(value) {
            Ok(p) => Ok(HostConfigModel { prediction: Some(p), ..h }),
            Err(f) => Err(f),
        }
    } else {
        Err(ConfigFault::AtLine { line, message: "unknown host key: "@ + key })
    }
}

/// A `[...]` header line (after trimming and without its comment).
pub open spec fn spec_parse_header(st: ParseModel, line: Seq<char>, number: nat) -> Result<ParseModel, ConfigFault> {
    if line.last() != ']' {
        Err(ConfigFault::AtLine { line: number, message: "section header is missing closing ']' "@ })
    } else {
        let name = line.subrange(1, line.len() - 1);
        if name == "defaults"@ {
            Ok(ParseModel { section: SectionModel::Defaults, ..st })
        } else if "hosts."@.is_prefix_of(name) {
            let h = trim(name.skip(6));
            if !valid_alias_name(h) {
                Err(ConfigFault::InvalidAliasName { name: h })
            } else {
                Ok(
                    ParseModel {
                        hosts: if lookup(st.hosts, h) is Some {
                            st.hosts
                        } else {
                            spec_insert(st.hosts, h, crate::config::model::empty_host())
                        },
                        section: SectionModel::Host(h),
                        ..st
                    },
                )
            }
        } else {
            Err(ConfigFault::AtLine { line: number, message: "unknown section: "@ + name })
        }
    }
}

/// The state after the setting `key = value` (value already read) in the current section.
pub open spec fn spec_apply_entry(st: ParseModel, key: Seq<char>, value: Seq<char>, number: nat) -> Result<ParseModel, ConfigFault> {
    match st.section {
        SectionModel::Root => if key == "version"@ {
            match parse_unsigned(value, 0xffff_ffff) {
                Some(v) => Ok(ParseModel { version: v as u32, ..st }),
                None => Err(ConfigFault::AtLine { line: number, message: "version must be an integer"@ }),
            }
        } else {
            Err(ConfigFault::AtLine { line: number, message: "unknown root key: "@ + key })
        },
        SectionModel::Defaults => match spec_apply_default(st.defaults, key, value, number) {
            Ok(d) => Ok(ParseModel { defaults: d, ..st }),
            Err(f) => Err(f),
        },
        SectionModel::Host(h) => match lookup(st.hosts, h) {
            None => Err(ConfigFault::AtLine { line: number, message: "internal parser error for host: "@ + h }),
            Some(host) => match spec_apply_host(host, key, value, number) {
                Ok(host2) => Ok(ParseModel { hosts: spec_insert(st.hosts, h, host2), ..st }),
                Err(f) => Err(f),
            },
        },
    }
}

/// A `key = value` line (after trimming and without its comment).
pub open spec fn spec_parse_entry(st: ParseModel, line: Seq<char>, number: nat) -> Result<ParseModel, ConfigFault> {
    match find_char(line, '=') {
        None => Err(ConfigFault::AtLine { line: number, message: "expected key = value"@ }),
        Some(i) => {
            let key = trim(line.take(i));
            match spec_parse_string_value(trim(line.skip(i + 1))) {
                Err(f) => Err(ConfigFault::AtLine { line: number, message: value_fault_text(f) }),
                Ok(value) => spec_apply_entry(st, key, value, number),
            }
        },
    }
}

/// The parser after line `number` (counting from 1).
pub open spec fn spec_parse_line(st: ParseModel, raw: Seq<char>, number: nat) -> Result<ParseModel, ConfigFault> {
    let line = trim(spec_strip_comment(raw));
    if line.len() == 0 {
        Ok(st)
    } else if line[0] == '[' {
        spec_parse_header(st, line, number)
    } else {
        spec_parse_entry(st, line, number)
    }
}

pub open spec fn initial_parse() -> ParseModel {
    ParseModel {
        version: 0,
        defaults: crate::config::model::default_defaults(),
        hosts: seq![],
        section: SectionModel::Root,
    }
}

/// The parser after the first `k` lines.
pub open spec fn spec_parse_lines(ls: Seq<Seq<char>>, k: nat) -> Result<ParseModel, ConfigFault>
    decreases k,
{
    if k == 0 {
        Ok(initial_parse())
    } else {
        match spec_parse_lines(ls, (k - 1) as nat) {
            Err(f) => Err(f),
            Ok(st) => spec_parse_line(st, ls[k - 1], k),
        }
    }
}

/// The name of the first host, in name order, without an ssh target.
pub open spec fn first_missing_target(hosts: Seq<HostEntryModel>) -> Option<Seq<char>>
    decreases hosts.len(),
{
    if hosts.len() == 0 {
        None
    } else if trim(hosts[0].1.ssh_target).len() == 0 {
        Some(hosts[0].0)
    } else {
        first_missing_target(hosts.drop_first())
    }
}

/// A parsed configuration: its version, defaults and hosts.
pub struct ConfigModel {
    pub version: u32,
    pub defaults: DefaultsModel,
    pub hosts: Seq<HostEntryModel>,
}

pub open spec fn config_model(c: AppConfig) -> ConfigModel {
    ConfigModel { version: c.version, defaults: c.defaults@, hosts: c.hosts@ }
}

/// What parsing the text `input` gives.
pub open spec fn spec_parse_config(input: Seq<char>) -> Result<ConfigModel, ConfigFault> {
    let ls = lines(input);
    match spec_parse_lines(ls, ls.len()) {
        Err(f) => Err(f),
        Ok(st) => if trim(input).len() == 0 {
            Ok(
                ConfigModel {
                    version: CONFIG_VERSION,
                    defaults: crate::config::model::default_defaults(),
                    hosts: seq![],
                },
            )
        } else if st.version == 0 {
            Err(ConfigFault::AtLine { line: 1, message: "missing required root key: version"@ })
        } else if st.version != CONFIG_VERSION {
            Err(ConfigFault::UnsupportedVersion { version: st.version })
        } else {
            match first_missing_target(st.hosts) {
                Some(name) => Err(ConfigFault::InFile { message: "hosts."@ + name + ".ssh_target is required"@ }),
                None => Ok(ConfigModel { version: st.version, defaults: st.defaults, hosts: st.hosts }),
            }
        },
    }
}

} // verus!

verus! {

enum Section {
    Root,
    Defaults,
    Host(Vec<char>),
}

struct ParseState {
    version: u32,
    defaults: Defaults,
    hosts: HostTable,
    section: Section,
}

spec fn section_view(s: Section) -> SectionModel {
    match s {
        Section::Root => SectionModel::Root,
        Section::Defaults => SectionModel::Defaults,
        Section::Host(h) => SectionModel::Host(h@),
    }
}

spec fn state_view(s: ParseState) -> ParseModel {
    ParseModel { version: s.version, defaults: s.defaults@, hosts: s.hosts@, section: section_view(s.section) }
}

/// The path a parser was given, if any.
pub open spec fn given_path(path: Option<&std::path::PathBuf>) -> Option<std::path::PathBuf> {
    match path {
        Some(p) => Some(*p),
        None => None,
    }
}

fn copy_path(path: Option<&std::path::PathBuf>) -> (r: Option<std::path::PathBuf>)
    ensures
        r == given_path(path),
{
    match path {
        Some(p) => Some(p.clone()),
        None => None,
    }
}

fn line_error(path: Option<&std::path::PathBuf>, line: usize, message: String) -> (e: ConfigError)
    ensures
        config_error_is(e, ConfigFault::AtLine { line: line as nat, message: message@ }, given_path(path)),
{
    ConfigError::Parse { path: copy_path(path), line: Some(line), message }
}

fn text_with(prefix: &str, rest: &[char]) -> (s: String)
    ensures
        s@ == prefix@ + rest@,
{
    let mut s = prefix.to_owned();
    push_chars(&mut s, rest);
    s
}

fn apply_default(
    d: Defaults,
    key: &[char],
    value: &[char],
    line: usize,
    path: Option<&std::path::PathBuf>,
) -> (r: Result<Defaults, ConfigError>)
    ensures
        match spec_apply_default(d@, key@, value@, line as nat) {
            Ok(d2) => r is Ok && r->Ok_0@ == d2,
            Err(f) => r is Err && config_error_is(r->Err_0, f, given_path(path)),
        },
{
    let text = string_of(value);
    if chars_equal_str(key, "mosh_server") {
        Ok(Defaults { mosh_server: Some(sanitize_server_path(text.as_str())), ..d })
    } else if chars_equal_str(key, "udp_port") {
        match PortSpec::parse(text.as_str()) {
            Ok(p) => Ok(Defaults { udp_port: Some(p), ..d }),
            Err(e) => Err(e),
        }
    } else if chars_equal_str(key, "terminal") {
        Ok(Defaults { terminal: Some(text), ..d })
    } else if chars_equal_str(key, "prediction") {
        match PredictionMode::parse(text.as_str()) {
            Ok(p) => Ok(Defaults { prediction: Some(p), ..d }),
            Err(e) => Err(e),
        }
    } else {
        Err(line_error(path, line, text_with("unknown defaults key: ", key)))
    }
}

fn apply_host(
    h: HostConfig,
    key: &[char],
    value: &[char],
    line: usize,
    path: Option<&std::path::PathBuf>,
) -> (r: Result<HostConfig, ConfigError>)
    ensures
        match spec_apply_host(h@, key@, value@, line as nat) {
            Ok(h2) => r is Ok && r->Ok_0@ == h2,
            Err(f) => r is Err && config_error_is(r->Err_0, f, given_path(path)),
        },
{
    let text = string_of(value);
    if chars_equal_str(key, "ssh_target") {
        if !crate::config::alias::is_valid_ssh_target(text.as_str()) {
            return Err(line_error(path, line, "ssh_target must not be empty or start with '-'".to_owned()));
        }
        Ok(HostConfig { ssh_target: text, ..h })
    } else if chars_equal_str(key, "udp_host") {
        Ok(HostConfig { udp_host: Some(text), ..h })
    } else if chars_equal_str(key, "udp_port") {
        match PortSpec::parse(text.as_str()) {
            Ok(p) => Ok(HostConfig { udp_port: Some(p), ..h }),
            Err(e) => Err(e),
        }
    } else if chars_equal_str(key, "mosh_server") {
        Ok(HostConfig { mosh_server: Some(sanitize_server_path(text.as_str())), ..h })
    } else if chars_equal_str(key, "terminal") {
        Ok(HostConfig { terminal: Some(text), ..h })
    } else if chars_equal_str(key, "prediction") {
        match PredictionMode::parse(text.as_str()) {
            Ok(p) => Ok(HostConfig { prediction: Some(p), ..h }),
            Err(e) => Err(e),
        }
    } else {
        Err(line_error(path, line, text_with("unknown host key: ", key)))
    }
}

fn parse_header(st: ParseState, line: &[char], number: usize, path: Option<&std::path::PathBuf>) -> (r: Result<ParseState, ConfigError>)
    requires
        st.hosts.wf(),
        line@.len() > 0,
        line@[0] == '[',
    ensures
        match spec_parse_header(state_view(st), line@, number as nat) {
            Ok(m) => r is Ok && state_view(r->Ok_0) == m && r->Ok_0.hosts.wf(),
            Err(f) => r is Err && config_error_is(r->Err_0, f, given_path(path)),
        },
{
    if line[line.len() - 1] != ']' {
        return Err(line_error(path, number, "section header is missing closing ']' ".to_owned()));
    }
    let name = if line.len() >= 2 { copy_chars(line, 1, line.len() - 1) } else { Vec::new() };
    assert(name@ =~= line@.subrange(1, line@.len() - 1));
    if chars_equal_str(name.as_slice(), "defaults") {
        return Ok(ParseState { section: Section::Defaults, ..st });
    }
    let prefix = chars_of("hosts.");
    if starts_with_chars(name.as_slice(), prefix.as_slice()) {
        let rest = copy_chars(name.as_slice(), prefix.len(), name.len());
        let h = trim_chars(rest.as_slice());
        proof {
            assert(prefix@.len() == 6) by {
                reveal_strlit("hosts.");
            }
            assert(rest@ =~= name@.skip(6));
        }
        let h_text = string_of(h.as_slice());
        if !crate::config::alias::is_valid_alias_name(h_text.as_str()) {
            return Err(ConfigError::InvalidAliasName { name: h_text });
        }
        let mut hosts = st.hosts;
        if !hosts.contains_key(h_text.as_str()) {
            let _ = hosts.insert(h_text, HostConfig::default());
        }
        return Ok(ParseState { hosts, section: Section::Host(h), ..st });
    }
    Err(line_error(path, number, text_with("unknown section: ", name.as_slice())))
}

fn parse_entry(st: ParseState, line: &[char], number: usize, path: Option<&std::path::PathBuf>) -> (r: Result<ParseState, ConfigError>)
    requires
        st.hosts.wf(),
    ensures
        match spec_parse_entry(state_view(st), line@, number as nat) {
            Ok(m) => r is Ok && state_view(r->Ok_0) == m && r->Ok_0.hosts.wf(),
            Err(f) => r is Err && config_error_is(r->Err_0, f, given_path(path)),
        },
{
    let i = match find_char_index(line, '=') {
        Some(i) => i,
        None => return Err(line_error(path, number, "expected key = value".to_owned())),
    };
    let n = line.len();
    let key_raw = copy_chars(line, 0, i);
    let value_raw = copy_chars(line, i + 1, n);
    assert(key_raw@ =~= line@.take(i as int));
    assert(value_raw@ =~= line@.skip(i + 1));
    let key = trim_chars(key_raw.as_slice());
    let value_trimmed = trim_chars(value_raw.as_slice());
    let value = match parse_string_value(value_trimmed.as_slice()) {
        Ok(v) => v,
        Err(f) => return Err(line_error(path, number, value_fault_message(&f))),
    };
    match st.section {
        Section::Root => {
            if chars_equal_str(key.as_slice(), "version") {
                match parse_unsigned_chars(value.as_slice(), 0xffff_ffff) {
                    Some(v) => Ok(ParseState { version: v as u32, section: Section::Root, ..st }),
                    None => Err(line_error(path, number, "version must be an integer".to_owned())),
                }
            } else {
                Err(line_error(path, number, text_with("unknown root key: ", key.as_slice())))
            }
        },
        Section::Defaults => {
            match apply_default(st.defaults, key.as_slice(), value.as_slice(), number, path) {
                Ok(d) => Ok(ParseState { defaults: d, section: Section::Defaults, ..st }),
                Err(e) => Err(e),
            }
        },
        Section::Host(h) => {
            let h_text = string_of(h.as_slice());
            let host = match st.hosts.get(h_text.as_str()) {
                Some(host) => host.duplicate(),
                None => return Err(line_error(path, number, text_with("internal parser error for host: ", h.as_slice()))),
            };
            match apply_host(host, key.as_slice(), value.as_slice(), number, path) {
                Ok(host2) => {
                    let mut hosts = st.hosts;
                    let _ = hosts.insert(h_text, host2);
                    Ok(ParseState { hosts, section: Section::Host(h), ..st })
                },
                Err(e) => Err(e),
            }
        },
    }
}

fn parse_line(st: ParseState, raw: &[char], number: usize, path: Option<&std::path::PathBuf>) -> (r: Result<ParseState, ConfigError>)
    requires
        st.hosts.wf(),
    ensures
        match spec_parse_line(state_view(st), raw@, number as nat) {
            Ok(m) => r is Ok && state_view(r->Ok_0) == m && r->Ok_0.hosts.wf(),
            Err(f) => r is Err && config_error_is(r->Err_0, f, given_path(path)),
        },
{
    let stripped = strip_comment(raw);
    let line = trim_chars(stripped.as_slice());
    if line.len() == 0 {
        Ok(st)
    } else if line[0] == '[' {
        parse_header(st, line.as_slice(), number, path)
    } else {
        parse_entry(st, line.as_slice(), number, path)
    }
}

fn missing_target(hosts: &HostTable) -> (r: Option<String>)
    ensures
        match first_missing_target(hosts@) {
            Some(n) => r is Some && r->Some_0@ == n,
            None => r is None,
        },
{
    let entries = hosts.entries();
    let mut i: usize = 0;
    assert(entries_view(entries@).skip(0) =~= hosts@);
    while i < entries.len()
        invariant
            i <= entries@.len(),
            entries_view(entries@) == hosts@,
            first_missing_target(hosts@) == first_missing_target(hosts@.skip(i as int)),
        decreases entries@.len() - i,
    {
        let target = chars_of(entries[i].1.ssh_target.as_str());
        let trimmed = trim_chars(target.as_slice());
        assert(hosts@.skip(i as int)[0] == hosts@[i as int]);
        assert(hosts@[i as int] == (entries@[i as int].0@, entries@[i as int].1@));
        if trimmed.len() == 0 {
            return Some(entries[i].0.clone());
        }
        assert(hosts@.skip(i as int).drop_first() =~= hosts@.skip(i + 1));
        i = i + 1;
    }
    None
}

pub fn parse_config(input: &str, path: Option<&std::path::PathBuf>) -> (r: Result<AppConfig, ConfigError>)
    ensures
        match spec_parse_config(input@) {
            Ok(m) => r is Ok && config_model(r->Ok_0) == m && r->Ok_0.hosts.wf(),
            Err(f) => r is Err && config_error_is(r->Err_0, f, given_path(path)),
        },
{
    let chars = chars_of(input);
    let ls = lines_of(chars.as_slice());
    let ghost lsv = ls@.map_values(|l: Vec<char>| l@);
    let mut st = ParseState { version: 0, defaults: Defaults::default(), hosts: HostTable::new(), section: Section::Root };
    assert(state_view(st) == initial_parse());
    let mut k: usize = 0;
    while k < ls.len()
        invariant
            k <= ls@.len(),
            lsv == ls@.map_values(|l: Vec<char>| l@),
            lsv == lines(input@),
            st.hosts.wf(),
            spec_parse_lines(lsv, k as nat) == Ok::<ParseModel, ConfigFault>(state_view(st)),
        decreases ls@.len() - k,
    {
        assert(lsv[k as int] == ls@[k as int]@);
        st = match parse_line(st, ls[k].as_slice(), k + 1, path) {
            Ok(s) => s,
            Err(e) => {
                proof {
                    lemma_parse_lines_error_persists(lsv, (k + 1) as nat);
                }
                return Err(e);
            },
        };
        k = k + 1;
    }
    let trimmed = trim_chars(chars.as_slice());
    if trimmed.len() == 0 {
        let d = AppConfig::default();
        assert(d.hosts@ =~= Seq::<HostEntryModel>::empty());
        return Ok(d);
    }
    if st.version == 0 {
        return Err(line_error(path, 1, "missing required root key: version".to_owned()));
    }
    if st.version != CONFIG_VERSION {
        return Err(ConfigError::UnsupportedVersion { version: st.version });
    }
    match missing_target(&st.hosts) {
        Some(name) => {
            let mut message = "hosts.".to_owned();
            push_str(&mut message, name.as_str());
            push_str(&mut message, ".ssh_target is required");
            Err(ConfigError::Parse { path: copy_path(path), line: None, message })
        },
        None => Ok(AppConfig { version: st.version, defaults: st.defaults, hosts: st.hosts }),
    }
}

/// Once the first `k` lines fail, all of them fail the same way.
proof fn lemma_parse_lines_error_persists(ls: Seq<Seq<char>>, k: nat)
    requires
        k <= ls.len(),
        spec_parse_lines(ls, k) is Err,
    ensures
        spec_parse_lines(ls, ls.len()) == spec_parse_lines(ls, k),
    decreases ls.len() - k,
{
    if k < ls.len() {
        lemma_parse_lines_error_persists_step(ls, k, ls.len());
    }
}

proof fn lemma_parse_lines_error_persists_step(ls: Seq<Seq<char>>, k: nat, m: nat)
    requires
        k <= m <= ls.len(),
        spec_parse_lines(ls, k) is Err,
    ensures
        spec_parse_lines(ls, m) == spec_parse_lines(ls, k),
    decreases m - k,
{
    if m > k {
        lemma_parse_lines_error_persists_step(ls, k, (m - 1) as nat);
    }
}

} // verus!

verus! {

// ---------------------------------------------------------------------------
// Writing
// ---------------------------------------------------------------------------

/// `key = "value"` and a newline.
pub open spec fn quoted_line(key: Seq<char>, value: Seq<char>) -> Seq<char> {
    key + " = \""@ + value + "\"\n"@
}

pub open spec fn opt_text_line(key: Seq<char>, v: Option<Seq<char>>) -> Seq<char> {
    match v {
        Some(t) => quoted_line(key, spec_escape(t)),
        None => seq![],
    }
}

pub open spec fn opt_port_line(key: Seq<char>, v: Option<PortSpec>) -> Seq<char> {
    match v {
        Some(p) => quoted_line(key, spec_port_text(p)),
        None => seq![],
    }
}

pub open spec fn opt_prediction_line(key: Seq<char>, v: Option<PredictionMode>) -> Seq<char> {
    match v {
        Some(p) => quoted_line(key, prediction_text(p)),
        None => seq![],
    }
}

/// The section of one host: its header, its ssh target, then the settings it has.
pub open spec fn host_section(name: Seq<char>, h: HostConfigModel) -> Seq<char> {
    "\n[hosts."@ + name + "]\n"@ + quoted_line("ssh_target"@, spec_escape(h.ssh_target)) + opt_text_line(
        "udp_host"@,
        h.udp_host,
    ) + opt_port_line("udp_port"@, h.udp_port) + opt_text_line("mosh_server"@, h.mosh_server) + opt_text_line(
        "terminal"@,
        h.terminal,
    ) + opt_prediction_line("prediction"@, h.prediction)
}

pub open spec fn host_sections(hosts: Seq<HostEntryModel>) -> Seq<char>
    decreases hosts.len(),
{
    if hosts.len() == 0 {
        seq![]
    } else {
        host_sections(hosts.drop_last()) + host_section(hosts.last().0, hosts.last().1)
    }
}

/// The text of a configuration: the version, the defaults that are set, then each host in
/// name order.
pub open spec fn spec_serialize(c: ConfigModel) -> Seq<char> {
    "version = "@ + decimal(c.version as nat) + "\n"@ + "\n[defaults]\n"@ + opt_text_line(
        "mosh_server"@,
        c.defaults.mosh_server,
    ) + opt_port_line("udp_port"@, c.defaults.udp_port) + opt_text_line("terminal"@, c.defaults.terminal)
        + opt_prediction_line("prediction"@, c.defaults.prediction) + host_sections(c.hosts)
}

fn push_quoted(output: &mut String, key: &str, value: &[char])
    ensures
        final(output)@ == old(output)@ + quoted_line(key@, value@),
{
    push_str(output, key);
    push_str(output, " = \"");
    push_chars(output, value);
    push_str(output, "\"\n");
    assert(final(output)@ =~= old(output)@ + quoted_line(key@, value@));
}

fn push_opt_text(output: &mut String, key: &str, value: &Option<String>)
    ensures
        final(output)@ == old(output)@ + opt_text_line(key@, opt_text(*value)),
{
    match value {
        Some(v) => {
            let chars = chars_of(v.as_str());
            let mut escaped = String::new();
            escape_into(&mut escaped, chars.as_slice());
            let e = chars_of(escaped.as_str());
            assert(e@ =~= spec_escape(v@));
            push_quoted(output, key, e.as_slice());
        },
        None => {
            assert(final(output)@ =~= old(output)@ + opt_text_line(key@, opt_text(*value)));
        },
    }
}

fn push_opt_port(output: &mut String, key: &str, value: Option<PortSpec>)
    ensures
        final(output)@ == old(output)@ + opt_port_line(key@, value),
{
    match value {
        Some(p) => {
            let text = p.to_text();
            let chars = chars_of(text.as_str());
            push_quoted(output, key, chars.as_slice());
        },
        None => {
            assert(final(output)@ =~= old(output)@ + opt_port_line(key@, value));
        },
    }
}

fn push_opt_prediction(output: &mut String, key: &str, value: Option<PredictionMode>)
    ensures
        final(output)@ == old(output)@ + opt_prediction_line(key@, value),
{
    match value {
        Some(p) => {
            let chars = chars_of(p.as_str());
            push_quoted(output, key, chars.as_slice());
        },
        None => {
            assert(final(output)@ =~= old(output)@ + opt_prediction_line(key@, value));
        },
    }
}

fn push_host_section(output: &mut String, name: &String, host: &HostConfig)
    ensures
        final(output)@ == old(output)@ + host_section(name@, host@),
{
    push_str(output, "\n[hosts.");
    push_str(output, name.as_str());
    push_str(output, "]\n");
    let target = chars_of(host.ssh_target.as_str());
    let mut escaped = String::new();
    escape_into(&mut escaped, target.as_slice());
    let e = chars_of(escaped.as_str());
    assert(e@ =~= spec_escape(host.ssh_target@));
    push_quoted(output, "ssh_target", e.as_slice());
    push_opt_text(output, "udp_host", &host.udp_host);
    push_opt_port(output, "udp_port", host.udp_port);
    push_opt_text(output, "mosh_server", &host.mosh_server);
    push_opt_text(output, "terminal", &host.terminal);
    push_opt_prediction(output, "prediction", host.prediction);
    assert(final(output)@ =~= old(output)@ + host_section(name@, host@));
}

pub fn serialize_config(config: &AppConfig) -> (s: String)
    ensures
        s@ == spec_serialize(config_model(*config)),
{
    let mut output = String::new();
    push_str(&mut output, "version = ");
    push_decimal(&mut output, config.version as u64);
    push_str(&mut output, "\n");
    push_str(&mut output, "\n[defaults]\n");
    push_opt_text(&mut output, "mosh_server", &config.defaults.mosh_server);
    push_opt_port(&mut output, "udp_port", config.defaults.udp_port);
    push_opt_text(&mut output, "terminal", &config.defaults.terminal);
    push_opt_prediction(&mut output, "prediction", config.defaults.prediction);
    let ghost start = output@;
    let entries = config.hosts.entries();
    let mut i: usize = 0;
    assert(entries_view(entries@).take(0) =~= Seq::<HostEntryModel>::empty());
    while i < entries.len()
        invariant
            i <= entries@.len(),
            entries_view(entries@) == config.hosts@,
            output@ == start + host_sections(entries_view(entries@).take(i as int)),
        decreases entries@.len() - i,
    {
        let name = &entries[i].0;
        let host = &entries[i].1;
        let ghost before = output@;
        push_host_section(&mut output, name, host);
        let ghost taken = entries_view(entries@).take(i + 1);
        assert(taken.drop_last() =~= entries_view(entries@).take(i as int));
        assert(taken.last() == (name@, host@));
        assert(output@ =~= before + host_section(name@, host@));
        i = i + 1;
    }
    assert(entries_view(entries@).take(i as int) =~= config.hosts@);
    assert(output@ =~= spec_serialize(config_model(*config)));
    output
}

} // verus!
