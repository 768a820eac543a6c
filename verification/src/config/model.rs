//! The configuration model: defaults, hosts, port specs and resolved targets.

use vstd::prelude::*;

use crate::config::hosts::HostTable;
use crate::text::{
    chars_equal_str, chars_of, decimal, find_char, find_char_index, is_suffix, lower_all, lower_chars,
    parse_unsigned, parse_unsigned_chars, push_decimal, push_str, trim, trim_chars,
};

verus! {

#[verifier::external_type_specification]
#[verifier::external_body]
pub struct ExPathBuf(std::path::PathBuf);

/// Copies a path (`Clone for PathBuf`): the copy is the same path.
pub assume_specification[ <std::path::PathBuf as std::clone::Clone>::clone ](p: &std::path::PathBuf) -> (r: std::path::PathBuf)
    ensures
        r == *p,
;

pub const CONFIG_VERSION: u32 = 1;

pub const DEFAULT_MOSH_SERVER: &'static str = "mosh-server";

pub const DEFAULT_TERMINAL: &'static str = "xterm-256color";

/// The prediction mode when none is configured.
pub const DEFAULT_PREDICTION: PredictionMode = PredictionMode::Off;

/// The default UDP port range, from 60000 up to 61000.
pub const DEFAULT_UDP_PORT_START: u16 = 60000;

pub const DEFAULT_UDP_PORT_END: u16 = 61000;

/// How long ssh gets to report its effective configuration, in seconds.
pub const DEFAULT_CONNECT_TIMEOUT_SECS: u64 = 10;

/// The most output read from ssh.
pub const SSH_OUTPUT_LIMIT: usize = 128 * 1024;

/// A UDP port, or a range of them.
#[derive(Debug, Clone, Copy, PartialEq, Eq, Structural)]
pub enum PortSpec {
    Single(u16),
    Range { start: u16, end: u16 },
}

/// The default UDP port spec.
pub open spec fn default_udp_port() -> PortSpec {
    PortSpec::Range { start: 60000, end: 61000 }
}

pub fn default_udp_port_spec() -> (p: PortSpec)
    ensures
        p == default_udp_port(),
{
    PortSpec::Range { start: DEFAULT_UDP_PORT_START, end: DEFAULT_UDP_PORT_END }
}

/// How local echo prediction behaves.
#[derive(Debug, Clone, Copy, PartialEq, Eq, Structural)]
pub enum PredictionMode {
    Off,
    Adaptive,
    Always,
    Never,
}

/// Which IP version ssh and UDP use.
#[derive(Debug, Clone, Copy, PartialEq, Eq, Structural)]
pub enum AddressFamily {
    Auto,
    Ipv4,
    Ipv6,
}

/// Errors of configuration handling.
#[allow(inconsistent_fields)]
#[derive(Debug)]
pub enum ConfigError {
    Io { path: std::path::PathBuf, source: std::io::Error },
    Parse { path: Option<std::path::PathBuf>, line: Option<usize>, message: String },
    UnsupportedVersion { version: u32 },
    InvalidAliasName { name: String },
    AliasExists { name: String },
    AliasNotFound { name: String },
    ConcurrentModification { path: std::path::PathBuf },
    InvalidPortSpec { value: String },
    SshConfig(String),
}

/// Whether `e` is a parse error, without a path or line, with message `message`.
pub open spec fn is_plain_parse_error(e: ConfigError, message: Seq<char>) -> bool {
    e matches ConfigError::Parse { path: None, line: None, message: m } && m@ == message
}

impl ConfigError {
    pub fn io(path: std::path::PathBuf, source: std::io::Error) -> (e: Self)
        ensures
            e == (ConfigError::Io { path, source }),
    {
        ConfigError::Io { path, source }
    }

    pub fn invalid_port_spec(value: &str) -> (e: Self)
        ensures
            e matches ConfigError::InvalidPortSpec { value: v } && v@ == value@,
    {
        ConfigError::InvalidPortSpec { value: value.to_owned() }
    }
}

/// The display form of a path (`Path::display`). Nothing is claimed of the text: paths are
/// opaque here.
#[verifier::external_body]
pub(crate) fn path_text(p: &std::path::PathBuf) -> String {
    p.display().to_string()
}

/// The message of an I/O error (`Display for io::Error`). Nothing is claimed of it: it comes
/// from the operating system.
#[verifier::external_body]
pub(crate) fn io_error_text(e: &std::io::Error) -> String {
    e.to_string()
}

/// The message of an error that names no path.
pub open spec fn config_error_text(e: ConfigError) -> Option<Seq<char>> {
    match e {
        ConfigError::Parse { path: None, line: None, message } => Some(message@),
        ConfigError::Parse { path: None, line: Some(l), message } => Some(
            "line "@ + decimal(l as nat) + ": "@ + message@,
        ),
        ConfigError::UnsupportedVersion { version } => Some(
            "unsupported config version: "@ + decimal(version as nat),
        ),
        ConfigError::InvalidAliasName { name } => Some(
            "invalid alias name '"@ + name@ + "'; allowed characters are A-Z a-z 0-9 . _ -"@,
        ),
        ConfigError::AliasExists { name } => Some("alias already exists: "@ + name@),
        ConfigError::AliasNotFound { name } => Some("alias not found: "@ + name@),
        ConfigError::InvalidPortSpec { value } => Some("invalid UDP port spec: "@ + value@),
        ConfigError::SshConfig(message) => Some(message@),
        _ => None,
    }
}

/// What the message of an error that names a path is known to hold: the path's display form
/// comes first (for a changed file, after a fixed prefix), and the rest is fixed.
pub open spec fn config_error_shape(e: ConfigError, s: Seq<char>) -> bool {
    match e {
        ConfigError::Parse { path: Some(_), line: Some(l), message } => is_suffix(
            ":"@ + decimal(l as nat) + ": "@ + message@,
            s,
        ),
        ConfigError::Parse { path: Some(_), line: None, message } => is_suffix(": "@ + message@, s),
        ConfigError::ConcurrentModification { .. } => "configuration changed while editing: "@.is_prefix_of(s),
        _ => true,
    }
}

impl ConfigError {
    /// The message of the error, as it is shown to the user.
    pub fn describe(&self) -> (s: String)
        ensures
            config_error_text(*self) matches Some(t) ==> s@ == t,
            config_error_shape(*self, s@),
    {
        match self {
            ConfigError::Io { path, source } => {
                let mut s = path_text(path);
                push_str(&mut s, ": ");
                let t = io_error_text(source);
                push_str(&mut s, t.as_str());
                s
            },
            ConfigError::Parse { path, line, message } => {
                let mut s = match path {
                    Some(p) => path_text(p),
                    None => String::new(),
                };
                let ghost start = s@;
                match (path, line) {
                    (Some(_), Some(l)) => {
                        push_str(&mut s, ":");
                        push_decimal(&mut s, *l as u64);
                        push_str(&mut s, ": ");
                        push_str(&mut s, message.as_str());
                        assert(s@ =~= start + (":"@ + decimal(*l as nat) + ": "@ + message@));
                        assert(s@.skip(start.len() as int) =~= ":"@ + decimal(*l as nat) + ": "@ + message@);
                    },
                    (Some(_), None) => {
                        push_str(&mut s, ": ");
                        push_str(&mut s, message.as_str());
                        assert(s@ =~= start + (": "@ + message@));
                        assert(s@.skip(start.len() as int) =~= ": "@ + message@);
                    },
                    (None, Some(l)) => {
                        s = "line ".to_owned();
                        push_decimal(&mut s, *l as u64);
                        push_str(&mut s, ": ");
                        push_str(&mut s, message.as_str());
                    },
                    (None, None) => {
                        s = message.clone();
                    },
                }
                s
            },
            ConfigError::UnsupportedVersion { version } => {
                let mut s = "unsupported config version: ".to_owned();
                push_decimal(&mut s, *version as u64);
                s
            },
            ConfigError::InvalidAliasName { name } => {
                let mut s = "invalid alias name '".to_owned();
                push_str(&mut s, name.as_str());
                push_str(&mut s, "'; allowed characters are A-Z a-z 0-9 . _ -");
                s
            },
            ConfigError::AliasExists { name } => {
                let mut s = "alias already exists: ".to_owned();
                push_str(&mut s, name.as_str());
                s
            },
            ConfigError::AliasNotFound { name } => {
                let mut s = "alias not found: ".to_owned();
                push_str(&mut s, name.as_str());
                s
            },
            ConfigError::ConcurrentModification { path } => {
                let mut s = "configuration changed while editing: ".to_owned();
                let ghost prefix = s@;
                let t = path_text(path);
                push_str(&mut s, t.as_str());
                assert(s@.subrange(0, prefix.len() as int) =~= prefix);
                s
            },
            ConfigError::InvalidPortSpec { value } => {
                let mut s = "invalid UDP port spec: ".to_owned();
                push_str(&mut s, value.as_str());
                s
            },
            ConfigError::SshConfig(message) => message.clone(),
        }
    }
}

/// A port as `str::parse::<u16>` reads it after trimming, refusing port 0.
pub open spec fn spec_parse_port(value: Seq<char>) -> Option<u16> {
    match parse_unsigned(trim(value), 0xffff) {
        Some(p) => if p == 0 { None } else { Some(p as u16) },
        None => None,
    }
}

/// A port spec: one port, or `start:end` with `start <= end`, around optional whitespace.
pub open spec fn spec_parse_port_spec(input: Seq<char>) -> Option<PortSpec> {
    let t = trim(input);
    if t.len() == 0 {
        None
    } else {
        match find_char(t, ':') {
            Some(i) => match (spec_parse_port(t.take(i)), spec_parse_port(t.skip(i + 1))) {
                (Some(a), Some(b)) => if a > b { None } else { Some(PortSpec::Range { start: a, end: b }) },
                _ => None,
            },
            None => match spec_parse_port(t) {
                Some(p) => Some(PortSpec::Single(p)),
                None => None,
            },
        }
    }
}

/// The text of a port spec: the port, or `start:end`.
pub open spec fn spec_port_text(p: PortSpec) -> Seq<char> {
    match p {
        PortSpec::Single(port) => decimal(port as nat),
        PortSpec::Range { start, end } => decimal(start as nat) + ":"@ + decimal(end as nat),
    }
}

fn parse_port(value: &[char]) -> (r: Option<u16>)
    ensures
        r == spec_parse_port(value@),
{
    let trimmed = trim_chars(value);
    match parse_unsigned_chars(trimmed.as_slice(), 0xffff) {
        Some(p) => if p == 0 {
            None
        } else {
            Some(p as u16)
        },
        None => None,
    }
}

impl PortSpec {
    pub fn parse(input: &str) -> (r: Result<Self, ConfigError>)
        ensures
            match spec_parse_port_spec(input@) {
                Some(p) => r == Ok::<PortSpec, ConfigError>(p),
                None => r matches Err(ConfigError::InvalidPortSpec { value }) && value@ == input@,
            },
    {
        let chars = chars_of(input);
        let t = trim_chars(chars.as_slice());
        if t.len() == 0 {
            return Err(ConfigError::invalid_port_spec(input));
        }
        match find_char_index(t.as_slice(), ':') {
            Some(i) => {
                let first = crate::text::copy_chars(t.as_slice(), 0, i);
                let second = crate::text::copy_chars(t.as_slice(), i + 1, t.len());
                assert(first@ =~= t@.take(i as int));
                assert(second@ =~= t@.skip(i + 1));
                let start = match parse_port(first.as_slice()) {
                    Some(p) => p,
                    None => return Err(ConfigError::invalid_port_spec(input)),
                };
                let end = match parse_port(second.as_slice()) {
                    Some(p) => p,
                    None => return Err(ConfigError::invalid_port_spec(input)),
                };
                if start > end {
                    return Err(ConfigError::invalid_port_spec(input));
                }
                Ok(PortSpec::Range { start, end })
            },
            None => match parse_port(t.as_slice()) {
                Some(p) => Ok(PortSpec::Single(p)),
                None => Err(ConfigError::invalid_port_spec(input)),
            },
        }
    }

    pub fn first_port(self) -> (p: u16)
        ensures
            p == match self {
                PortSpec::Single(port) => port,
                PortSpec::Range { start, .. } => start,
            },
    {
        match self {
            PortSpec::Single(port) => port,
            PortSpec::Range { start, .. } => start,
        }
    }

    /// The text of the spec, as it is written in the configuration.
    pub fn to_text(self) -> (s: String)
        ensures
            s@ == spec_port_text(self),
    {
        let mut s = String::new();
        match self {
            PortSpec::Single(port) => push_decimal(&mut s, port as u64),
            PortSpec::Range { start, end } => {
                push_decimal(&mut s, start as u64);
                push_str(&mut s, ":");
                push_decimal(&mut s, end as u64);
            },
        }
        assert(s@ =~= spec_port_text(self));
        s
    }
}

/// The mode that a name, trimmed and lower-cased, stands for.
pub open spec fn spec_parse_prediction(input: Seq<char>) -> Option<PredictionMode> {
    let w = lower_all(trim(input));
    if w == "off"@ {
        Some(PredictionMode::Off)
    } else if w == "adaptive"@ {
        Some(PredictionMode::Adaptive)
    } else if w == "always"@ {
        Some(PredictionMode::Always)
    } else if w == "never"@ {
        Some(PredictionMode::Never)
    } else {
        None
    }
}

pub open spec fn prediction_text(p: PredictionMode) -> Seq<char> {
    match p {
        PredictionMode::Off => "off"@,
        PredictionMode::Adaptive => "adaptive"@,
        PredictionMode::Always => "always"@,
        PredictionMode::Never => "never"@,
    }
}

impl PredictionMode {
    pub fn parse(input: &str) -> (r: Result<Self, ConfigError>)
        ensures
            match spec_parse_prediction(input@) {
                Some(p) => r == Ok::<PredictionMode, ConfigError>(p),
                None => is_plain_parse_error(r->Err_0, "invalid prediction mode: "@ + input@) && r is Err,
            },
    {
        let chars = chars_of(input);
        let t = trim_chars(chars.as_slice());
        let w = lower_chars(t.as_slice());
        if chars_equal_str(w.as_slice(), "off") {
            Ok(PredictionMode::Off)
        } else if chars_equal_str(w.as_slice(), "adaptive") {
            Ok(PredictionMode::Adaptive)
        } else if chars_equal_str(w.as_slice(), "always") {
            Ok(PredictionMode::Always)
        } else if chars_equal_str(w.as_slice(), "never") {
            Ok(PredictionMode::Never)
        } else {
            let mut message = "invalid prediction mode: ".to_owned();
            push_str(&mut message, input);
            Err(ConfigError::Parse { path: None, line: None, message })
        }
    }

    pub fn as_str(self) -> (s: &'static str)
        ensures
            s@ == prediction_text(self),
    {
        match self {
            PredictionMode::Off => "off",
            PredictionMode::Adaptive => "adaptive",
            PredictionMode::Always => "always",
            PredictionMode::Never => "never",
        }
    }
}

/// The family that a name, trimmed and lower-cased, stands for.
pub open spec fn spec_parse_family(input: Seq<char>) -> Option<AddressFamily> {
    let w = lower_all(trim(input));
    if w == "auto"@ || w == "any"@ {
        Some(AddressFamily::Auto)
    } else if w == "ipv4"@ || w == "inet"@ {
        Some(AddressFamily::Ipv4)
    } else if w == "ipv6"@ || w == "inet6"@ {
        Some(AddressFamily::Ipv6)
    } else {
        None
    }
}

pub open spec fn family_text(f: AddressFamily) -> Seq<char> {
    match f {
        AddressFamily::Auto => "auto"@,
        AddressFamily::Ipv4 => "ipv4"@,
        AddressFamily::Ipv6 => "ipv6"@,
    }
}

impl AddressFamily {
    pub fn parse(input: &str) -> (r: Result<Self, ConfigError>)
        ensures
            match spec_parse_family(input@) {
                Some(f) => r == Ok::<AddressFamily, ConfigError>(f),
                None => is_plain_parse_error(r->Err_0, "invalid address family: "@ + input@) && r is Err,
            },
    {
        let chars = chars_of(input);
        let t = trim_chars(chars.as_slice());
        let w = lower_chars(t.as_slice());
        if chars_equal_str(w.as_slice(), "auto") || chars_equal_str(w.as_slice(), "any") {
            Ok(AddressFamily::Auto)
        } else if chars_equal_str(w.as_slice(), "ipv4") || chars_equal_str(w.as_slice(), "inet") {
            Ok(AddressFamily::Ipv4)
        } else if chars_equal_str(w.as_slice(), "ipv6") || chars_equal_str(w.as_slice(), "inet6") {
            Ok(AddressFamily::Ipv6)
        } else {
            let mut message = "invalid address family: ".to_owned();
            push_str(&mut message, input);
            Err(ConfigError::Parse { path: None, line: None, message })
        }
    }

    pub fn as_str(self) -> (s: &'static str)
        ensures
            s@ == family_text(self),
    {
        match self {
            AddressFamily::Auto => "auto",
            AddressFamily::Ipv4 => "ipv4",
            AddressFamily::Ipv6 => "ipv6",
        }
    }
}

pub open spec fn opt_text(o: Option<String>) -> Option<Seq<char>> {
    match o {
        Some(s) => Some(s@),
        None => None,
    }
}

/// A copy of an optional string.
pub fn clone_opt_string(o: &Option<String>) -> (r: Option<String>)
    ensures
        opt_text(r) == opt_text(*o),
{
    match o {
        Some(s) => Some(s.clone()),
        None => None,
    }
}

/// The settings every host falls back to.
#[derive(Debug, Clone, PartialEq, Eq)]
pub struct Defaults {
    pub mosh_server: Option<String>,
    pub udp_port: Option<PortSpec>,
    pub terminal: Option<String>,
    pub prediction: Option<PredictionMode>,
}

pub struct DefaultsModel {
    pub mosh_server: Option<Seq<char>>,
    pub udp_port: Option<PortSpec>,
    pub terminal: Option<Seq<char>>,
    pub prediction: Option<PredictionMode>,
}

impl View for Defaults {
    type V = DefaultsModel;

    open spec fn view(&self) -> DefaultsModel {
        DefaultsModel {
            mosh_server: opt_text(self.mosh_server),
            udp_port: self.udp_port,
            terminal: opt_text(self.terminal),
            prediction: self.prediction,
        }
    }
}

pub open spec fn default_defaults() -> DefaultsModel {
    DefaultsModel {
        mosh_server: Some("mosh-server"@),
        udp_port: Some(default_udp_port()),
        terminal: Some("xterm-256color"@),
        prediction: Some(PredictionMode::Off),
    }
}

impl Default for Defaults {
    fn default() -> (r: Self)
        ensures
            r@ == default_defaults(),
    {
        Defaults {
            mosh_server: Some(DEFAULT_MOSH_SERVER.to_owned()),
            udp_port: Some(default_udp_port_spec()),
            terminal: Some(DEFAULT_TERMINAL.to_owned()),
            prediction: Some(PredictionMode::Off),
        }
    }
}

/// The settings of one host alias.
#[derive(Debug, Clone, PartialEq, Eq)]
pub struct HostConfig {
    pub ssh_target: String,
    pub udp_host: Option<String>,
    pub udp_port: Option<PortSpec>,
    pub mosh_server: Option<String>,
    pub terminal: Option<String>,
    pub prediction: Option<PredictionMode>,
}

pub struct HostConfigModel {
    pub ssh_target: Seq<char>,
    pub udp_host: Option<Seq<char>>,
    pub udp_port: Option<PortSpec>,
    pub mosh_server: Option<Seq<char>>,
    pub terminal: Option<Seq<char>>,
    pub prediction: Option<PredictionMode>,
}

impl View for HostConfig {
    type V = HostConfigModel;

    open spec fn view(&self) -> HostConfigModel {
        HostConfigModel {
            ssh_target: self.ssh_target@,
            udp_host: opt_text(self.udp_host),
            udp_port: self.udp_port,
            mosh_server: opt_text(self.mosh_server),
            terminal: opt_text(self.terminal),
            prediction: self.prediction,
        }
    }
}

pub open spec fn empty_host() -> HostConfigModel {
    HostConfigModel {
        ssh_target: seq![],
        udp_host: None,
        udp_port: None,
        mosh_server: None,
        terminal: None,
        prediction: None,
    }
}

impl Default for HostConfig {
    fn default() -> (r: Self)
        ensures
            r@ == empty_host(),
    {
        HostConfig {
            ssh_target: String::new(),
            udp_host: None,
            udp_port: None,
            mosh_server: None,
            terminal: None,
            prediction: None,
        }
    }
}

impl HostConfig {
    /// A copy of the host settings.
    pub fn duplicate(&self) -> (r: Self)
        ensures
            r@ == self@,
    {
        HostConfig {
            ssh_target: self.ssh_target.clone(),
            udp_host: clone_opt_string(&self.udp_host),
            udp_port: self.udp_port,
            mosh_server: clone_opt_string(&self.mosh_server),
            terminal: clone_opt_string(&self.terminal),
            prediction: self.prediction,
        }
    }
}

/// The whole configuration.
#[derive(Debug, Clone, PartialEq, Eq)]
pub struct AppConfig {
    pub version: u32,
    pub defaults: Defaults,
    pub hosts: HostTable,
}

impl Default for AppConfig {
    fn default() -> (r: Self)
        ensures
            r.version == CONFIG_VERSION,
            r.defaults@ == default_defaults(),
            r.hosts@.len() == 0,
            r.hosts.wf(),
    {
        AppConfig { version: CONFIG_VERSION, defaults: Defaults::default(), hosts: HostTable::new() }
    }
}

/// What ssh says it would use for a target.
#[derive(Debug, Clone, PartialEq, Eq)]
pub struct EffectiveSshConfig {
    pub hostname: String,
    pub user: String,
    pub port: u16,
    pub address_family: AddressFamily,
}

/// A UDP address to try.
#[derive(Debug, Clone, PartialEq, Eq)]
pub struct SocketCandidate {
    pub host: String,
    pub port: PortSpec,
}

/// Settings given on the command line, which win over the configuration. The ssh path (as
/// the user wrote it) and the connect timeout (in seconds) are used where ssh runs.
#[derive(Debug, Clone, PartialEq, Eq)]
pub struct ResolveOverrides {
    pub ssh_path: Option<String>,
    pub udp_host: Option<String>,
    pub udp_port: Option<PortSpec>,
    pub mosh_server: Option<String>,
    pub terminal: Option<String>,
    pub prediction: Option<PredictionMode>,
    pub family: Option<AddressFamily>,
    pub connect_timeout_secs: Option<u64>,
}

impl Default for ResolveOverrides {
    fn default() -> (r: Self)
        ensures
            r.ssh_path is None,
            r.udp_host is None,
            r.udp_port is None,
            r.mosh_server is None,
            r.terminal is None,
            r.prediction is None,
            r.family is None,
            r.connect_timeout_secs is None,
    {
        ResolveOverrides {
            ssh_path: None,
            udp_host: None,
            udp_port: None,
            mosh_server: None,
            terminal: None,
            prediction: None,
            family: None,
            connect_timeout_secs: None,
        }
    }
}

/// Everything needed to connect to a target.
#[derive(Debug, Clone, PartialEq, Eq)]
pub struct ResolvedTarget {
    pub display_name: String,
    pub alias_name: Option<String>,
    pub ssh_target: String,
    pub effective_ssh: EffectiveSshConfig,
    pub udp_candidates: Vec<SocketCandidate>,
    pub mosh_server: String,
    pub udp_port: PortSpec,
    pub terminal: String,
    pub prediction: PredictionMode,
}

} // verus!
