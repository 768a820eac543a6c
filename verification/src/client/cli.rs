//! The command line: global options, the subcommands and their arguments.

use vstd::prelude::*;

use crate::bootstrap::command::join_words;
use crate::client::error::{is_cli_error, Error};
use crate::config::alias::AliasAdd;
use crate::config::model::{
    is_plain_parse_error, opt_text, spec_parse_family, spec_parse_port_spec, spec_parse_prediction, AddressFamily,
    ConfigError, PortSpec, PredictionMode, ResolveOverrides,
};
use crate::text::{chars_equal_str, chars_of, parse_unsigned, parse_unsigned_chars, push_char, push_str};

verus! {

// ---------------------------------------------------------------------------
// What the command line says
// ---------------------------------------------------------------------------

/// Options that may stand before the command, or after a connect target.
#[derive(Debug, Clone)]
pub struct GlobalOptions {
    pub config: Option<String>,
    pub overrides: ResolveOverrides,
    pub bootstrap_only: bool,
    pub no_color: bool,
}

impl GlobalOptions {
    /// The configuration file: the one given with `--config`, else `default_path`.
    pub fn config_path(&self, default_path: String) -> (p: String)
        ensures
            p@ == match self.config {
                Some(c) => c@,
                None => default_path@,
            },
    {
        match &self.config {
            Some(c) => c.clone(),
            None => default_path,
        }
    }
}

/// `doctor [TARGET] [--console-guard]`.
#[derive(Debug, Clone)]
pub struct DoctorCommand {
    pub target: Option<String>,
    pub console_guard: bool,
}

impl Default for DoctorCommand {
    fn default() -> (r: Self)
        ensures
            r.target is None,
            !r.console_guard,
    {
        DoctorCommand { target: None, console_guard: false }
    }
}

/// `update --check` or `update --download`.
#[derive(Debug, Clone, Copy, PartialEq, Eq, Structural)]
pub enum UpdateMode {
    Check,
    Download,
}

/// `alias add|list|show|remove|rename`.
#[derive(Debug, Clone)]
pub enum AliasCommand {
    Add(AliasAdd),
    List,
    Show(String),
    Remove(String),
    Rename { old: String, new: String },
}

/// `config path|show|validate|edit`.
#[derive(Debug, Clone, Copy, PartialEq, Eq, Structural)]
pub enum ConfigCommand {
    Path,
    Show,
    Validate,
    Edit,
}

/// What the client is asked to do.
#[derive(Debug, Clone)]
pub enum Command {
    Help,
    Version,
    Uninstall,
    Connect(String),
    Alias(AliasCommand),
    Config(ConfigCommand),
    Doctor(DoctorCommand),
    Update(UpdateMode),
}

/// A parsed command line.
#[derive(Debug, Clone)]
pub struct Invocation {
    pub global: GlobalOptions,
    pub command: Command,
}

// ---------------------------------------------------------------------------
// Models
// ---------------------------------------------------------------------------

/// The global options as values.
pub struct GlobalModel {
    pub config: Option<Seq<char>>,
    pub ssh_path: Option<Seq<char>>,
    pub udp_host: Option<Seq<char>>,
    pub udp_port: Option<PortSpec>,
    pub mosh_server: Option<Seq<char>>,
    pub terminal: Option<Seq<char>>,
    pub prediction: Option<PredictionMode>,
    pub family: Option<AddressFamily>,
    pub connect_timeout_secs: Option<u64>,
    pub bootstrap_only: bool,
    pub no_color: bool,
}

pub open spec fn global_view(g: GlobalOptions) -> GlobalModel {
    GlobalModel {
        config: opt_text(g.config),
        ssh_path: opt_text(g.overrides.ssh_path),
        udp_host: opt_text(g.overrides.udp_host),
        udp_port: g.overrides.udp_port,
        mosh_server: opt_text(g.overrides.mosh_server),
        terminal: opt_text(g.overrides.terminal),
        prediction: g.overrides.prediction,
        family: g.overrides.family,
        connect_timeout_secs: g.overrides.connect_timeout_secs,
        bootstrap_only: g.bootstrap_only,
        no_color: g.no_color,
    }
}

/// No options given.
pub open spec fn initial_global() -> GlobalModel {
    GlobalModel {
        config: None,
        ssh_path: None,
        udp_host: None,
        udp_port: None,
        mosh_server: None,
        terminal: None,
        prediction: None,
        family: None,
        connect_timeout_secs: None,
        bootstrap_only: false,
        no_color: false,
    }
}

/// What is wrong with a command line: a usage error with its message, or a value that
/// does not read as a port spec, an address family or a prediction mode.
pub enum CliFault {
    Usage(Seq<char>),
    Port(Seq<char>),
    Family(Seq<char>),
    Prediction(Seq<char>),
}

/// `e` is the error that reports `f`.
pub open spec fn cli_fault_error(e: Error, f: CliFault) -> bool {
    match f {
        CliFault::Usage(m) => is_cli_error(e, m),
        CliFault::Port(v) => e matches Error::Config(ConfigError::InvalidPortSpec { value }) && value@ == v,
        CliFault::Family(v) => e matches Error::Config(c) && is_plain_parse_error(c, "invalid address family: "@ + v),
        CliFault::Prediction(v) => e matches Error::Config(c) && is_plain_parse_error(
            c,
            "invalid prediction mode: "@ + v,
        ),
    }
}

/// The arguments as text.
pub open spec fn args_view(args: Seq<String>) -> Seq<Seq<char>> {
    args.map_values(|s: String| s@)
}

/// Argument `i`, if there is one.
pub open spec fn arg_at(args: Seq<Seq<char>>, i: int) -> Option<Seq<char>> {
    if 0 <= i < args.len() {
        Some(args[i])
    } else {
        None
    }
}

pub open spec fn starts_with_dash(s: Seq<char>) -> bool {
    s.len() > 0 && s[0] == '-'
}

/// The value of an option at `i`: there, and not starting with `-`.
pub open spec fn spec_value(args: Seq<Seq<char>>, i: int, option: Seq<char>) -> Result<Seq<char>, CliFault> {
    match arg_at(args, i) {
        Some(v) => if !starts_with_dash(v) {
            Ok(v)
        } else {
            Err(CliFault::Usage(option + " requires a value"@))
        },
        None => Err(CliFault::Usage(option + " requires a value"@)),
    }
}

/// A required argument at `i`: there, and not empty.
pub open spec fn spec_required(args: Seq<Seq<char>>, i: int, name: Seq<char>) -> Result<Seq<char>, CliFault> {
    match arg_at(args, i) {
        Some(v) => if v.len() > 0 {
            Ok(v)
        } else {
            Err(CliFault::Usage("missing "@ + name))
        },
        None => Err(CliFault::Usage("missing "@ + name)),
    }
}

/// A global option with a text value, stored by `set`.
pub open spec fn text_option(
    args: Seq<Seq<char>>,
    i: int,
    option: Seq<char>,
    set: spec_fn(Seq<char>) -> GlobalModel,
) -> Result<(int, GlobalModel), CliFault> {
    match spec_value(args, i + 1, option) {
        Ok(v) => Ok((i + 2, set(v))),
        Err(f) => Err(f),
    }
}

/// The global option at `i`, if there is one there: the index after it and the options it
/// leaves, or what is wrong with it.
pub open spec fn global_step(args: Seq<Seq<char>>, i: int, g: GlobalModel) -> Option<Result<(int, GlobalModel), CliFault>> {
    match arg_at(args, i) {
        None => None,
        Some(a) => if a == "--config"@ {
            Some(text_option(args, i, a, |v: Seq<char>| GlobalModel { config: Some(v), ..g }))
        } else if a == "--ssh"@ {
            Some(text_option(args, i, a, |v: Seq<char>| GlobalModel { ssh_path: Some(v), ..g }))
        } else if a == "--server"@ {
            Some(text_option(args, i, a, |v: Seq<char>| GlobalModel { mosh_server: Some(v), ..g }))
        } else if a == "--udp-host"@ {
            Some(text_option(args, i, a, |v: Seq<char>| GlobalModel { udp_host: Some(v), ..g }))
        } else if a == "--terminal"@ {
            Some(text_option(args, i, a, |v: Seq<char>| GlobalModel { terminal: Some(v), ..g }))
        } else if a == "--udp-port"@ {
            Some(
                match spec_value(args, i + 1, a) {
                    Ok(v) => match spec_parse_port_spec(v) {
                        Some(p) => Ok((i + 2, GlobalModel { udp_port: Some(p), ..g })),
                        None => Err(CliFault::Port(v)),
                    },
                    Err(f) => Err(f),
                },
            )
        } else if a == "--family"@ {
            Some(
                match spec_value(args, i + 1, a) {
                    Ok(v) => match spec_parse_family(v) {
                        Some(f) => Ok((i + 2, GlobalModel { family: Some(f), ..g })),
                        None => Err(CliFault::Family(v)),
                    },
                    Err(f) => Err(f),
                },
            )
        } else if a == "--prediction"@ {
            Some(
                match spec_value(args, i + 1, a) {
                    Ok(v) => match spec_parse_prediction(v) {
                        Some(p) => Ok((i + 2, GlobalModel { prediction: Some(p), ..g })),
                        None => Err(CliFault::Prediction(v)),
                    },
                    Err(f) => Err(f),
                },
            )
        } else if a == "--connect-timeout"@ {
            Some(
                match spec_value(args, i + 1, a) {
                    Ok(v) => match parse_unsigned(v, 0xffff_ffff_ffff_ffff) {
                        Some(n) => Ok((i + 2, GlobalModel { connect_timeout_secs: Some(n as u64), ..g })),
                        None => Err(CliFault::Usage("--connect-timeout must be an integer number of seconds"@)),
                    },
                    Err(f) => Err(f),
                },
            )
        } else if a == "--bootstrap-only"@ {
            Some(Ok((i + 1, GlobalModel { bootstrap_only: true, ..g })))
        } else if a == "--no-color"@ {
            Some(Ok((i + 1, GlobalModel { no_color: true, ..g })))
        } else {
            None
        },
    }
}

/// Each option with a text value sets its own setting to the value that follows it and leaves
/// every other setting as it was: `--config` the configuration path, `--ssh` the ssh program,
/// `--server` the mosh-server command, `--udp-host` the UDP host, `--terminal` the terminal
/// type; parsing goes on after the value.
pub proof fn lemma_text_options(args: Seq<Seq<char>>, i: int, g: GlobalModel, v: Seq<char>)
    requires
        0 <= i,
        i + 1 < args.len(),
        args[i + 1] == v,
        !starts_with_dash(v),
    ensures
        args[i] == "--config"@ ==> global_step(args, i, g) == Some(
            Ok::<(int, GlobalModel), CliFault>((i + 2, GlobalModel { config: Some(v), ..g })),
        ),
        args[i] == "--ssh"@ ==> global_step(args, i, g) == Some(
            Ok::<(int, GlobalModel), CliFault>((i + 2, GlobalModel { ssh_path: Some(v), ..g })),
        ),
        args[i] == "--server"@ ==> global_step(args, i, g) == Some(
            Ok::<(int, GlobalModel), CliFault>((i + 2, GlobalModel { mosh_server: Some(v), ..g })),
        ),
        args[i] == "--udp-host"@ ==> global_step(args, i, g) == Some(
            Ok::<(int, GlobalModel), CliFault>((i + 2, GlobalModel { udp_host: Some(v), ..g })),
        ),
        args[i] == "--terminal"@ ==> global_step(args, i, g) == Some(
            Ok::<(int, GlobalModel), CliFault>((i + 2, GlobalModel { terminal: Some(v), ..g })),
        ),
{
    reveal_strlit("--config");
    reveal_strlit("--ssh");
    reveal_strlit("--server");
    reveal_strlit("--udp-host");
    reveal_strlit("--terminal");
    assert("--ssh"@ != "--config"@) by {
        assert("--ssh"@.len() != "--config"@.len());
    }
    assert("--server"@ != "--config"@) by {
        assert("--server"@[2] != "--config"@[2]);
    }
    assert("--server"@ != "--ssh"@) by {
        assert("--server"@.len() != "--ssh"@.len());
    }
    assert("--udp-host"@ != "--config"@ && "--udp-host"@ != "--ssh"@ && "--udp-host"@ != "--server"@) by {
        assert("--udp-host"@.len() == 10);
    }
    assert("--terminal"@ != "--config"@ && "--terminal"@ != "--ssh"@ && "--terminal"@ != "--server"@) by {
        assert("--terminal"@.len() == 10);
    }
    assert("--terminal"@ != "--udp-host"@) by {
        assert("--terminal"@[2] != "--udp-host"@[2]);
    }
    assert(arg_at(args, i) == Some(args[i]));
    assert(arg_at(args, i + 1) == Some(v));
}

/// The global options from `i` on: the index of the first argument that is not one, and the
/// options; or the first thing wrong.
pub open spec fn spec_globals(args: Seq<Seq<char>>, i: int, g: GlobalModel) -> Result<(int, GlobalModel), CliFault>
    decreases args.len() - i,
{
    match global_step(args, i, g) {
        None => Ok((i, g)),
        Some(Err(f)) => Err(f),
        Some(Ok((j, g2))) => if i < j <= args.len() {
            spec_globals(args, j, g2)
        } else {
            Ok((i, g))
        },
    }
}

// ---------------------------------------------------------------------------
// Reading arguments
// ---------------------------------------------------------------------------

fn usage(message: String) -> (e: Error)
    ensures
        is_cli_error(e, message@),
{
    Error::Cli(message)
}

fn text_with(prefix: &str, rest: &str) -> (s: String)
    ensures
        s@ == prefix@ + rest@,
{
    let mut s = prefix.to_owned();
    push_str(&mut s, rest);
    s
}

fn arg_equals(args: &[String], i: usize, lit: &str) -> (b: bool)
    requires
        i < args@.len(),
    ensures
        b == (args_view(args@)[i as int] == lit@),
{
    let c = chars_of(args[i].as_str());
    chars_equal_str(c.as_slice(), lit)
}

fn value_at(args: &[String], i: usize, option: &str) -> (r: Result<String, Error>)
    ensures
        match spec_value(args_view(args@), i as int, option@) {
            Ok(v) => r is Ok && r->Ok_0@ == v,
            Err(f) => r is Err && cli_fault_error(r->Err_0, f),
        },
{
    let ghost av = args_view(args@);
    if i < args.len() {
        let c = chars_of(args[i].as_str());
        assert(c@ == av[i as int]);
        if !(c.len() > 0 && c[0] == '-') {
            return Ok(args[i].clone());
        }
    }
    let mut m = option.to_owned();
    push_str(&mut m, " requires a value");
    Err(usage(m))
}

fn required_at(args: &[String], i: usize, name: &str) -> (r: Result<String, Error>)
    ensures
        match spec_required(args_view(args@), i as int, name@) {
            Ok(v) => r is Ok && r->Ok_0@ == v,
            Err(f) => r is Err && cli_fault_error(r->Err_0, f),
        },
{
    let ghost av = args_view(args@);
    if i < args.len() {
        let c = chars_of(args[i].as_str());
        assert(c@ == av[i as int]);
        if c.len() > 0 {
            return Ok(args[i].clone());
        }
    }
    Err(usage(text_with("missing ", name)))
}

// ---------------------------------------------------------------------------
// Global options
// ---------------------------------------------------------------------------

fn parse_global_option(args: &[String], i: usize, g: &mut GlobalOptions) -> (r: Result<Option<usize>, Error>)
    ensures
        match global_step(args_view(args@), i as int, global_view(*old(g))) {
            None => r matches Ok(None) && global_view(*final(g)) == global_view(*old(g)),
            Some(Ok((j, m))) => r matches Ok(Some(k)) && k == j && global_view(*final(g)) == m,
            Some(Err(f)) => r is Err && cli_fault_error(r->Err_0, f),
        },
{
    let ghost av = args_view(args@);
    if i >= args.len() {
        return Ok(None);
    }
    let n = args.len();
    if arg_equals(args, i, "--config") {
        let v = match value_at(args, i + 1, "--config") {
            Ok(v) => v,
            Err(e) => {
                return Err(e);
            },
        };
        g.config = Some(v);
        return Ok(Some(i + 2));
    }
    if arg_equals(args, i, "--ssh") {
        let v = match value_at(args, i + 1, "--ssh") {
            Ok(v) => v,
            Err(e) => {
                return Err(e);
            },
        };
        g.overrides.ssh_path = Some(v);
        return Ok(Some(i + 2));
    }
    if arg_equals(args, i, "--server") {
        let v = match value_at(args, i + 1, "--server") {
            Ok(v) => v,
            Err(e) => {
                return Err(e);
            },
        };
        g.overrides.mosh_server = Some(v);
        return Ok(Some(i + 2));
    }
    if arg_equals(args, i, "--udp-host") {
        let v = match value_at(args, i + 1, "--udp-host") {
            Ok(v) => v,
            Err(e) => {
                return Err(e);
            },
        };
        g.overrides.udp_host = Some(v);
        return Ok(Some(i + 2));
    }
    if arg_equals(args, i, "--terminal") {
        let v = match value_at(args, i + 1, "--terminal") {
            Ok(v) => v,
            Err(e) => {
                return Err(e);
            },
        };
        g.overrides.terminal = Some(v);
        return Ok(Some(i + 2));
    }
    if arg_equals(args, i, "--udp-port") {
        let v = match value_at(args, i + 1, "--udp-port") {
            Ok(v) => v,
            Err(e) => {
                return Err(e);
            },
        };
        match PortSpec::parse(v.as_str()) {
            Ok(p) => {
                g.overrides.udp_port = Some(p);
                return Ok(Some(i + 2));
            },
            Err(e) => {
                return Err(Error::Config(e));
            },
        }
    }
    if arg_equals(args, i, "--family") {
        let v = match value_at(args, i + 1, "--family") {
            Ok(v) => v,
            Err(e) => {
                return Err(e);
            },
        };
        match AddressFamily::parse(v.as_str()) {
            Ok(f) => {
                g.overrides.family = Some(f);
                return Ok(Some(i + 2));
            },
            Err(e) => {
                return Err(Error::Config(e));
            },
        }
    }
    if arg_equals(args, i, "--prediction") {
        let v = match value_at(args, i + 1, "--prediction") {
            Ok(v) => v,
            Err(e) => {
                return Err(e);
            },
        };
        match PredictionMode::parse(v.as_str()) {
            Ok(p) => {
                g.overrides.prediction = Some(p);
                return Ok(Some(i + 2));
            },
            Err(e) => {
                return Err(Error::Config(e));
            },
        }
    }
    if arg_equals(args, i, "--connect-timeout") {
        let v = match value_at(args, i + 1, "--connect-timeout") {
            Ok(v) => v,
            Err(e) => {
                return Err(e);
            },
        };
        let c = chars_of(v.as_str());
        match parse_unsigned_chars(c.as_slice(), 0xffff_ffff_ffff_ffff) {
            Some(secs) => {
                g.overrides.connect_timeout_secs = Some(secs);
                return Ok(Some(i + 2));
            },
            None => {
                return Err(usage("--connect-timeout must be an integer number of seconds".to_owned()));
            },
        }
    }
    if arg_equals(args, i, "--bootstrap-only") {
        g.bootstrap_only = true;
        return Ok(Some(i + 1));
    }
    if arg_equals(args, i, "--no-color") {
        g.no_color = true;
        return Ok(Some(i + 1));
    }
    Ok(None)
}

fn parse_global_options(args: &[String], start: usize, g: &mut GlobalOptions) -> (r: Result<usize, Error>)
    ensures
        match spec_globals(args_view(args@), start as int, global_view(*old(g))) {
            Ok((j, m)) => r is Ok && r->Ok_0 == j && global_view(*final(g)) == m,
            Err(f) => r is Err && cli_fault_error(r->Err_0, f),
        },
{
    let ghost av = args_view(args@);
    let ghost g0 = global_view(*g);
    let mut i = start;
    loop
        invariant
            av == args_view(args@),
            g0 == global_view(*old(g)),
            spec_globals(av, start as int, g0) == spec_globals(av, i as int, global_view(*g)),
        decreases args@.len() - i,
    {
        let ghost before = global_view(*g);
        let step = parse_global_option(args, i, g);
        proof {
            assert(spec_globals(av, i as int, before) == match global_step(av, i as int, before) {
                None => Ok((i as int, before)),
                Some(Err(f)) => Err(f),
                Some(Ok((j, g2))) => if i < j <= av.len() {
                    spec_globals(av, j, g2)
                } else {
                    Ok((i as int, before))
                },
            });
        }
        match step {
            Ok(None) => {
                return Ok(i);
            },
            Ok(Some(j)) => {
                assert(i < j <= args@.len());
                i = j;
            },
            Err(e) => {
                return Err(e);
            },
        }
    }
}

// ---------------------------------------------------------------------------
// Subcommands
// ---------------------------------------------------------------------------

/// `alias add` as values.
pub struct AliasAddModel {
    pub name: Seq<char>,
    pub ssh_target: Seq<char>,
    pub udp_host: Option<Seq<char>>,
    pub udp_port: Option<PortSpec>,
    pub mosh_server: Option<Seq<char>>,
    pub terminal: Option<Seq<char>>,
    pub prediction: Option<PredictionMode>,
}

pub enum AliasModel {
    Add(AliasAddModel),
    List,
    Show(Seq<char>),
    Remove(Seq<char>),
    Rename(Seq<char>, Seq<char>),
}

pub enum CommandModel {
    Help,
    Version,
    Uninstall,
    Connect(Seq<char>),
    Alias(AliasModel),
    Config(ConfigCommand),
    Doctor(Option<Seq<char>>, bool),
    Update(UpdateMode),
}

pub open spec fn add_view(a: AliasAdd) -> AliasAddModel {
    AliasAddModel {
        name: a.name@,
        ssh_target: a.ssh_target@,
        udp_host: opt_text(a.udp_host),
        udp_port: a.udp_port,
        mosh_server: opt_text(a.mosh_server),
        terminal: opt_text(a.terminal),
        prediction: a.prediction,
    }
}

pub open spec fn alias_view(c: AliasCommand) -> AliasModel {
    match c {
        AliasCommand::Add(a) => AliasModel::Add(add_view(a)),
        AliasCommand::List => AliasModel::List,
        AliasCommand::Show(n) => AliasModel::Show(n@),
        AliasCommand::Remove(n) => AliasModel::Remove(n@),
        AliasCommand::Rename { old, new } => AliasModel::Rename(old@, new@),
    }
}

pub open spec fn command_view(c: Command) -> CommandModel {
    match c {
        Command::Help => CommandModel::Help,
        Command::Version => CommandModel::Version,
        Command::Uninstall => CommandModel::Uninstall,
        Command::Connect(t) => CommandModel::Connect(t@),
        Command::Alias(a) => CommandModel::Alias(alias_view(a)),
        Command::Config(c) => CommandModel::Config(c),
        Command::Doctor(d) => CommandModel::Doctor(opt_text(d.target), d.console_guard),
        Command::Update(m) => CommandModel::Update(m),
    }
}

/// The options of `alias add` from `i` on, up to the end of the arguments.
pub open spec fn spec_alias_options(args: Seq<Seq<char>>, i: int, a: AliasAddModel) -> Result<AliasAddModel, CliFault>
    decreases args.len() - i,
{
    match arg_at(args, i) {
        None => Ok(a),
        Some(x) => {
            let v = spec_value(args, i + 1, x);
            let next = if v is Err {
                Err(v->Err_0)
            } else if x == "--udp-host"@ {
                Ok(AliasAddModel { udp_host: Some(v->Ok_0), ..a })
            } else if x == "--server"@ {
                Ok(AliasAddModel { mosh_server: Some(v->Ok_0), ..a })
            } else if x == "--terminal"@ {
                Ok(AliasAddModel { terminal: Some(v->Ok_0), ..a })
            } else if x == "--udp-port"@ {
                match spec_parse_port_spec(v->Ok_0) {
                    Some(p) => Ok(AliasAddModel { udp_port: Some(p), ..a }),
                    None => Err(CliFault::Port(v->Ok_0)),
                }
            } else if x == "--prediction"@ {
                match spec_parse_prediction(v->Ok_0) {
                    Some(p) => Ok(AliasAddModel { prediction: Some(p), ..a }),
                    None => Err(CliFault::Prediction(v->Ok_0)),
                }
            } else {
                Err(CliFault::Usage("unknown alias add option: "@ + x))
            };
            let known = x == "--udp-host"@ || x == "--server"@ || x == "--terminal"@ || x == "--udp-port"@
                || x == "--prediction"@;
            if !known {
                Err(CliFault::Usage("unknown alias add option: "@ + x))
            } else {
                match next {
                    Err(f) => Err(f),
                    Ok(a2) => if i + 2 <= args.len() {
                        spec_alias_options(args, i + 2, a2)
                    } else {
                        Ok(a2)
                    },
                }
            }
        },
    }
}

fn parse_alias_options(args: &[String], start: usize, a: &mut AliasAdd) -> (r: Result<(), Error>)
    ensures
        match spec_alias_options(args_view(args@), start as int, add_view(*old(a))) {
            Ok(m) => r is Ok && add_view(*final(a)) == m,
            Err(f) => r is Err && cli_fault_error(r->Err_0, f),
        },
{
    let ghost av = args_view(args@);
    let ghost a0 = add_view(*a);
    let mut i = start;
    while i < args.len()
        invariant
            av == args_view(args@),
            a0 == add_view(*old(a)),
            spec_alias_options(av, start as int, a0) == spec_alias_options(av, i as int, add_view(*a)),
        decreases args@.len() - i,
    {
        let ghost before = add_view(*a);
        let x = args[i].clone();
        assert(x@ == av[i as int]);
        let known = arg_equals(args, i, "--udp-host") || arg_equals(args, i, "--server") || arg_equals(
            args,
            i,
            "--terminal",
        ) || arg_equals(args, i, "--udp-port") || arg_equals(args, i, "--prediction");
        if !known {
            return Err(usage(text_with("unknown alias add option: ", x.as_str())));
        }
        let v = match value_at(args, i + 1, x.as_str()) {
            Ok(v) => v,
            Err(e) => {
                return Err(e);
            },
        };
        if arg_equals(args, i, "--udp-host") {
            a.udp_host = Some(v);
        } else if arg_equals(args, i, "--server") {
            a.mosh_server = Some(v);
        } else if arg_equals(args, i, "--terminal") {
            a.terminal = Some(v);
        } else if arg_equals(args, i, "--udp-port") {
            match PortSpec::parse(v.as_str()) {
                Ok(p) => a.udp_port = Some(p),
                Err(e) => {
                    return Err(Error::Config(e));
                },
            }
        } else {
            match PredictionMode::parse(v.as_str()) {
                Ok(p) => a.prediction = Some(p),
                Err(e) => {
                    return Err(Error::Config(e));
                },
            }
        }
        i = i + 2;
    }
    assert(spec_alias_options(av, i as int, add_view(*a)) == Ok::<AliasAddModel, CliFault>(add_view(*a)));
    Ok(())
}

/// `alias <COMMAND>` from `i` on: the index after it and the command, or what is wrong.
pub open spec fn spec_alias_command(args: Seq<Seq<char>>, i: int) -> Result<(int, AliasModel), CliFault> {
    match arg_at(args, i) {
        None => Err(CliFault::Usage("missing alias command"@)),
        Some(x) => if x == "add"@ {
            match spec_required(args, i + 1, "alias name"@) {
                Err(f) => Err(f),
                Ok(name) => match spec_required(args, i + 2, "ssh target"@) {
                    Err(f) => Err(f),
                    Ok(target) => match spec_alias_options(
                        args,
                        i + 3,
                        AliasAddModel {
                            name,
                            ssh_target: target,
                            udp_host: None,
                            udp_port: None,
                            mosh_server: None,
                            terminal: None,
                            prediction: None,
                        },
                    ) {
                        Ok(a) => Ok((args.len() as int, AliasModel::Add(a))),
                        Err(f) => Err(f),
                    },
                },
            }
        } else if x == "list"@ {
            Ok((i + 1, AliasModel::List))
        } else if x == "show"@ {
            match spec_required(args, i + 1, "alias name"@) {
                Ok(n) => Ok((i + 2, AliasModel::Show(n))),
                Err(f) => Err(f),
            }
        } else if x == "remove"@ {
            match spec_required(args, i + 1, "alias name"@) {
                Ok(n) => Ok((i + 2, AliasModel::Remove(n))),
                Err(f) => Err(f),
            }
        } else if x == "rename"@ {
            match spec_required(args, i + 1, "old alias name"@) {
                Err(f) => Err(f),
                Ok(old) => match spec_required(args, i + 2, "new alias name"@) {
                    Ok(new) => Ok((i + 3, AliasModel::Rename(old, new))),
                    Err(f) => Err(f),
                },
            }
        } else {
            Err(CliFault::Usage("unknown alias command: "@ + x))
        },
    }
}

fn parse_alias_command(args: &[String], i: usize) -> (r: Result<(usize, AliasCommand), Error>)
    ensures
        match spec_alias_command(args_view(args@), i as int) {
            Ok((j, m)) => r is Ok && r->Ok_0.0 == j && alias_view(r->Ok_0.1) == m,
            Err(f) => r is Err && cli_fault_error(r->Err_0, f),
        },
{
    let ghost av = args_view(args@);
    if i >= args.len() {
        return Err(usage("missing alias command".to_owned()));
    }
    if arg_equals(args, i, "add") {
        let name = match required_at(args, i + 1, "alias name") {
            Ok(n) => n,
            Err(e) => {
                return Err(e);
            },
        };
        let ssh_target = match required_at(args, i + 2, "ssh target") {
            Ok(t) => t,
            Err(e) => {
                return Err(e);
            },
        };
        let mut request = AliasAdd {
            name,
            ssh_target,
            udp_host: None,
            udp_port: None,
            mosh_server: None,
            terminal: None,
            prediction: None,
        };
        match parse_alias_options(args, i + 3, &mut request) {
            Ok(()) => {},
            Err(e) => {
                return Err(e);
            },
        }
        return Ok((args.len(), AliasCommand::Add(request)));
    }
    if arg_equals(args, i, "list") {
        return Ok((i + 1, AliasCommand::List));
    }
    if arg_equals(args, i, "show") {
        return match required_at(args, i + 1, "alias name") {
            Ok(n) => Ok((i + 2, AliasCommand::Show(n))),
            Err(e) => Err(e),
        };
    }
    if arg_equals(args, i, "remove") {
        return match required_at(args, i + 1, "alias name") {
            Ok(n) => Ok((i + 2, AliasCommand::Remove(n))),
            Err(e) => Err(e),
        };
    }
    if arg_equals(args, i, "rename") {
        let old = match required_at(args, i + 1, "old alias name") {
            Ok(n) => n,
            Err(e) => {
                return Err(e);
            },
        };
        return match required_at(args, i + 2, "new alias name") {
            Ok(new) => Ok((i + 3, AliasCommand::Rename { old, new })),
            Err(e) => Err(e),
        };
    }
    Err(usage(text_with("unknown alias command: ", args[i].as_str())))
}

/// `config <COMMAND>` at `i`.
pub open spec fn spec_config_command(args: Seq<Seq<char>>, i: int) -> Result<(int, ConfigCommand), CliFault> {
    match arg_at(args, i) {
        None => Err(CliFault::Usage("missing config command"@)),
        Some(x) => if x == "path"@ {
            Ok((i + 1, ConfigCommand::Path))
        } else if x == "show"@ {
            Ok((i + 1, ConfigCommand::Show))
        } else if x == "validate"@ {
            Ok((i + 1, ConfigCommand::Validate))
        } else if x == "edit"@ {
            Ok((i + 1, ConfigCommand::Edit))
        } else {
            Err(CliFault::Usage("unknown config command: "@ + x))
        },
    }
}

fn parse_config_command(args: &[String], i: usize) -> (r: Result<(usize, ConfigCommand), Error>)
    ensures
        match spec_config_command(args_view(args@), i as int) {
            Ok((j, c)) => r is Ok && r->Ok_0.0 == j && r->Ok_0.1 == c,
            Err(f) => r is Err && cli_fault_error(r->Err_0, f),
        },
{
    if i >= args.len() {
        return Err(usage("missing config command".to_owned()));
    }
    if arg_equals(args, i, "path") {
        Ok((i + 1, ConfigCommand::Path))
    } else if arg_equals(args, i, "show") {
        Ok((i + 1, ConfigCommand::Show))
    } else if arg_equals(args, i, "validate") {
        Ok((i + 1, ConfigCommand::Validate))
    } else if arg_equals(args, i, "edit") {
        Ok((i + 1, ConfigCommand::Edit))
    } else {
        Err(usage(text_with("unknown config command: ", args[i].as_str())))
    }
}

/// The `doctor` arguments from `i` on: `--console-guard`, and at most one target.
pub open spec fn spec_doctor_command(args: Seq<Seq<char>>, i: int, target: Option<Seq<char>>, guard: bool) -> Result<
    (Option<Seq<char>>, bool),
    CliFault,
>
    decreases args.len() - i,
{
    match arg_at(args, i) {
        None => Ok((target, guard)),
        Some(x) => if x == "--console-guard"@ {
            spec_doctor_command(args, i + 1, target, true)
        } else if starts_with_dash(x) {
            Err(CliFault::Usage("unknown doctor option: "@ + x))
        } else if target is None {
            spec_doctor_command(args, i + 1, Some(x), guard)
        } else {
            Err(CliFault::Usage("unexpected doctor argument: "@ + x))
        },
    }
}

fn parse_doctor_command(args: &[String], start: usize) -> (r: Result<DoctorCommand, Error>)
    ensures
        match spec_doctor_command(args_view(args@), start as int, None, false) {
            Ok((t, g)) => r is Ok && opt_text(r->Ok_0.target) == t && r->Ok_0.console_guard == g,
            Err(f) => r is Err && cli_fault_error(r->Err_0, f),
        },
{
    let ghost av = args_view(args@);
    let mut command = DoctorCommand::default();
    let mut i = start;
    while i < args.len()
        invariant
            av == args_view(args@),
            spec_doctor_command(av, start as int, None, false) == spec_doctor_command(
                av,
                i as int,
                opt_text(command.target),
                command.console_guard,
            ),
        decreases args@.len() - i,
    {
        let c = chars_of(args[i].as_str());
        assert(c@ == av[i as int]);
        if arg_equals(args, i, "--console-guard") {
            command.console_guard = true;
        } else if c.len() > 0 && c[0] == '-' {
            return Err(usage(text_with("unknown doctor option: ", args[i].as_str())));
        } else if command.target.is_none() {
            command.target = Some(args[i].clone());
        } else {
            return Err(usage(text_with("unexpected doctor argument: ", args[i].as_str())));
        }
        i = i + 1;
    }
    Ok(command)
}

/// The `update` arguments from `i` on; the last of `--check` and `--download` wins.
pub open spec fn spec_update_command(args: Seq<Seq<char>>, i: int, mode: UpdateMode) -> Result<UpdateMode, CliFault>
    decreases args.len() - i,
{
    match arg_at(args, i) {
        None => Ok(mode),
        Some(x) => if x == "--check"@ {
            spec_update_command(args, i + 1, UpdateMode::Check)
        } else if x == "--download"@ {
            spec_update_command(args, i + 1, UpdateMode::Download)
        } else {
            Err(CliFault::Usage("unknown update option: "@ + x))
        },
    }
}

fn parse_update_command(args: &[String], start: usize) -> (r: Result<UpdateMode, Error>)
    ensures
        match spec_update_command(args_view(args@), start as int, UpdateMode::Check) {
            Ok(m) => r is Ok && r->Ok_0 == m,
            Err(f) => r is Err && cli_fault_error(r->Err_0, f),
        },
{
    let ghost av = args_view(args@);
    let mut mode = UpdateMode::Check;
    let mut i = start;
    while i < args.len()
        invariant
            av == args_view(args@),
            spec_update_command(av, start as int, UpdateMode::Check) == spec_update_command(av, i as int, mode),
        decreases args@.len() - i,
    {
        if arg_equals(args, i, "--check") {
            mode = UpdateMode::Check;
        } else if arg_equals(args, i, "--download") {
            mode = UpdateMode::Download;
        } else {
            return Err(usage(text_with("unknown update option: ", args[i].as_str())));
        }
        i = i + 1;
    }
    Ok(mode)
}

// ---------------------------------------------------------------------------
// The whole command line
// ---------------------------------------------------------------------------

/// A command line as values.
pub struct InvocationModel {
    pub global: GlobalModel,
    pub command: CommandModel,
}

/// The command at `i`, after global options `g`: the index after it, the options (a connect
/// target may be followed by more), and the command; or what is wrong.
pub open spec fn spec_command(args: Seq<Seq<char>>, i: int, g: GlobalModel) -> Result<(int, GlobalModel, CommandModel), CliFault> {
    match arg_at(args, i) {
        None => Ok((i, g, CommandModel::Help)),
        Some(a) => if a == "version"@ {
            Ok((i + 1, g, CommandModel::Version))
        } else if a == "alias"@ {
            match spec_alias_command(args, i + 1) {
                Ok((j, c)) => Ok((j, g, CommandModel::Alias(c))),
                Err(f) => Err(f),
            }
        } else if a == "config"@ {
            match spec_config_command(args, i + 1) {
                Ok((j, c)) => Ok((j, g, CommandModel::Config(c))),
                Err(f) => Err(f),
            }
        } else if a == "doctor"@ {
            match spec_doctor_command(args, i + 1, None, false) {
                Ok((t, guard)) => Ok((args.len() as int, g, CommandModel::Doctor(t, guard))),
                Err(f) => Err(f),
            }
        } else if a == "update"@ {
            match spec_update_command(args, i + 1, UpdateMode::Check) {
                Ok(m) => Ok((args.len() as int, g, CommandModel::Update(m))),
                Err(f) => Err(f),
            }
        } else if a == "--uninstall"@ || a == "-uninstall"@ {
            Ok((i + 1, g, CommandModel::Uninstall))
        } else if starts_with_dash(a) {
            Err(CliFault::Usage("unknown option: "@ + a))
        } else {
            match spec_globals(args, i + 1, g) {
                Ok((j, g2)) => Ok((j, g2, CommandModel::Connect(a))),
                Err(f) => Err(f),
            }
        },
    }
}

/// What a command line (whose first argument is the program) asks for: global options, then
/// `-h`/`--help` or `-V`/`--version` (after which nothing is checked), or a command that
/// must use up all the arguments.
pub open spec fn spec_parse_args(args: Seq<Seq<char>>) -> Result<InvocationModel, CliFault> {
    match spec_globals(args, 1, initial_global()) {
        Err(f) => Err(f),
        Ok((i, g)) => {
            let a = arg_at(args, i);
            if a == Some("-h"@) || a == Some("--help"@) {
                Ok(InvocationModel { global: g, command: CommandModel::Help })
            } else if a == Some("-V"@) || a == Some("--version"@) {
                Ok(InvocationModel { global: g, command: CommandModel::Version })
            } else {
                match spec_command(args, i, g) {
                    Err(f) => Err(f),
                    Ok((j, g2, c)) => if j < args.len() {
                        Err(CliFault::Usage("unexpected argument: "@ + join_words(args.skip(j))))
                    } else {
                        Ok(InvocationModel { global: g2, command: c })
                    },
                }
            }
        },
    }
}

fn join_rest(args: &[String], j: usize) -> (s: String)
    requires
        j < args@.len(),
    ensures
        s@ == join_words(args_view(args@).skip(j as int)),
{
    let ghost av = args_view(args@);
    let mut s = args[j].clone();
    let mut k = j + 1;
    assert(av.subrange(j as int, k as int) =~= seq![av[j as int]]);
    while k < args.len()
        invariant
            av == args_view(args@),
            j < k <= args@.len(),
            s@ == join_words(av.subrange(j as int, k as int)),
        decreases args@.len() - k,
    {
        push_char(&mut s, ' ');
        push_str(&mut s, args[k].as_str());
        assert(av.subrange(j as int, k + 1).drop_last() =~= av.subrange(j as int, k as int));
        k = k + 1;
        assert(s@ =~= join_words(av.subrange(j as int, k as int)));
    }
    assert(av.subrange(j as int, k as int) =~= av.skip(j as int));
    s
}

fn parse_command(args: &[String], i: usize, g: &mut GlobalOptions) -> (r: Result<(usize, Command), Error>)
    ensures
        match spec_command(args_view(args@), i as int, global_view(*old(g))) {
            Ok((j, g2, c)) => r is Ok && r->Ok_0.0 == j && global_view(*final(g)) == g2 && command_view(r->Ok_0.1)
                == c,
            Err(f) => r is Err && cli_fault_error(r->Err_0, f),
        },
{
    let ghost av = args_view(args@);
    if i >= args.len() {
        return Ok((i, Command::Help));
    }
    if arg_equals(args, i, "version") {
        return Ok((i + 1, Command::Version));
    }
    if arg_equals(args, i, "alias") {
        return match parse_alias_command(args, i + 1) {
            Ok((j, c)) => Ok((j, Command::Alias(c))),
            Err(e) => Err(e),
        };
    }
    if arg_equals(args, i, "config") {
        return match parse_config_command(args, i + 1) {
            Ok((j, c)) => Ok((j, Command::Config(c))),
            Err(e) => Err(e),
        };
    }
    if arg_equals(args, i, "doctor") {
        return match parse_doctor_command(args, i + 1) {
            Ok(d) => Ok((args.len(), Command::Doctor(d))),
            Err(e) => Err(e),
        };
    }
    if arg_equals(args, i, "update") {
        return match parse_update_command(args, i + 1) {
            Ok(m) => Ok((args.len(), Command::Update(m))),
            Err(e) => Err(e),
        };
    }
    if arg_equals(args, i, "--uninstall") || arg_equals(args, i, "-uninstall") {
        return Ok((i + 1, Command::Uninstall));
    }
    let c = chars_of(args[i].as_str());
    assert(c@ == av[i as int]);
    if c.len() > 0 && c[0] == '-' {
        return Err(usage(text_with("unknown option: ", args[i].as_str())));
    }
    let target = args[i].clone();
    match parse_global_options(args, i + 1, g) {
        Ok(j) => Ok((j, Command::Connect(target))),
        Err(e) => Err(e),
    }
}

impl Invocation {
    /// Reads a command line; the first argument is the program and is not read.
    pub fn parse(args: &[String]) -> (r: Result<Invocation, Error>)
        ensures
            match spec_parse_args(args_view(args@)) {
                Ok(m) => r is Ok && global_view(r->Ok_0.global) == m.global && command_view(r->Ok_0.command)
                    == m.command,
                Err(f) => r is Err && cli_fault_error(r->Err_0, f),
            },
    {
        let ghost av = args_view(args@);
        let mut global = GlobalOptions {
            config: None,
            overrides: ResolveOverrides::default(),
            bootstrap_only: false,
            no_color: false,
        };
        assert(global_view(global) == initial_global());
        let i = match parse_global_options(args, 1, &mut global) {
            Ok(i) => i,
            Err(e) => {
                return Err(e);
            },
        };
        if i < args.len() {
            if arg_equals(args, i, "-h") || arg_equals(args, i, "--help") {
                return Ok(Invocation { global, command: Command::Help });
            }
            if arg_equals(args, i, "-V") || arg_equals(args, i, "--version") {
                return Ok(Invocation { global, command: Command::Version });
            }
        }
        let (j, command) = match parse_command(args, i, &mut global) {
            Ok(p) => p,
            Err(e) => {
                return Err(e);
            },
        };
        if j < args.len() {
            return Err(usage(text_with("unexpected argument: ", join_rest(args, j).as_str())));
        }
        Ok(Invocation { global, command })
    }
}

} // verus!
