//! Choosing the settings for a connection: command line over host over defaults over ssh's
//! own configuration over built-in values.

use vstd::prelude::*;

use crate::config::hosts::lookup;
use crate::config::model::{
    default_udp_port, default_udp_port_spec, family_text, opt_text, prediction_text, AddressFamily,
    AppConfig, ConfigError, EffectiveSshConfig, HostConfig, HostConfigModel, PortSpec, PredictionMode,
    ResolveOverrides, ResolvedTarget, SocketCandidate, DEFAULT_MOSH_SERVER, DEFAULT_TERMINAL,
};
use crate::text::{chars_of, string_of, trim, trim_chars};

verus! {

/// The first setting present, in order of precedence.
pub open spec fn first_of<T>(a: Option<T>, b: Option<T>, c: Option<T>) -> Option<T> {
    match a {
        Some(x) => Some(x),
        None => match b {
            Some(x) => Some(x),
            None => c,
        },
    }
}

pub open spec fn host_field<T>(host: Option<HostConfigModel>, f: spec_fn(HostConfigModel) -> Option<T>) -> Option<T> {
    match host {
        Some(h) => f(h),
        None => None,
    }
}

pub open spec fn opt_host_view(host: Option<&HostConfig>) -> Option<HostConfigModel> {
    match host {
        Some(h) => Some(h@),
        None => None,
    }
}

/// The UDP port: command line, then host, then defaults, then the built-in range.
pub open spec fn spec_pick_port(cli: Option<PortSpec>, host: Option<PortSpec>, defaults: Option<PortSpec>) -> PortSpec {
    match first_of(cli, host, defaults) {
        Some(p) => p,
        None => default_udp_port(),
    }
}

/// The port of the command line wins; the host's counts only when the command line gives none;
/// the defaults' only when neither does; the built-in range 60000:61000 only when none does.
pub proof fn lemma_port_precedence(cli: Option<PortSpec>, host: Option<PortSpec>, defaults: Option<PortSpec>)
    ensures
        cli matches Some(p) ==> spec_pick_port(cli, host, defaults) == p,
        cli is None ==> (host matches Some(p) ==> spec_pick_port(cli, host, defaults) == p),
        cli is None && host is None ==> (defaults matches Some(p) ==> spec_pick_port(cli, host, defaults) == p),
        cli is None && host is None && defaults is None ==> spec_pick_port(cli, host, defaults) == (PortSpec::Range {
            start: 60000,
            end: 61000,
        }),
{
}

fn pick_port(cli: Option<PortSpec>, host: Option<PortSpec>, defaults: Option<PortSpec>) -> (p: PortSpec)
    ensures
        p == spec_pick_port(cli, host, defaults),
        cli matches Some(c) ==> p == c,
        cli is None ==> (host matches Some(h) ==> p == h),
{
    match cli {
        Some(p) => p,
        None => match host {
            Some(p) => p,
            None => match defaults {
                Some(p) => p,
                None => default_udp_port_spec(),
            },
        },
    }
}

fn first_text(a: &Option<String>, b: Option<&Option<String>>, c: &Option<String>, fallback: &str) -> (s: String)
    ensures
        s@ == match first_of(
            opt_text(*a),
            match b {
                Some(o) => opt_text(*o),
                None => None,
            },
            opt_text(*c),
        ) {
            Some(t) => t,
            None => fallback@,
        },
{
    match a {
        Some(s) => return s.clone(),
        None => {},
    }
    match b {
        Some(Some(s)) => return s.clone(),
        _ => {},
    }
    match c {
        Some(s) => s.clone(),
        None => fallback.to_owned(),
    }
}

/// The target a connection goes to, with the settings chosen by precedence: the command line
/// over the host alias over the defaults over ssh's configuration (for the UDP host) over the
/// built-in values.
pub fn resolve_target_with_effective_ssh(
    config: &AppConfig,
    display_name: &str,
    host: Option<&HostConfig>,
    ssh_target: String,
    effective_ssh: EffectiveSshConfig,
    overrides: &ResolveOverrides,
) -> (r: ResolvedTarget)
    ensures
        r.display_name@ == display_name@,
        opt_text(r.alias_name) == match host {
            Some(_) => Some(display_name@),
            None => None,
        },
        r.ssh_target@ == ssh_target@,
        r.effective_ssh.hostname@ == effective_ssh.hostname@,
        r.effective_ssh.user@ == effective_ssh.user@,
        r.effective_ssh.port == effective_ssh.port,
        r.effective_ssh.address_family == match overrides.family {
            Some(f) => f,
            None => effective_ssh.address_family,
        },
        r.udp_port == spec_pick_port(
            overrides.udp_port,
            match host {
                Some(h) => h.udp_port,
                None => None,
            },
            config.defaults.udp_port,
        ),
        overrides.udp_port matches Some(p) ==> r.udp_port == p,
        r.udp_candidates@.len() == 1,
        r.udp_candidates@[0].port == r.udp_port,
        r.udp_candidates@[0].host@ == match first_of(
            opt_text(overrides.udp_host),
            match host {
                Some(h) => opt_text(h.udp_host),
                None => None,
            },
            None,
        ) {
            Some(t) => t,
            None => effective_ssh.hostname@,
        },
        r.mosh_server@ == match first_of(
            opt_text(overrides.mosh_server),
            match host {
                Some(h) => opt_text(h.mosh_server),
                None => None,
            },
            opt_text(config.defaults.mosh_server),
        ) {
            Some(t) => t,
            None => "mosh-server"@,
        },
        r.terminal@ == match first_of(
            opt_text(overrides.terminal),
            match host {
                Some(h) => opt_text(h.terminal),
                None => None,
            },
            opt_text(config.defaults.terminal),
        ) {
            Some(t) => t,
            None => "xterm-256color"@,
        },
        r.prediction == match first_of(
            overrides.prediction,
            match host {
                Some(h) => h.prediction,
                None => None,
            },
            config.defaults.prediction,
        ) {
            Some(p) => p,
            None => PredictionMode::Off,
        },
{
    let mut effective_ssh = effective_ssh;
    if let Some(family) = overrides.family {
        effective_ssh.address_family = family;
    }
    let udp_port = pick_port(
        overrides.udp_port,
        match host {
            Some(h) => h.udp_port,
            None => None,
        },
        config.defaults.udp_port,
    );
    let udp_host = match &overrides.udp_host {
        Some(h) => h.clone(),
        None => match host {
            Some(HostConfig { udp_host: Some(h), .. }) => h.clone(),
            _ => effective_ssh.hostname.clone(),
        },
    };
    let mosh_server = first_text(
        &overrides.mosh_server,
        match host {
            Some(h) => Some(&h.mosh_server),
            None => None,
        },
        &config.defaults.mosh_server,
        DEFAULT_MOSH_SERVER,
    );
    let terminal = first_text(
        &overrides.terminal,
        match host {
            Some(h) => Some(&h.terminal),
            None => None,
        },
        &config.defaults.terminal,
        DEFAULT_TERMINAL,
    );
    let prediction = match overrides.prediction {
        Some(p) => p,
        None => match host {
            Some(HostConfig { prediction: Some(p), .. }) => *p,
            _ => match config.defaults.prediction {
                Some(p) => p,
                None => PredictionMode::Off,
            },
        },
    };
    let alias_name = match host {
        Some(_) => Some(display_name.to_owned()),
        None => None,
    };
    let mut udp_candidates: Vec<SocketCandidate> = Vec::new();
    udp_candidates.push(SocketCandidate { host: udp_host, port: udp_port });
    ResolvedTarget {
        display_name: display_name.to_owned(),
        alias_name,
        ssh_target,
        effective_ssh,
        udp_candidates,
        mosh_server,
        udp_port,
        terminal,
        prediction,
    }
}

/// What the connection target `input` names: its trimmed text, the alias it is (if any), and
/// the ssh target (the alias's, or the text itself).
pub fn target_lookup(config: &AppConfig, input: &str) -> (r: Result<(String, Option<HostConfig>, String), ConfigError>)
    ensures
        trim(input@).len() == 0 ==> crate::config::model::is_plain_parse_error(r->Err_0, "target cannot be empty"@)
            && r is Err,
        trim(input@).len() > 0 ==> r is Ok && ({
            let (name, host, target) = r->Ok_0;
            &&& name@ == trim(input@)
            &&& match lookup(config.hosts@, trim(input@)) {
                Some(h) => host is Some && host->Some_0@ == h && target@ == h.ssh_target,
                None => host is None && target@ == trim(input@),
            }
        }),
{
    let chars = chars_of(input);
    let trimmed = trim_chars(chars.as_slice());
    if trimmed.len() == 0 {
        return Err(ConfigError::Parse { path: None, line: None, message: "target cannot be empty".to_owned() });
    }
    let name = string_of(trimmed.as_slice());
    match config.hosts.get(name.as_str()) {
        Some(h) => {
            let host = h.duplicate();
            let target = h.ssh_target.clone();
            Ok((name, Some(host), target))
        },
        None => {
            let target = name.clone();
            Ok((name, None, target))
        },
    }
}

pub fn display_address_family(family: AddressFamily) -> (s: &'static str)
    ensures
        s@ == family_text(family),
{
    family.as_str()
}

pub fn display_prediction(prediction: PredictionMode) -> (s: &'static str)
    ensures
        s@ == prediction_text(prediction),
{
    prediction.as_str()
}

} // verus!
