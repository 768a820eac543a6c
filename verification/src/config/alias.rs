//! Adding, listing, renaming and removing host aliases.

use vstd::prelude::*;

use crate::config::hosts::{entries_view, lookup, spec_insert, spec_remove};
use crate::config::model::{
    opt_text, AppConfig, ConfigError, HostConfig, HostConfigModel, PortSpec, PredictionMode,
};
use crate::text::{chars_of, find_char_index, push_char, string_of, trim, trim_chars};

verus! {

/// A request to add an alias.
#[derive(Debug, Clone, PartialEq, Eq)]
pub struct AliasAdd {
    pub name: String,
    pub ssh_target: String,
    pub udp_host: Option<String>,
    pub udp_port: Option<PortSpec>,
    pub mosh_server: Option<String>,
    pub terminal: Option<String>,
    pub prediction: Option<PredictionMode>,
}

/// A character allowed in alias names: an ASCII letter or digit, `.`, `_` or `-`.
pub open spec fn alias_char(c: char) -> bool {
    ('a' <= c && c <= 'z') || ('A' <= c && c <= 'Z') || ('0' <= c && c <= '9') || c == '.' || c == '_' || c == '-'
}

pub open spec fn valid_alias_name(name: Seq<char>) -> bool {
    name.len() > 0 && forall|i: int| 0 <= i < name.len() ==> #[trigger] alias_char(name[i])
}

/// A usable ssh target: something besides whitespace, not starting with `-` (which ssh would
/// take for an option).
pub open spec fn valid_ssh_target(target: Seq<char>) -> bool {
    let t = trim(target);
    t.len() > 0 && t[0] != '-'
}

/// A mosh-server path, trimmed; a Windows drive path (`C:...`) becomes the POSIX path after
/// the drive, with backslashes turned into slashes.
pub open spec fn spec_sanitize_server_path(path: Seq<char>) -> Seq<char> {
    let t = trim(path);
    if t.len() >= 2 && (t[0] as u32) < 128 && t[1] == ':' {
        let colon = crate::text::find_char(t, ':')->Some_0;
        let relative = t.skip(colon + 1);
        if relative.len() > 0 && relative[0] == '/' {
            relative
        } else {
            seq!['/'] + relative.map_values(|c: char| if c == '\\' { '/' } else { c })
        }
    } else {
        t
    }
}

pub fn is_valid_alias_name(name: &str) -> (b: bool)
    ensures
        b == valid_alias_name(name@),
{
    let chars = chars_of(name);
    if chars.len() == 0 {
        return false;
    }
    let mut i: usize = 0;
    while i < chars.len()
        invariant
            chars@ == name@,
            i <= chars@.len(),
            forall|j: int| 0 <= j < i ==> #[trigger] alias_char(chars@[j]),
        decreases chars@.len() - i,
    {
        let c = chars[i];
        if !(('a' <= c && c <= 'z') || ('A' <= c && c <= 'Z') || ('0' <= c && c <= '9') || c == '.' || c == '_'
            || c == '-') {
            assert(!alias_char(chars@[i as int]));
            return false;
        }
        i = i + 1;
    }
    true
}

pub fn is_valid_ssh_target(target: &str) -> (b: bool)
    ensures
        b == valid_ssh_target(target@),
{
    let chars = chars_of(target);
    let t = trim_chars(chars.as_slice());
    t.len() > 0 && t[0] != '-'
}

pub fn sanitize_server_path(path: &str) -> (s: String)
    ensures
        s@ == spec_sanitize_server_path(path@),
{
    let chars = chars_of(path);
    let t = trim_chars(chars.as_slice());
    if t.len() >= 2 && (t[0] as u32) < 128 && t[1] == ':' {
        let colon = match find_char_index(t.as_slice(), ':') {
            Some(c) => c,
            None => {
                proof {
                    crate::text::lemma_find_char(t@, ':');
                }
                return string_of(t.as_slice());
            },
        };
        let relative = crate::text::copy_chars(t.as_slice(), colon + 1, t.len());
        assert(relative@ =~= t@.skip(colon + 1));
        if relative.len() > 0 && relative[0] == '/' {
            return string_of(relative.as_slice());
        }
        let mut s = String::new();
        push_char(&mut s, '/');
        let mut i: usize = 0;
        while i < relative.len()
            invariant
                i <= relative@.len(),
                s@ == seq!['/'] + relative@.take(i as int).map_values(|c: char| if c == '\\' { '/' } else { c }),
            decreases relative@.len() - i,
        {
            let c = relative[i];
            push_char(&mut s, if c == '\\' { '/' } else { c });
            i = i + 1;
            assert(s@ =~= seq!['/'] + relative@.take(i as int).map_values(|c: char| if c == '\\' { '/' } else { c }));
        }
        assert(relative@.take(i as int) =~= relative@);
        s
    } else {
        string_of(t.as_slice())
    }
}

fn validate_alias_name(name: &str) -> (r: Result<(), ConfigError>)
    ensures
        valid_alias_name(name@) ==> r is Ok,
        !valid_alias_name(name@) ==> (r matches Err(ConfigError::InvalidAliasName { name: n }) && n@ == name@),
{
    if is_valid_alias_name(name) {
        Ok(())
    } else {
        Err(ConfigError::InvalidAliasName { name: name.to_owned() })
    }
}

/// The host settings that an add request stores.
pub open spec fn requested_host(request: AliasAdd) -> HostConfigModel {
    HostConfigModel {
        ssh_target: request.ssh_target@,
        udp_host: opt_text(request.udp_host),
        udp_port: request.udp_port,
        mosh_server: match request.mosh_server {
            Some(s) => Some(spec_sanitize_server_path(s@)),
            None => None,
        },
        terminal: opt_text(request.terminal),
        prediction: request.prediction,
    }
}

pub fn add_alias(config: &mut AppConfig, request: AliasAdd) -> (r: Result<(), ConfigError>)
    requires
        old(config).hosts.wf(),
    ensures
        final(config).hosts.wf(),
        final(config).version == old(config).version,
        final(config).defaults == old(config).defaults,
        !valid_alias_name(request.name@) ==> (r matches Err(ConfigError::InvalidAliasName { name }) && name@ == request.name@),
        valid_alias_name(request.name@) && lookup(old(config).hosts@, request.name@) is Some ==> (r matches Err(
            ConfigError::AliasExists { name },
        ) && name@ == request.name@),
        valid_alias_name(request.name@) && lookup(old(config).hosts@, request.name@) is None && trim(request.ssh_target@).len() == 0
            ==> crate::config::model::is_plain_parse_error(r->Err_0, "ssh target cannot be empty"@) && r is Err,
        valid_alias_name(request.name@) && lookup(old(config).hosts@, request.name@) is None && trim(request.ssh_target@).len() > 0
            && !valid_ssh_target(request.ssh_target@) ==> crate::config::model::is_plain_parse_error(
            r->Err_0,
            "ssh target must not start with '-'"@,
        ) && r is Err,
        r is Ok <==> valid_alias_name(request.name@) && lookup(old(config).hosts@, request.name@) is None
            && valid_ssh_target(request.ssh_target@),
        r is Ok ==> final(config).hosts@ == spec_insert(old(config).hosts@, request.name@, requested_host(request)),
        r is Err ==> final(config).hosts@ == old(config).hosts@,
{
    match validate_alias_name(request.name.as_str()) {
        Ok(()) => {},
        Err(e) => return Err(e),
    }
    if config.hosts.contains_key(request.name.as_str()) {
        return Err(ConfigError::AliasExists { name: request.name });
    }
    let target_chars = chars_of(request.ssh_target.as_str());
    let trimmed = trim_chars(target_chars.as_slice());
    if trimmed.len() == 0 {
        return Err(ConfigError::Parse { path: None, line: None, message: "ssh target cannot be empty".to_owned() });
    }
    if !is_valid_ssh_target(request.ssh_target.as_str()) {
        return Err(
            ConfigError::Parse { path: None, line: None, message: "ssh target must not start with '-'".to_owned() },
        );
    }
    let ghost expected = requested_host(request);
    let mosh_server = match &request.mosh_server {
        Some(s) => Some(sanitize_server_path(s.as_str())),
        None => None,
    };
    let host = HostConfig {
        ssh_target: request.ssh_target,
        udp_host: request.udp_host,
        udp_port: request.udp_port,
        mosh_server,
        terminal: request.terminal,
        prediction: request.prediction,
    };
    assert(host@ == expected);
    let _ = config.hosts.insert(request.name, host);
    Ok(())
}

/// The aliases with their settings, in name order.
pub fn list_aliases(config: &AppConfig) -> (r: Vec<(&str, &HostConfig)>)
    ensures
        r@.map_values(|e: (&str, &HostConfig)| (e.0@, e.1@)) == config.hosts@,
{
    let entries = config.hosts.entries();
    let mut r: Vec<(&str, &HostConfig)> = Vec::new();
    let mut i: usize = 0;
    while i < entries.len()
        invariant
            i <= entries@.len(),
            entries_view(entries@) == config.hosts@,
            r@.map_values(|e: (&str, &HostConfig)| (e.0@, e.1@)) == entries_view(entries@).take(i as int),
        decreases entries@.len() - i,
    {
        let entry = &entries[i];
        let ghost before = r@;
        let name = entry.0.as_str();
        r.push((name, &entry.1));
        assert(r@.map_values(|e: (&str, &HostConfig)| (e.0@, e.1@)) =~= before.map_values(|e: (&str, &HostConfig)| (e.0@, e.1@)).push((entries@[i as int].0@, entries@[i as int].1@)));
        assert(entries_view(entries@).take(i + 1) =~= entries_view(entries@).take(i as int).push((entries@[i as int].0@, entries@[i as int].1@)));
        i = i + 1;
    }
    assert(entries_view(entries@).take(i as int) =~= entries_view(entries@));
    r
}

pub fn show_alias<'a>(config: &'a AppConfig, name: &str) -> (r: Result<&'a HostConfig, ConfigError>)
    ensures
        match lookup(config.hosts@, name@) {
            Some(h) => r is Ok && r->Ok_0@ == h,
            None => r matches Err(ConfigError::AliasNotFound { name: n }) && n@ == name@,
        },
{
    match config.hosts.get(name) {
        Some(h) => Ok(h),
        None => Err(ConfigError::AliasNotFound { name: name.to_owned() }),
    }
}

pub fn remove_alias(config: &mut AppConfig, name: &str) -> (r: Result<HostConfig, ConfigError>)
    requires
        old(config).hosts.wf(),
    ensures
        final(config).hosts.wf(),
        final(config).version == old(config).version,
        final(config).defaults == old(config).defaults,
        !valid_alias_name(name@) ==> (r matches Err(ConfigError::InvalidAliasName { name: n }) && n@ == name@)
            && final(config).hosts@ == old(config).hosts@,
        valid_alias_name(name@) ==> final(config).hosts@ == spec_remove(old(config).hosts@, name@),
        valid_alias_name(name@) ==> match lookup(old(config).hosts@, name@) {
            Some(h) => r is Ok && r->Ok_0@ == h,
            None => r matches Err(ConfigError::AliasNotFound { name: n }) && n@ == name@,
        },
{
    match validate_alias_name(name) {
        Ok(()) => {},
        Err(e) => return Err(e),
    }
    match config.hosts.remove(name) {
        Some(h) => Ok(h),
        None => Err(ConfigError::AliasNotFound { name: name.to_owned() }),
    }
}

pub fn rename_alias(config: &mut AppConfig, old_name: &str, new_name: &str) -> (r: Result<(), ConfigError>)
    requires
        old(config).hosts.wf(),
    ensures
        final(config).hosts.wf(),
        final(config).version == old(config).version,
        final(config).defaults == old(config).defaults,
        !valid_alias_name(old_name@) ==> (r matches Err(ConfigError::InvalidAliasName { name: n }) && n@ == old_name@),
        valid_alias_name(old_name@) && !valid_alias_name(new_name@) ==> (r matches Err(
            ConfigError::InvalidAliasName { name: n },
        ) && n@ == new_name@),
        valid_alias_name(old_name@) && valid_alias_name(new_name@) && lookup(old(config).hosts@, new_name@) is Some
            ==> (r matches Err(ConfigError::AliasExists { name: n }) && n@ == new_name@),
        valid_alias_name(old_name@) && valid_alias_name(new_name@) && lookup(old(config).hosts@, new_name@) is None
            && lookup(old(config).hosts@, old_name@) is None ==> (r matches Err(ConfigError::AliasNotFound { name: n })
            && n@ == old_name@),
        r is Ok <==> valid_alias_name(old_name@) && valid_alias_name(new_name@) && lookup(old(config).hosts@, new_name@)
            is None && lookup(old(config).hosts@, old_name@) is Some,
        r is Ok ==> final(config).hosts@ == spec_insert(
            spec_remove(old(config).hosts@, old_name@),
            new_name@,
            lookup(old(config).hosts@, old_name@)->Some_0,
        ),
        r is Err ==> final(config).hosts@ == old(config).hosts@,
{
    match validate_alias_name(old_name) {
        Ok(()) => {},
        Err(e) => return Err(e),
    }
    match validate_alias_name(new_name) {
        Ok(()) => {},
        Err(e) => return Err(e),
    }
    if config.hosts.contains_key(new_name) {
        return Err(ConfigError::AliasExists { name: new_name.to_owned() });
    }
    let host = match remove_alias(config, old_name) {
        Ok(h) => h,
        Err(e) => {
            assert(lookup(old(config).hosts@, old_name@) is None);
            assert(spec_remove(old(config).hosts@, old_name@) == old(config).hosts@);
            return Err(e);
        },
    };
    let _ = config.hosts.insert(new_name.to_owned(), host);
    Ok(())
}

} // verus!
