use winmosh::config::load::config_path_from;
use winmosh::config::alias::{
    add_alias, is_valid_alias_name, is_valid_ssh_target, remove_alias, rename_alias, sanitize_server_path, show_alias,
    AliasAdd,
};
use winmosh::config::load::{check_unchanged, parse_config, serialize_config, FoundFile};
use std::path::PathBuf;
use winmosh::config::model::{
    AddressFamily, AppConfig, ConfigError, EffectiveSshConfig, PortSpec, PredictionMode, ResolveOverrides,
};
use winmosh::config::resolve::resolve_target_with_effective_ssh;
use winmosh::config::ssh_config::{
    effective_ssh_from_output, first_non_empty_line, parse_effective_ssh_config, split_ssh_config_line,
};

fn add(name: &str, target: &str) -> AliasAdd {
    AliasAdd {
        name: name.to_owned(),
        ssh_target: target.to_owned(),
        udp_host: None,
        udp_port: None,
        mosh_server: None,
        terminal: None,
        prediction: None,
    }
}

#[test]
fn validates_alias_names() {
    assert!(is_valid_alias_name("my.server-01_test"));
    assert!(!is_valid_alias_name(""));
    assert!(!is_valid_alias_name("bad/name"));
    assert!(!is_valid_alias_name("中文"));
}

#[test]
fn supports_alias_crud() {
    let mut config = AppConfig::default();
    add_alias(&mut config, add("myserver", "root@example.com")).unwrap();
    assert!(config.hosts.contains_key("myserver"));
    rename_alias(&mut config, "myserver", "prod").unwrap();
    assert!(config.hosts.contains_key("prod"));
    remove_alias(&mut config, "prod").unwrap();
    assert!(config.hosts.is_empty());
}

#[test]
fn rejects_dash_prefixed_ssh_targets() {
    assert!(!is_valid_ssh_target("-oProxyCommand=evil"));
    assert!(!is_valid_ssh_target("  -v"));
    assert!(is_valid_ssh_target("user@host"));
    assert!(is_valid_ssh_target("192.168.1.1"));
}

#[test]
fn parses_readme_style_config() {
    let config = parse_config(
        r#"
version = 1

[defaults]
mosh_server = "mosh-server"
udp_port = "60000:61000"
terminal = "xterm-256color"
prediction = "off"

[hosts.myserver]
ssh_target = "root@192.168.1.20"
"#,
        None,
    )
    .unwrap();

    assert_eq!(config.version, 1);
    assert_eq!(config.hosts.get("myserver").unwrap().ssh_target, "root@192.168.1.20");
    assert_eq!(config.defaults.udp_port, Some(PortSpec::Range { start: 60000, end: 61000 }));
}

#[test]
fn serializes_hosts_in_stable_order() {
    let mut config = parse_config("version = 1\n", None).unwrap();
    add_alias(&mut config, add("b", "root@b")).unwrap();
    add_alias(&mut config, add("a", "root@a")).unwrap();

    let serialized = serialize_config(&config);
    let host_a = serialized.find("[hosts.a]");
    let host_b = serialized.find("[hosts.b]");
    match (host_a, host_b) {
        (Some(host_a), Some(host_b)) => assert!(host_a < host_b),
        _ => panic!("serialized aliases were missing"),
    }
}

#[test]
fn parses_port_ranges() {
    assert_eq!(PortSpec::parse("60000").unwrap(), PortSpec::Single(60000));
    assert_eq!(PortSpec::parse("60000:61000").unwrap(), PortSpec::Range { start: 60000, end: 61000 });
    assert!(PortSpec::parse("61000:60000").is_err());
}

#[test]
fn parses_enum_values() {
    assert_eq!(PredictionMode::parse("adaptive").unwrap(), PredictionMode::Adaptive);
    assert_eq!(AddressFamily::parse("inet6").unwrap(), AddressFamily::Ipv6);
}

#[test]
fn applies_precedence_for_udp_and_terminal() {
    let mut config = AppConfig::default();
    add_alias(
        &mut config,
        AliasAdd {
            name: "myserver".to_owned(),
            ssh_target: "root@example.com".to_owned(),
            udp_host: Some("alias-udp.example.com".to_owned()),
            udp_port: Some(PortSpec::Single(60020)),
            mosh_server: Some("/usr/local/bin/mosh-server".to_owned()),
            terminal: Some("vt100".to_owned()),
            prediction: None,
        },
    )
    .unwrap();
    let host = config.hosts.get("myserver");
    let resolved = resolve_target_with_effective_ssh(
        &config,
        "myserver",
        host,
        "root@example.com".to_owned(),
        EffectiveSshConfig {
            hostname: "example.com".to_owned(),
            user: "root".to_owned(),
            port: 22,
            address_family: AddressFamily::Auto,
        },
        &ResolveOverrides {
            udp_host: Some("cli-udp.example.com".to_owned()),
            terminal: Some("xterm".to_owned()),
            ..ResolveOverrides::default()
        },
    );
    assert_eq!(resolved.udp_candidates[0].host, "cli-udp.example.com");
    assert_eq!(resolved.udp_port, PortSpec::Single(60020));
    assert_eq!(resolved.terminal, "xterm");
    assert_eq!(resolved.mosh_server, "/usr/local/bin/mosh-server");
}

#[test]
fn parses_ssh_g_output() {
    let output = "user deploy\nhostname 203.0.113.10\nport 2222\naddressfamily inet\nidentityfile ~/.ssh/id_ed25519\n";
    let config = parse_effective_ssh_config(output, "ignored", "unknown").unwrap();
    assert_eq!(config.hostname, "203.0.113.10");
    assert_eq!(config.user, "deploy");
    assert_eq!(config.port, 2222);
    assert_eq!(config.address_family, AddressFamily::Ipv4);
}

#[test]
fn falls_back_to_user_host_target() {
    let config = parse_effective_ssh_config("", "root@example.com", "unknown").unwrap();
    assert_eq!(config.hostname, "example.com");
    assert_eq!(config.user, "root");
    assert_eq!(config.port, 22);
}

#[test]
fn splits_space_and_equals_lines() {
    assert_eq!(
        split_ssh_config_line("hostname example.com"),
        Some(("hostname".to_owned(), "example.com".to_owned()))
    );
    assert_eq!(split_ssh_config_line("port=22"), Some(("port".to_owned(), "22".to_owned())));
}

#[test]
fn ssh_output_without_user_uses_default_user() {
    let config = parse_effective_ssh_config("hostname h\n", "example.com", "alice").unwrap();
    assert_eq!(config.hostname, "h");
    assert_eq!(config.user, "alice");
    assert_eq!(config.address_family, AddressFamily::Auto);
}

#[test]
fn ssh_output_with_bad_port_is_an_error() {
    match parse_effective_ssh_config("port 99999\n", "h", "u") {
        Err(ConfigError::SshConfig(message)) => {
            assert_eq!(message, "ssh -G returned invalid port: 99999")
        }
        other => panic!("unexpected result: {other:?}"),
    }
    match parse_effective_ssh_config("addressfamily carrier-pigeon\n", "h", "u") {
        Err(error) => assert_eq!(error.describe(), "invalid address family: carrier-pigeon"),
        Ok(config) => panic!("unexpected success: {config:?}"),
    }
}

#[test]
fn failed_ssh_reports_its_first_diagnostic() {
    match effective_ssh_from_output(Some(255), "", "\n  Could not resolve hostname x \nmore\n", "x", "u") {
        Err(ConfigError::SshConfig(message)) => {
            assert_eq!(message, "ssh -G x failed: Could not resolve hostname x")
        }
        other => panic!("unexpected result: {other:?}"),
    }
    match effective_ssh_from_output(None, "", "", "x", "u") {
        Err(ConfigError::SshConfig(message)) => {
            assert_eq!(message, "ssh -G x failed: ssh -G failed without diagnostic output")
        }
        other => panic!("unexpected result: {other:?}"),
    }
    let config = effective_ssh_from_output(Some(0), "user bob\n", "", "x", "u").unwrap();
    assert_eq!(config.user, "bob");
}

#[test]
fn first_non_empty_line_skips_blank_lines() {
    assert_eq!(first_non_empty_line("\n \r\n  OpenSSH_9.6  \n"), Some("OpenSSH_9.6".to_owned()));
    assert_eq!(first_non_empty_line(" \n"), None);
}

#[test]
fn alias_errors_name_the_alias() {
    let mut config = AppConfig::default();
    add_alias(&mut config, add("one", "root@a")).unwrap();
    match add_alias(&mut config, add("one", "root@b")) {
        Err(error) => assert_eq!(error.describe(), "alias already exists: one"),
        Ok(()) => panic!("duplicate alias was accepted"),
    }
    match show_alias(&config, "two") {
        Err(error) => assert_eq!(error.describe(), "alias not found: two"),
        Ok(_) => panic!("missing alias was found"),
    }
    match add_alias(&mut config, add("bad/name", "root@b")) {
        Err(error) => assert_eq!(
            error.describe(),
            "invalid alias name 'bad/name'; allowed characters are A-Z a-z 0-9 . _ -"
        ),
        Ok(()) => panic!("bad alias was accepted"),
    }
}

#[test]
fn config_round_trips_through_serialization() {
    let mut config = AppConfig::default();
    add_alias(
        &mut config,
        AliasAdd {
            name: "web".to_owned(),
            ssh_target: "deploy@web.example".to_owned(),
            udp_host: Some("10.0.0.5".to_owned()),
            udp_port: Some(PortSpec::Range { start: 60010, end: 60020 }),
            mosh_server: None,
            terminal: Some("xterm \"quoted\"".to_owned()),
            prediction: Some(PredictionMode::Always),
        },
    )
    .unwrap();
    let text = serialize_config(&config);
    let parsed = parse_config(&text, None).unwrap();
    let host = parsed.hosts.get("web").unwrap();
    assert_eq!(host.ssh_target, "deploy@web.example");
    assert_eq!(host.udp_host.as_deref(), Some("10.0.0.5"));
    assert_eq!(host.terminal.as_deref(), Some("xterm \"quoted\""));
    assert_eq!(host.prediction, Some(PredictionMode::Always));
}

#[test]
fn server_paths_are_sanitized() {
    assert_eq!(sanitize_server_path("  /usr/bin/mosh-server "), "/usr/bin/mosh-server");
    assert_eq!(sanitize_server_path("C:/Program Files/mosh-server"), "/Program Files/mosh-server");
}

#[test]
fn save_check_accepts_unchanged_file() {
    let original = Some(b"version = 1\n".to_vec());
    let found = FoundFile::Contents(b"version = 1\n".to_vec());
    assert!(check_unchanged(&original, found, PathBuf::from("config.toml")).is_ok());
}

#[test]
fn save_check_refuses_changed_or_removed_file() {
    let original = Some(b"version = 1\n".to_vec());
    let changed = check_unchanged(&original, FoundFile::Contents(b"version = 2\n".to_vec()), PathBuf::from("c.toml"));
    assert!(matches!(changed, Err(ConfigError::ConcurrentModification { path }) if path == PathBuf::from("c.toml")));
    let removed = check_unchanged(&original, FoundFile::Missing, PathBuf::from("c.toml"));
    assert!(matches!(removed, Err(ConfigError::ConcurrentModification { .. })));
}

#[test]
fn save_check_new_file_must_still_be_absent() {
    assert!(check_unchanged(&None, FoundFile::Missing, PathBuf::from("c.toml")).is_ok());
    let appeared = check_unchanged(&None, FoundFile::Exists, PathBuf::from("c.toml"));
    assert!(matches!(appeared, Err(ConfigError::ConcurrentModification { .. })));
}

#[test]
fn save_check_reports_unreadable_file() {
    let error = std::io::Error::new(std::io::ErrorKind::PermissionDenied, "denied");
    let result = check_unchanged(&Some(Vec::new()), FoundFile::Unreadable(error), PathBuf::from("c.toml"));
    assert!(matches!(result, Err(ConfigError::Io { path, .. }) if path == PathBuf::from("c.toml")));
}

#[test]
fn config_path_prefers_appdata_then_profile_then_current_directory() {
    assert_eq!(
        config_path_from(Some("C:\\Users\\me\\AppData\\Roaming".to_string()), Some("C:\\Users\\me".to_string()), '\\'),
        "C:\\Users\\me\\AppData\\Roaming\\WinMosh\\config.toml"
    );
    assert_eq!(
        config_path_from(None, Some("C:\\Users\\me\\".to_string()), '\\'),
        "C:\\Users\\me\\AppData\\Roaming\\WinMosh\\config.toml"
    );
    assert_eq!(config_path_from(None, None, '\\'), ".\\config.toml");
    assert_eq!(config_path_from(Some(String::new()), None, '/'), "WinMosh/config.toml");
}
