use winmosh::client::cli::{AliasCommand, Command, ConfigCommand, Invocation, UpdateMode};
use winmosh::client::error::Error;
use winmosh::client::keys::{control_byte, is_local_quit, key_event_bytes, KeyCode, KeyPress};
use winmosh::client::session::{choose_locale, input_action, session_size, InputAction, InputEvent};
use winmosh::client::uninstall::{file_removal_command, is_confirmed};
use winmosh::client::update::{
    escape_powershell_single_quoted, extract_assets, extract_string_field, parse_release_json,
};
use winmosh::client::version::Version;
use winmosh::config::model::{AddressFamily, PortSpec};
use winmosh::platform::terminal_size::TerminalSize;

fn parse(input: &[&str]) -> Result<Invocation, Error> {
    let args = input.iter().map(|arg| arg.to_string()).collect::<Vec<_>>();
    Invocation::parse(&args)
}

fn key(code: KeyCode, control: bool, alt: bool) -> KeyPress {
    KeyPress { code, control, alt }
}

#[test]
fn parses_target_with_global_options() {
    let invocation = parse(&["winmosh", "--config", "test.toml", "--udp-port", "60020:60030", "myserver"]).unwrap();
    assert!(matches!(invocation.command, Command::Connect(_)));
    assert_eq!(invocation.global.config.as_deref(), Some("test.toml"));
}

#[test]
fn parses_target_with_trailing_overrides() {
    let invocation = parse(&["winmosh", "myserver", "--udp-port", "60020"]).unwrap();
    assert!(matches!(invocation.command, Command::Connect(_)));
    assert_eq!(invocation.global.overrides.udp_port, Some(PortSpec::Single(60020)));
}

#[test]
fn parses_console_guard_doctor_option() {
    let invocation = parse(&["winmosh", "doctor", "--console-guard"]).unwrap();
    match invocation.command {
        Command::Doctor(command) => assert!(command.console_guard),
        _ => panic!("expected doctor command"),
    }
}

#[test]
fn parses_update_command_modes() {
    let check = parse(&["winmosh", "update", "--check"]).unwrap();
    assert!(matches!(check.command, Command::Update(UpdateMode::Check)));
    let download = parse(&["winmosh", "update", "--download"]).unwrap();
    assert!(matches!(download.command, Command::Update(UpdateMode::Download)));
}

#[test]
fn parses_alias_and_config_commands() {
    let invocation =
        parse(&["winmosh", "alias", "add", "web", "root@web", "--udp-port", "60001", "--prediction", "always"]).unwrap();
    match invocation.command {
        Command::Alias(AliasCommand::Add(request)) => {
            assert_eq!(request.name, "web");
            assert_eq!(request.ssh_target, "root@web");
            assert_eq!(request.udp_port, Some(PortSpec::Single(60001)));
        }
        _ => panic!("expected alias add"),
    }
    let rename = parse(&["winmosh", "alias", "rename", "a", "b"]).unwrap();
    assert!(matches!(rename.command, Command::Alias(AliasCommand::Rename { .. })));
    let config = parse(&["winmosh", "config", "validate"]).unwrap();
    assert!(matches!(config.command, Command::Config(ConfigCommand::Validate)));
    let help = parse(&["winmosh"]).unwrap();
    assert!(matches!(help.command, Command::Help));
    let version = parse(&["winmosh", "--no-color", "-V", "ignored"]).unwrap();
    assert!(matches!(version.command, Command::Version));
    assert!(version.global.no_color);
}

#[test]
fn reports_command_line_errors() {
    let cases: [(&[&str], &str); 6] = [
        (&["winmosh", "--bogus"], "unknown option: --bogus"),
        (&["winmosh", "--config"], "--config requires a value"),
        (&["winmosh", "alias"], "missing alias command"),
        (&["winmosh", "alias", "show"], "missing alias name"),
        (&["winmosh", "version", "extra", "words"], "unexpected argument: extra words"),
        (&["winmosh", "--connect-timeout", "soon", "h"], "--connect-timeout must be an integer number of seconds"),
    ];
    for (args, message) in cases {
        match parse(args) {
            Err(Error::Cli(text)) => assert_eq!(text, message),
            other => panic!("unexpected result for {args:?}: {other:?}"),
        }
    }
    match parse(&["winmosh", "--family", "ipx", "h"]) {
        Err(error) => assert_eq!(error.describe(), "invalid address family: ipx"),
        Ok(invocation) => panic!("unexpected success: {invocation:?}"),
    }
}

#[test]
fn global_options_fill_the_overrides() {
    let invocation = parse(&[
        "winmosh", "--ssh", "C:/ssh.exe", "--family", "inet", "--connect-timeout", "5", "--bootstrap-only", "host",
    ])
    .unwrap();
    assert_eq!(invocation.global.overrides.ssh_path.as_deref(), Some("C:/ssh.exe"));
    assert_eq!(invocation.global.overrides.family, Some(AddressFamily::Ipv4));
    assert_eq!(invocation.global.overrides.connect_timeout_secs, Some(5));
    assert!(invocation.global.bootstrap_only);
    assert_eq!(invocation.global.config_path("default.toml".to_owned()), "default.toml");
}

#[test]
fn maps_control_characters_to_terminal_bytes() {
    assert_eq!(control_byte('c'), Some(3));
    assert_eq!(control_byte('Z'), Some(26));
    assert_eq!(control_byte(' '), Some(0));
    assert_eq!(control_byte('['), Some(0x1b));
    assert_eq!(control_byte('?'), Some(0x7f));
    assert_eq!(control_byte('\x00'), None);
}

#[test]
fn maps_navigation_and_enter_keys() {
    assert_eq!(key_event_bytes(key(KeyCode::Left, false, false)), Some(b"\x1b[D".to_vec()));
    assert_eq!(key_event_bytes(key(KeyCode::Enter, false, false)), Some(vec![b'\r']));
}

#[test]
fn reserves_control_q_for_local_shutdown() {
    assert!(is_local_quit(&key(KeyCode::Char('q'), true, false)));
    assert!(!is_local_quit(&key(KeyCode::Char('c'), true, false)));
}

#[test]
fn alt_prefixes_escape_except_for_characters() {
    assert_eq!(key_event_bytes(key(KeyCode::Up, false, true)), Some(b"\x1b\x1b[A".to_vec()));
    assert_eq!(key_event_bytes(key(KeyCode::Char('é'), false, true)), Some("é".as_bytes().to_vec()));
    assert_eq!(key_event_bytes(key(KeyCode::Other, false, false)), None);
    assert_eq!(key_event_bytes(key(KeyCode::Char('1'), true, false)), None);
}

#[test]
fn input_events_become_actions() {
    assert_eq!(input_action(InputEvent::Key(key(KeyCode::Char('q'), true, false))), InputAction::Quit);
    assert_eq!(input_action(InputEvent::Paste(String::new())), InputAction::Ignore);
    assert_eq!(input_action(InputEvent::Paste("hi".to_owned())), InputAction::Send(b"\x1b[200~hi\x1b[201~".to_vec()));
    assert_eq!(
        input_action(InputEvent::Resize { columns: 0, rows: 30 }),
        InputAction::Resize { columns: 1, rows: 30 }
    );
    assert_eq!(input_action(InputEvent::Other), InputAction::Ignore);
}

#[test]
fn session_size_and_locale_have_defaults() {
    assert_eq!(session_size(None), TerminalSize { columns: 80, rows: 24 });
    assert_eq!(session_size(Some(TerminalSize { columns: 0, rows: 5 })), TerminalSize { columns: 1, rows: 5 });
    assert_eq!(choose_locale(Some("  "), Some("de_DE.UTF-8")), "en_US.UTF-8");
    assert_eq!(choose_locale(None, Some("de_DE.UTF-8")), "de_DE.UTF-8");
    assert_eq!(choose_locale(None, None), "en_US.UTF-8");
}

#[test]
fn semantic_versions_are_compared_numerically() {
    assert!(Version::parse("0.10.0").unwrap() > Version::parse("0.2.9").unwrap());
    assert_eq!(Version::parse("v1.2").unwrap(), Version::parse("1.2.0").unwrap());
}

#[test]
fn version_parsing_ignores_prerelease_and_rejects_junk() {
    assert_eq!(Version::parse(" v2.0.1-beta ").unwrap(), Version::parse("2.0.1").unwrap());
    assert!(Version::parse("1.2.0").unwrap() <= Version::parse("1.2").unwrap());
    match Version::parse("1.x") {
        Err(Error::Update(message)) => assert_eq!(message, "invalid semantic version component: x"),
        other => panic!("unexpected: {other:?}"),
    }
}

#[test]
fn release_json_selects_windows_asset() {
    let json = r#"{
            "tag_name": "v0.2.0",
            "assets": [
                {"name":"other.zip","browser_download_url":"https://example.test/other.zip"},
                {"name":"winmosh-windows-x86_64.zip","browser_download_url":"https://example.test/winmosh.zip"}
            ]
        }"#;
    let release = parse_release_json(json).unwrap();
    assert_eq!(release.tag, "v0.2.0");
    assert_eq!(release.asset_url, "https://example.test/winmosh.zip");
}

#[test]
fn asset_parser_pairs_nearest_name_with_url() {
    let assets = extract_assets(r#"{"name":"first","browser_download_url":"https://example.test/first"}"#);
    assert_eq!(assets, vec![("first".to_owned(), "https://example.test/first".to_owned())]);
}

#[test]
fn release_json_errors_are_reported() {
    match parse_release_json("{}") {
        Err(Error::Update(message)) => assert_eq!(message, "release response did not contain tag_name"),
        other => panic!("unexpected: {other:?}"),
    }
    match parse_release_json(r#"{"tag_name":"v1.0.0","assets":[]}"#) {
        Err(Error::Update(message)) => assert!(message.starts_with("release does not contain any supported asset")),
        other => panic!("unexpected: {other:?}"),
    }
}

#[test]
fn string_fields_are_unescaped() {
    assert_eq!(extract_string_field(r#"{"a" :  "x\"y\\n\u"}"#, "a"), Some("x\"y\\nu".to_owned()));
    assert_eq!(extract_string_field(r#"{"a": 5}"#, "a"), None);
    assert_eq!(extract_string_field(r#"{"a": "open"#, "a"), None);
}

#[test]
fn powershell_quotes_are_doubled() {
    assert_eq!(escape_powershell_single_quoted("it's"), "it''s");
    assert_eq!(
        file_removal_command("C:\\a'b\\wm.exe"),
        "Remove-Item -Force -LiteralPath 'C:\\a''b\\wm.exe' -ErrorAction SilentlyContinue"
    );
}

#[test]
fn uninstall_needs_a_yes() {
    assert!(is_confirmed(" Y\n"));
    assert!(is_confirmed("yes"));
    assert!(!is_confirmed("no"));
    assert!(!is_confirmed(""));
}

#[test]
fn cleanup_script_removes_pending_files_then_directories() {
    let pending = vec!["C:\\a\\winmosh.exe".to_string(), "C:\\a\\wm.exe".to_string()];
    let script = winmosh::client::uninstall::cleanup_script(&pending, "C:\\a", "C:\\Users\\o'k\\WinMosh");
    assert_eq!(
        script,
        "$ErrorActionPreference='SilentlyContinue'; Start-Sleep -Seconds 3; \
         Remove-Item -Force -LiteralPath 'C:\\a\\winmosh.exe' -ErrorAction SilentlyContinue; \
         Remove-Item -Force -LiteralPath 'C:\\a\\wm.exe' -ErrorAction SilentlyContinue; \
         Remove-Item -Recurse -Force -LiteralPath 'C:\\a' -ErrorAction SilentlyContinue; \
         Remove-Item -Recurse -Force -LiteralPath 'C:\\Users\\o''k\\WinMosh' -ErrorAction SilentlyContinue"
    );
}
