use std::time::Duration;

use winmosh::bootstrap::command::{build_remote_command, build_server_command, shell_quote, terminal_color_count, BootstrapRequest};
use winmosh::bootstrap::error::BootstrapError;
use winmosh::bootstrap::parser::{
    is_valid_session_key, parse_mosh_server_output, parse_mosh_server_output_bytes, parse_server_version,
};
use winmosh::bootstrap::secret::SessionKey;
use winmosh::bootstrap::ssh::{capture_len, diagnostic_text, finish_bootstrap, sanitize_diagnostic, ssh_arguments};
use winmosh::config::model::{
    AddressFamily, EffectiveSshConfig, PortSpec, PredictionMode, ResolvedTarget, SocketCandidate,
};

fn sample_target() -> ResolvedTarget {
    ResolvedTarget {
        display_name: "myserver".to_owned(),
        alias_name: Some("myserver".to_owned()),
        ssh_target: "root@example.com".to_owned(),
        effective_ssh: EffectiveSshConfig {
            hostname: "example.com".to_owned(),
            user: "root".to_owned(),
            port: 22,
            address_family: AddressFamily::Auto,
        },
        udp_candidates: vec![SocketCandidate { host: "example.com".to_owned(), port: PortSpec::Single(60024) }],
        mosh_server: "mosh-server".to_owned(),
        udp_port: PortSpec::Single(60024),
        terminal: "xterm-256color".to_owned(),
        prediction: PredictionMode::Off,
    }
}

fn sample_request() -> BootstrapRequest {
    BootstrapRequest {
        target: sample_target(),
        columns: 80,
        rows: 24,
        locale: "en_US.UTF-8".to_owned(),
        ssh_path: None,
        timeout: Duration::from_secs(10),
    }
}

#[test]
fn builds_non_secret_server_command() {
    let command = build_server_command(&sample_request());
    assert_eq!(command[0], "mosh-server");
    assert!(command.windows(2).any(|pair| pair == ["-p", "60024"]));
    assert!(command.windows(2).any(|pair| pair == ["-c", "256"]));
    assert!(command.windows(2).any(|pair| pair == ["-l", "LANG=en_US.UTF-8"]));
}

#[test]
fn quotes_remote_command_arguments() {
    let mut request = sample_request();
    request.target.mosh_server = "/opt/my mosh-server".to_owned();
    let command = build_remote_command(&request);
    assert!(command.starts_with("'/opt/my mosh-server' new"));
}

#[test]
fn remote_command_is_the_quoted_arguments_joined() {
    let mut request = sample_request();
    request.target.udp_port = PortSpec::Range { start: 60000, end: 61000 };
    let command = build_remote_command(&request);
    assert_eq!(command, "mosh-server new -s -c 256 -l LANG=en_US.UTF-8 -p 60000:61000");
}

#[test]
fn shell_quote_escapes_single_quotes() {
    assert_eq!(shell_quote("plain-arg_1.2/x:y=z+w"), "plain-arg_1.2/x:y=z+w");
    assert_eq!(shell_quote("it's"), "'it'\\''s'");
    assert_eq!(shell_quote("a b"), "'a b'");
}

#[test]
fn color_count_follows_terminal_name() {
    assert_eq!(terminal_color_count("xterm-256color"), 256);
    assert_eq!(terminal_color_count("XTERM-TrueColor"), 256);
    assert_eq!(terminal_color_count("rxvt-88color"), 88);
    assert_eq!(terminal_color_count("ansi-16color"), 16);
    assert_eq!(terminal_color_count("vt100"), 8);
}

#[test]
fn ssh_is_started_with_port_batch_mode_and_command() {
    let args = ssh_arguments(&sample_request());
    assert_eq!(args.len(), 7);
    assert_eq!(args[0], "-p");
    assert_eq!(args[1], "22");
    assert_eq!(args[3], "BatchMode=yes");
    assert_eq!(args[5], "root@example.com");
    assert!(args[6].starts_with("mosh-server new -s -c 256"));
}

#[test]
fn parses_connect_line_without_exposing_key() {
    let result = parse_mosh_server_output("noise\nMOSH CONNECT 60024 AAECAwQFBgcICQoLDA0ODw\n").unwrap();
    assert_eq!(result.udp_port, 60024);
    assert_eq!(result.session_key.len(), 22);
    let debug = result.session_key.debug_text();
    assert!(!debug.contains("AAECAwQFBgcICQoLDA0ODw"));
}

#[test]
fn accepts_banner_and_extracts_version() {
    let result = parse_mosh_server_output(
        "welcome\r\nmosh-server (mosh) version 1.4.0\r\nMOSH CONNECT 60024 AAECAwQFBgcICQoLDA0ODw\r\n",
    )
    .unwrap();
    assert_eq!(result.server_version.as_deref(), Some("1.4.0"));
}

#[test]
fn rejects_invalid_key() {
    let error = match parse_mosh_server_output("MOSH CONNECT 60024 invalid") {
        Err(error) => error,
        Ok(_) => panic!("invalid key"),
    };
    assert!(error.describe().contains("invalid format"));
}

#[test]
fn rejects_duplicate_connect_lines() {
    let output = "MOSH CONNECT 60024 AAECAwQFBgcICQoLDA0ODw\nMOSH CONNECT 60025 AAECAwQFBgcICQoLDA0ODw";
    let error = match parse_mosh_server_output(output) {
        Err(error) => error,
        Ok(_) => panic!("duplicate connect lines"),
    };
    assert!(error.describe().contains("multiple"));
}

#[test]
fn accepts_non_utf8_noise_before_connect_line() {
    let mut output = vec![0xff, 0xfe, b'\n'];
    output.extend_from_slice(b"MOSH CONNECT 60024 AAECAwQFBgcICQoLDA0ODw\r\n");
    let result = parse_mosh_server_output_bytes(&output).unwrap();
    assert_eq!(result.udp_port, 60024);
}

#[test]
fn each_connect_line_fault_has_its_message() {
    let cases = [
        ("MOSH CONNECT   ", "invalid mosh-server output: MOSH CONNECT line was not found"),
        ("MOSH CONNECT x AAECAwQFBgcICQoLDA0ODw", "invalid mosh-server output: invalid UDP port"),
        ("MOSH CONNECT 60001", "invalid mosh-server output: missing session key"),
        ("MOSH CONNECT 60001 AAECAwQFBgcICQoLDA0ODw x", "invalid mosh-server output: MOSH CONNECT line has extra fields"),
        ("nothing here", "invalid mosh-server output: MOSH CONNECT line was not found"),
    ];
    for (output, message) in cases {
        match parse_mosh_server_output(output) {
            Err(error) => assert_eq!(error.describe(), message),
            Ok(_) => panic!("accepted {output:?}"),
        }
    }
}

#[test]
fn version_after_connect_line_is_kept() {
    let result =
        parse_mosh_server_output("MOSH CONNECT 60001 AAECAwQFBgcICQoLDA0ODw\nmosh-server (mosh) version 1.3.2\n").unwrap();
    assert_eq!(result.server_version.as_deref(), Some("1.3.2"));
    assert_eq!(result.remote_pid, None);
    assert_eq!(parse_server_version("mosh-server (mosh) version    "), None);
}

#[test]
fn session_keys_must_be_canonical_base64() {
    assert!(is_valid_session_key("AAECAwQFBgcICQoLDA0ODw"));
    assert!(!is_valid_session_key("AAECAwQFBgcICQoLDA0ODx"));
    assert!(!is_valid_session_key("AAECAwQFBgcICQoLDA0OD"));
    assert!(!is_valid_session_key("AAECAwQFBgcICQoLDA0OD!"));
}

#[test]
fn session_key_keeps_its_text() {
    let key = SessionKey::from_server_text("AAECAwQFBgcICQoLDA0ODw");
    assert_eq!(key.as_str().unwrap(), "AAECAwQFBgcICQoLDA0ODw");
    assert!(!key.is_empty());
    assert_eq!(key.debug_text(), "SessionKey { len: 22, redacted: true }");
}

#[test]
fn diagnostics_never_echo_session_key() {
    let diagnostic = diagnostic_text(b"MOSH CONNECT 60024 AAECAwQFBgcICQoLDA0ODw\n", b"fallback");
    assert!(!diagnostic.contains("AAECAwQFBgcICQoLDA0ODw"));
    assert!(diagnostic.contains("connection line"));
}

#[test]
fn diagnostics_fall_back_to_stdout_then_fixed_text() {
    assert_eq!(diagnostic_text(b"  \n", b"\n permission denied \n"), "permission denied");
    assert_eq!(diagnostic_text(b"", b""), "no diagnostic output");
    assert_eq!(sanitize_diagnostic("ordinary"), "ordinary");
}

#[test]
fn capture_keeps_at_most_the_limit() {
    assert_eq!(capture_len(0, 10, 100), (10, false));
    assert_eq!(capture_len(95, 10, 100), (5, true));
    assert_eq!(capture_len(100, 10, 100), (0, true));
}

#[test]
fn finished_ssh_is_judged_by_output_and_exit_code() {
    match finish_bootstrap(Some(0), b"x", true, b"", false) {
        Err(BootstrapError::OutputTooLarge { limit }) => assert_eq!(limit, 128 * 1024),
        other => panic!("unexpected: {other:?}", other = other.is_ok()),
    }
    match finish_bootstrap(Some(255), b"", false, b"Permission denied\n", false) {
        Err(BootstrapError::SshExit { code, diagnostic }) => {
            assert_eq!(code, Some(255));
            assert_eq!(diagnostic, "Permission denied");
        }
        other => panic!("unexpected: {other:?}", other = other.is_ok()),
    }
    let ok = finish_bootstrap(Some(0), b"MOSH CONNECT 60002 AAECAwQFBgcICQoLDA0ODw\n", false, b"", false).unwrap();
    assert_eq!(ok.udp_port, 60002);
}

#[test]
fn bootstrap_errors_describe_themselves() {
    assert_eq!(
        BootstrapError::SshExit { code: Some(-1), diagnostic: "gone".to_owned() }.describe(),
        "ssh.exe exited with code -1: gone"
    );
    assert_eq!(
        BootstrapError::OutputTooLarge { limit: 10 }.describe(),
        "mosh-server output exceeded the 10-byte limit"
    );
    assert_eq!(
        BootstrapError::SshTimeout { timeout: Duration::from_secs(7) }.describe(),
        "ssh.exe timed out after 7 seconds"
    );
}
