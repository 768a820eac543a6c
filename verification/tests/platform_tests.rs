use winmosh::platform::process::ssh_candidates;
use winmosh::platform::console::{
    enable_vt_output, input_capability_for, output_capability_for, ConsoleError, ConsoleGuard, InputCapability,
    OutputCapability,
};
use winmosh::platform::process::pathext_list;
use winmosh::platform::terminal_size::{size_from_env, size_from_window, TerminalSize};

#[test]
fn vt_output_flag_is_added() {
    assert_eq!(enable_vt_output(0x0001), 0x0005);
}

#[test]
fn vt_output_flag_keeps_other_flags() {
    assert_eq!(enable_vt_output(0x0004), 0x0004);
    assert_eq!(enable_vt_output(0xffff_0000), 0xffff_0004);
}

#[test]
fn console_guard_enters() {
    let guard = ConsoleGuard::enter().unwrap();
    assert!(guard.is_active());
    assert_eq!(ConsoleError::new("no console".to_owned()).describe(), "no console");
}

#[test]
fn capabilities_follow_terminal_detection() {
    assert_eq!(input_capability_for(true), InputCapability::Console);
    assert_eq!(input_capability_for(false), InputCapability::StdinPipe);
    assert_eq!(output_capability_for(false), OutputCapability::Plain);
}

#[test]
fn terminal_size_from_environment() {
    assert_eq!(size_from_env(Some(" 120 "), Some("40")), Some(TerminalSize { columns: 120, rows: 40 }));
    assert_eq!(size_from_env(Some("120"), None), None);
    assert_eq!(size_from_env(Some("wide"), Some("40")), None);
}

#[test]
fn terminal_size_from_window_edges() {
    assert_eq!(size_from_window(0, 0, 79, 23), Some(TerminalSize { columns: 80, rows: 24 }));
    assert_eq!(size_from_window(10, 5, 0, 0), Some(TerminalSize { columns: 0, rows: 0 }));
    assert_eq!(size_from_window(-32768, 0, 32767, 0), None);
}

#[test]
fn pathext_is_split_on_semicolons() {
    assert_eq!(pathext_list(Some(".COM;.EXE;;.BAT;")), vec![".COM", ".EXE", ".BAT"]);
    assert_eq!(pathext_list(None), vec![".EXE"]);
}

#[test]
fn ssh_candidates_start_under_the_system_root() {
    assert_eq!(
        ssh_candidates(Some("D:\\Win".to_string()), '\\'),
        vec![
            "D:\\Win\\System32\\OpenSSH\\ssh.exe".to_string(),
            "C:\\Windows\\System32\\OpenSSH\\ssh.exe".to_string(),
            "C:\\Program Files\\OpenSSH\\ssh.exe".to_string(),
        ]
    );
    assert_eq!(ssh_candidates(None, '\\').len(), 2);
}
