use winmosh::client::interactive::{screen_bytes, Reply, SessionCore};
use winmosh::client::session::InputAction;
use winmosh::protocol::proto::{HostInstruction, HostMessage, TransportInstruction};

fn server_instruction(old_num: u64, new_num: u64, ack_num: Option<u64>, diff: Vec<u8>) -> TransportInstruction {
    TransportInstruction {
        protocol_version: Some(2),
        old_num: Some(old_num),
        new_num: Some(new_num),
        ack_num,
        throwaway_num: Some(0),
        diff: Some(diff),
        chaff: None,
    }
}

#[test]
fn session_first_instruction_announces_window_size() {
    let mut core = SessionCore::new(80, 24);
    let first = core.next_instruction(5).expect("instruction");
    assert_eq!(first.old_num, Some(0));
    assert_eq!(first.new_num, Some(1));
    assert_eq!(first.ack_num, Some(0));
    assert!(first.diff.as_ref().map(|d| !d.is_empty()).unwrap_or(false));
}

#[test]
fn session_quit_and_ignore_send_nothing() {
    let mut core = SessionCore::new(80, 24);
    let quit = core.on_input(InputAction::Quit, 1).expect("step");
    assert!(!quit.running);
    assert!(quit.send.is_none());
    let ignore = core.on_input(InputAction::Ignore, 1).expect("step");
    assert!(ignore.running);
    assert!(ignore.send.is_none());
}

#[test]
fn session_sends_typed_bytes_and_resizes() {
    let mut core = SessionCore::new(80, 24);
    let typed = core.on_input(InputAction::Send(b"ls\r".to_vec()), 10).expect("step");
    assert!(typed.running);
    let sent = typed.send.expect("instruction");
    assert_eq!(sent.new_num, Some(1));
    let resized = core.on_input(InputAction::Resize { columns: 100, rows: 30 }, 20).expect("step");
    assert_eq!(resized.send.expect("instruction").new_num, Some(2));
}

#[test]
fn session_shows_host_bytes_and_acknowledges() {
    let mut core = SessionCore::new(80, 24);
    let message = HostMessage { instructions: vec![HostInstruction::HostBytes(b"hello".to_vec()), HostInstruction::EchoAck(3), HostInstruction::HostBytes(b" world".to_vec())] };
    let instruction = server_instruction(0, 1, Some(0), message.encode());
    let reception = core.receive(&instruction);
    assert_eq!(reception.screen_bytes, b"hello world".to_vec());
    assert!(matches!(reception.reply, Reply::Acknowledge));
    let ack = core.next_instruction(7).expect("ack");
    assert_eq!(ack.ack_num, Some(1));

    let again = core.receive(&instruction);
    assert!(again.screen_bytes.is_empty());
    assert!(matches!(again.reply, Reply::Acknowledge));
    assert!(core.latest_screen().is_some());
}

#[test]
fn session_rebases_on_missing_base() {
    let mut core = SessionCore::new(80, 24);
    let instruction = server_instruction(9, 10, None, b"x".to_vec());
    let reception = core.receive(&instruction);
    assert!(reception.screen_bytes.is_empty());
    match reception.reply {
        Reply::Rebase(ack) => {
            assert_eq!(ack.old_num, Some(0));
            assert_eq!(ack.new_num, Some(0));
            assert_eq!(ack.diff, Some(Vec::new()));
        }
        _ => panic!("expected a rebase"),
    }
}

#[test]
fn session_shutdown_is_not_acknowledged() {
    let mut core = SessionCore::new(80, 24);
    let instruction = server_instruction(0, u64::MAX, None, Vec::new());
    let reception = core.receive(&instruction);
    assert!(reception.screen_bytes.is_empty());
    assert!(matches!(reception.reply, Reply::Nothing));
}

#[test]
fn screen_bytes_ignore_empty_and_malformed_diffs() {
    assert!(screen_bytes(&None).is_empty());
    assert!(screen_bytes(&Some(Vec::new())).is_empty());
    assert!(screen_bytes(&Some(vec![0xff, 0xff, 0xff])).is_empty());
}
