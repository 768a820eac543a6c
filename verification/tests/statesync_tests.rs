use winmosh::protocol::proto::TransportInstruction;
use winmosh::protocol::statesync::{ByteState, ReceiveResult, StateSyncReceiver, StateSyncSender};

#[test]
fn sender_and_receiver_converge_and_ack() {
    let mut sender = StateSyncSender::new(ByteState(Vec::new()));
    let mut receiver = StateSyncReceiver::new(ByteState(Vec::new()));
    sender.set_state(ByteState(b"one".to_vec()));
    let first = sender.build_instruction(0).unwrap();
    let applied = receiver.apply_instruction(&first).unwrap();
    assert!(matches!(applied, ReceiveResult::Applied { number: 1, .. }));
    sender.set_state(ByteState(b"two".to_vec()));
    let second = sender.build_instruction(10).unwrap();
    let applied = receiver.apply_instruction(&second).unwrap();
    assert!(matches!(applied, ReceiveResult::Applied { number: 2, .. }));
    sender.acknowledge_local(receiver.latest_number());
    assert_eq!(sender.history_len(), 1);
    assert_eq!(receiver.latest_state(), Some(&ByteState(b"two".to_vec())));
}

#[test]
fn retransmission_is_due_after_timeout() {
    let mut sender = StateSyncSender::new(ByteState(Vec::new()));
    sender.build_instruction(100).unwrap();
    assert!(sender.retransmission(149, 50).is_none());
    assert!(sender.retransmission(150, 50).is_some());
}

#[test]
fn receiver_rejects_missing_base() {
    let mut receiver = StateSyncReceiver::new(ByteState(Vec::new()));
    let instruction = TransportInstruction {
        protocol_version: Some(2),
        old_num: Some(99),
        new_num: Some(100),
        ack_num: Some(0),
        throwaway_num: None,
        diff: Some(b"state".to_vec()),
        chaff: None,
    };
    assert!(receiver.apply_instruction(&instruction).is_err());
}

#[test]
fn rapid_state_changes_remain_consistent() {
    let mut sender = StateSyncSender::new(ByteState(Vec::new()));
    let mut receiver = StateSyncReceiver::new(ByteState(Vec::new()));
    for i in 1..=100 {
        let value = format!("state_{i}");
        sender.set_state(ByteState(value.as_bytes().to_vec()));
        let instruction = sender.build_instruction(i * 10).unwrap();
        let applied = receiver.apply_instruction(&instruction).unwrap();
        assert!(matches!(applied, ReceiveResult::Applied { number: n, .. } if n == i));
        sender.acknowledge_local(receiver.latest_number());
    }
    assert_eq!(receiver.latest_state(), Some(&ByteState(b"state_100".to_vec())));
    assert!(sender.history_len() <= 2);
}

#[test]
fn handles_missing_intermediate_states() {
    let mut sender = StateSyncSender::new(ByteState(Vec::new()));
    let mut receiver = StateSyncReceiver::new(ByteState(Vec::new()));

    sender.set_state(ByteState(b"one".to_vec()));
    let first = sender.build_instruction(0).unwrap();
    sender.set_state(ByteState(b"two".to_vec()));
    let _second = sender.build_instruction(10).unwrap();
    sender.set_state(ByteState(b"three".to_vec()));
    let third = sender.build_instruction(20).unwrap();

    receiver.apply_instruction(&first).unwrap();
    let result = receiver.apply_instruction(&third).unwrap();
    assert!(matches!(result, ReceiveResult::Applied { number: 3, .. }));
    assert_eq!(receiver.latest_state(), Some(&ByteState(b"three".to_vec())));
}

#[test]
fn duplicate_state_is_ignored() {
    let mut sender = StateSyncSender::new(ByteState(Vec::new()));
    let mut receiver = StateSyncReceiver::new(ByteState(Vec::new()));
    sender.set_state(ByteState(b"data".to_vec()));
    let instruction = sender.build_instruction(0).unwrap();
    receiver.apply_instruction(&instruction).unwrap();
    let result = receiver.apply_instruction(&instruction).unwrap();
    assert!(matches!(result, ReceiveResult::Duplicate { .. }));
}

#[test]
fn receiver_trims_history_at_max_capacity() {
    let mut sender = StateSyncSender::new(ByteState(Vec::new()));
    let mut receiver = StateSyncReceiver::new(ByteState(Vec::new()));
    for i in 1..=50 {
        let value = format!("state_{i}");
        sender.set_state(ByteState(value.as_bytes().to_vec()));
        let instruction = sender.build_instruction(i * 10).unwrap();
        sender.acknowledge_local(receiver.latest_number());
        receiver.apply_instruction(&instruction).unwrap();
    }
    assert!(receiver.history_len() <= 32);
}

#[test]
fn sender_does_not_exhaust_state_numbers() {
    let mut sender = StateSyncSender::new(ByteState(Vec::new()));
    let mut state = Vec::new();
    for i in 0..1000 {
        state.push((i % 256) as u8);
        sender.set_state(ByteState(state.clone()));
        sender.build_instruction(i * 10).unwrap();
    }
}

#[test]
fn empty_diff_when_state_unchanged() {
    let mut sender = StateSyncSender::new(ByteState(b"same".to_vec()));
    sender.set_state(ByteState(b"same".to_vec()));
    let instruction = sender.build_instruction(0).unwrap();
    assert!(instruction.diff.unwrap_or_default().is_empty());
}

struct SimpleRng {
    state: u64,
}

impl SimpleRng {
    fn new(seed: u64) -> Self {
        Self { state: seed }
    }

    fn next(&mut self) -> u64 {
        self.state = self.state.wrapping_mul(6364136223846793005).wrapping_add(1442695040888963407);
        self.state >> 33
    }

    fn chance(&mut self, percent: u8) -> bool {
        (self.next() % 100) < u64::from(percent)
    }
}

#[test]
fn survives_random_packet_loss() {
    let mut sender = StateSyncSender::new(ByteState(Vec::new()));
    let mut receiver = StateSyncReceiver::new(ByteState(Vec::new()));
    let mut rng = SimpleRng::new(42);
    let mut last_sent: Option<TransportInstruction> = None;
    let mut time = 0_u64;

    for i in 1..=200 {
        let bytes = format!("state_{i}").into_bytes();
        sender.set_state(ByteState(bytes));
        let instruction = sender.build_instruction(time).unwrap();
        time += 10;

        if rng.chance(70) {
            receiver.apply_instruction(&instruction).unwrap();
            sender.acknowledge_local(receiver.latest_number());
        }
        last_sent = Some(instruction);

        if rng.chance(30) {
            if let Some(ref instr) = last_sent {
                if rng.chance(50) {
                    receiver.apply_instruction(instr).unwrap();
                    sender.acknowledge_local(receiver.latest_number());
                }
            }
        }
    }

    while sender.history_len() > 1 {
        let instr = sender.build_instruction(time).unwrap();
        time += 10;
        receiver.apply_instruction(&instr).unwrap();
        sender.acknowledge_local(receiver.latest_number());
    }

    assert_eq!(receiver.latest_state(), Some(&ByteState(b"state_200".to_vec())));
}

#[test]
fn recovers_after_long_disconnect() {
    let mut sender = StateSyncSender::new(ByteState(Vec::new()));
    let mut receiver = StateSyncReceiver::new(ByteState(Vec::new()));
    let mut time = 0_u64;

    for i in 1..=10 {
        sender.set_state(ByteState(format!("pre_{i}").into_bytes()));
        let instr = sender.build_instruction(time).unwrap();
        time += 10;
        receiver.apply_instruction(&instr).unwrap();
        sender.acknowledge_local(receiver.latest_number());
    }

    for i in 11..=50 {
        sender.set_state(ByteState(format!("lost_{i}").into_bytes()));
        sender.build_instruction(time).unwrap();
        time += 1000;
    }

    let final_state = ByteState(b"recovered".to_vec());
    sender.set_state(final_state.clone());
    let instr = sender.build_instruction(time).unwrap();
    receiver.apply_instruction(&instr).unwrap();
    sender.acknowledge_local(receiver.latest_number());

    assert_eq!(receiver.latest_state(), Some(&final_state));
}

#[test]
fn handles_out_of_order_delivery() {
    let mut sender = StateSyncSender::new(ByteState(Vec::new()));
    let mut receiver = StateSyncReceiver::new(ByteState(Vec::new()));
    let mut time = 0_u64;
    let mut instructions = Vec::new();

    for i in 1..=10 {
        sender.set_state(ByteState(format!("msg_{i}").into_bytes()));
        instructions.push(sender.build_instruction(time).unwrap());
        time += 10;
    }

    let order = [3, 1, 5, 2, 7, 4, 9, 6, 10, 8];
    for &idx in &order {
        receiver.apply_instruction(&instructions[idx - 1]).unwrap();
        sender.acknowledge_local(receiver.latest_number());
    }

    let expected = ByteState(b"msg_10".to_vec());
    assert_eq!(receiver.latest_state(), Some(&expected));
}

#[test]
fn retransmission_fills_gaps() {
    let mut sender = StateSyncSender::new(ByteState(Vec::new()));
    let mut receiver = StateSyncReceiver::new(ByteState(Vec::new()));
    let mut time = 0_u64;

    sender.set_state(ByteState(b"first".to_vec()));
    let first = sender.build_instruction(time).unwrap();
    time += 10;
    receiver.apply_instruction(&first).unwrap();
    sender.acknowledge_local(receiver.latest_number());

    sender.set_state(ByteState(b"second".to_vec()));
    let _lost = sender.build_instruction(time).unwrap();
    time += 10;

    sender.set_state(ByteState(b"third".to_vec()));
    let _lost2 = sender.build_instruction(time).unwrap();
    time += 10;

    sender.set_state(ByteState(b"fourth".to_vec()));
    let fourth = sender.build_instruction(time).unwrap();

    receiver.apply_instruction(&fourth).unwrap();
    sender.acknowledge_local(receiver.latest_number());

    assert_eq!(receiver.latest_state(), Some(&ByteState(b"fourth".to_vec())));
}

#[test]
fn ack_instruction_reports_latest_number() {
    let mut sender = StateSyncSender::new(ByteState(Vec::new()));
    let mut receiver = StateSyncReceiver::new(ByteState(Vec::new()));
    sender.set_state(ByteState(b"x".to_vec()));
    let first = sender.build_instruction(0).unwrap();
    receiver.apply_instruction(&first).unwrap();
    let ack = receiver.ack_instruction();
    assert_eq!(ack.ack_num, Some(receiver.latest_number()));
    assert_eq!(receiver.latest_number(), 1);
}
