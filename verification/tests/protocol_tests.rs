use winmosh::protocol::crypto::{CryptoError, CryptoSession, SessionKey};
use winmosh::protocol::datagram::{decode_datagram, encode_datagram, Datagram, DatagramCodec, ReceiveDisposition};
use winmosh::protocol::fragment::{Fragment, FragmentAssembler, Fragmenter, FRAGMENT_HEADER_LENGTH};
use winmosh::protocol::proto::{HostInstruction, HostMessage, TransportInstruction, UserInstruction, UserMessage};
use winmosh::protocol::protocol_status;
use winmosh::protocol::sequence::{Direction, SequenceNumber, DIRECTION_MASK};
use winmosh::protocol::timing::{timestamp16_from, timestamp_diff};
use winmosh::protocol::transport::{accepts_received_length, check_outgoing};

const KEY: &str = "AAECAwQFBgcICQoLDA0ODw";

#[test]
fn printable_key_decodes_to_aes128_key() {
    let key = SessionKey::from_printable(KEY).unwrap();
    assert_eq!(key.debug_text(), "SessionKey { len: 16, redacted: true }");
}

#[test]
fn encrypt_and_decrypt_round_trip() {
    let key = SessionKey::from_printable(KEY).unwrap();
    let mut sender = CryptoSession::new(key.clone());
    let receiver = CryptoSession::new(key);
    let packet = sender.encrypt(0x0102_0304_0506_0708, b"mosh payload").unwrap();
    let (nonce, plaintext) = receiver.decrypt(&packet).unwrap();
    assert_eq!(nonce, 0x0102_0304_0506_0708);
    assert_eq!(plaintext, b"mosh payload");
}

#[test]
fn tampering_is_rejected() {
    let key = SessionKey::from_printable(KEY).unwrap();
    let mut sender = CryptoSession::new(key.clone());
    let receiver = CryptoSession::new(key);
    let mut packet = sender.encrypt(7, b"payload").unwrap();
    let last_byte = packet.len() - 1;
    packet[last_byte] ^= 1;
    assert!(matches!(receiver.decrypt(&packet), Err(CryptoError::Decrypt)));
}

#[test]
fn matches_ocb_golden_vector() {
    let key = SessionKey::from_bytes([0, 1, 2, 3, 4, 5, 6, 7, 8, 9, 10, 11, 12, 13, 14, 15]);
    let mut session = CryptoSession::new(key);
    let packet = session.encrypt(0x0102_0304_0506_0708, b"\x00\x64\x00\x63mosh payload").unwrap();
    let expected = [
        0x01, 0x02, 0x03, 0x04, 0x05, 0x06, 0x07, 0x08, 0x5f, 0xae, 0x9a, 0x89, 0xcc, 0x84, 0xc4, 0x27, 0x10, 0x51,
        0x35, 0xd5, 0xeb, 0x3c, 0xb0, 0x40, 0x0a, 0x81, 0xb8, 0x69, 0x10, 0x63, 0x65, 0x8f, 0x8b, 0xdf, 0xf3, 0xdb,
        0x54, 0xda, 0x4e, 0xef,
    ];
    assert_eq!(packet, expected);
}

#[test]
fn key_format_is_strict() {
    assert!(SessionKey::from_printable("short").is_err());
    assert!(SessionKey::from_printable("abcdefghijklmnopqrstu!").is_err());
}

fn crypto_pair() -> (CryptoSession, CryptoSession) {
    let key = SessionKey::from_bytes([7_u8; 16]);
    (CryptoSession::new(key.clone()), CryptoSession::new(key))
}

#[test]
fn encodes_mosh_timestamp_header() {
    let (mut sender, receiver) = crypto_pair();
    let datagram =
        Datagram::new(Direction::ToServer, SequenceNumber::new(3).unwrap(), 100, 99, b"payload".to_vec());
    let packet = encode_datagram(&mut sender, &datagram).unwrap();
    let decoded = decode_datagram(&receiver, &packet, Direction::ToServer).unwrap();
    assert_eq!(decoded, datagram);
}

#[test]
fn codec_tracks_replayed_sequence_numbers() {
    let (sender_crypto, receiver_crypto) = crypto_pair();
    let mut sender = DatagramCodec::new(sender_crypto, Direction::ToServer);
    let mut receiver = DatagramCodec::new(receiver_crypto, Direction::ToClient);
    let first = sender.encode(1, 2, b"first".to_vec()).unwrap();
    let second = sender.encode(3, 4, b"second".to_vec()).unwrap();
    assert_eq!(receiver.decode(&first).unwrap().disposition, ReceiveDisposition::Fresh);
    assert_eq!(receiver.decode(&second).unwrap().disposition, ReceiveDisposition::Fresh);
    assert_eq!(receiver.decode(&first).unwrap().disposition, ReceiveDisposition::Replayed);
}

#[test]
fn fragment_header_is_big_endian_and_round_trips() {
    let fragment = Fragment { id: 0x0102_0304_0506_0708, fragment_number: 3, final_fragment: true, contents: b"payload".to_vec() };
    let wire = fragment.encode().unwrap();
    assert_eq!(wire.len(), FRAGMENT_HEADER_LENGTH + 7);
    assert_eq!(&wire[..10], &[1, 2, 3, 4, 5, 6, 7, 8, 0x80, 3]);
    assert_eq!(Fragment::decode(&wire).unwrap(), fragment);
}

fn instruction_with(diff: Vec<u8>, old: u64, new: u64, ack: u64) -> TransportInstruction {
    TransportInstruction {
        protocol_version: Some(1),
        old_num: Some(old),
        new_num: Some(new),
        ack_num: Some(ack),
        throwaway_num: None,
        diff: Some(diff),
        chaff: None,
    }
}

#[test]
fn assembler_handles_reordering_and_duplicates() {
    let instruction = instruction_with((0_u8..=255).collect(), 8, 9, 7);
    let mut fragmenter = Fragmenter::default();
    let fragments = fragmenter.make_fragments(&instruction, 32).unwrap();
    assert!(fragments.len() > 1);

    let mut assembler = FragmentAssembler::default();
    let mut result = None;
    for fragment in fragments.iter().rev() {
        result = assembler.add_fragment(fragment.clone()).unwrap().or(result);
    }
    assert_eq!(result, Some(instruction.clone()));
    assert_eq!(assembler.add_fragment(fragments[0].clone()).unwrap(), None);
}

#[test]
fn conflicting_duplicate_is_rejected() {
    let first = Fragment { id: 1, fragment_number: 0, final_fragment: false, contents: vec![1] };
    let mut assembler = FragmentAssembler::default();
    assert!(assembler.add_fragment(first.clone()).unwrap().is_none());
    let mut duplicate = first;
    duplicate.contents = vec![2];
    assert!(assembler.add_fragment(duplicate).is_err());
}

#[test]
fn large_instruction_is_fragmented_and_reassembled() {
    let mut random_data = Vec::with_capacity(10000);
    let mut state: u32 = 1;
    for _ in 0..10000 {
        state = state.wrapping_mul(1103515245).wrapping_add(12345);
        random_data.push((state >> 16) as u8);
    }
    let instruction = instruction_with(random_data, 1, 2, 0);
    let mut fragmenter = Fragmenter::default();
    let fragments = fragmenter.make_fragments(&instruction, 1400).unwrap();
    assert!(fragments.len() > 3, "expected multiple fragments, got {}", fragments.len());
    let mut assembler = FragmentAssembler::default();
    let mut result = None;
    for fragment in &fragments {
        result = assembler.add_fragment(fragment.clone()).unwrap().or(result);
    }
    assert_eq!(result, Some(instruction));
}

#[test]
fn single_fragment_instruction_passes_through() {
    let instruction = instruction_with(b"small".to_vec(), 1, 2, 3);
    let mut fragmenter = Fragmenter::default();
    let fragments = fragmenter.make_fragments(&instruction, 1400).unwrap();
    assert_eq!(fragments.len(), 1);
    assert!(fragments[0].final_fragment);
    let mut assembler = FragmentAssembler::default();
    let result = assembler.add_fragment(fragments[0].clone()).unwrap();
    assert_eq!(result, Some(instruction));
}

#[test]
fn assembler_resets_on_new_instruction_id() {
    let f1 = Fragment { id: 1, fragment_number: 0, final_fragment: true, contents: vec![1] };
    let f2 = Fragment { id: 2, fragment_number: 0, final_fragment: true, contents: vec![2] };
    let mut assembler = FragmentAssembler::default();
    let r1 = assembler.add_fragment(f1).unwrap();
    assert!(r1.is_some());
    let r2 = assembler.add_fragment(f2).unwrap();
    assert!(r2.is_some());
}

#[test]
fn empty_diff_instruction_is_compressed_and_sent() {
    let instruction = instruction_with(Vec::new(), 5, 5, 5);
    let mut fragmenter = Fragmenter::default();
    let fragments = fragmenter.make_fragments(&instruction, 1400).unwrap();
    assert_eq!(fragments.len(), 1);
    let mut assembler = FragmentAssembler::default();
    let result = assembler.add_fragment(fragments[0].clone()).unwrap();
    assert_eq!(result, Some(instruction));
}

#[test]
fn assembler_waits_for_missing_fragments() {
    let instruction = instruction_with((0_u8..200).collect(), 1, 2, 0);
    let mut fragmenter = Fragmenter::default();
    let fragments = fragmenter.make_fragments(&instruction, 60).unwrap();
    assert!(fragments.len() >= 2, "need at least 2 fragments, got {}", fragments.len());
    let mut assembler = FragmentAssembler::default();
    for &i in &[0_usize, 0_usize] {
        assert!(assembler.add_fragment(fragments[i].clone()).unwrap().is_none());
    }
    let mut result = None;
    for frag in &fragments[1..] {
        result = assembler.add_fragment(frag.clone()).unwrap().or(result);
    }
    assert_eq!(result, Some(instruction));
}

#[test]
fn retransmitted_fragments_merge_across_attempts() {
    let instruction = instruction_with((0_u8..200).collect(), 1, 2, 0);
    let mut fragmenter = Fragmenter::default();
    let first_tx = fragmenter.make_fragments(&instruction, 60).unwrap();
    assert!(first_tx.len() >= 2);
    let mut assembler = FragmentAssembler::default();
    assembler.add_fragment(first_tx[0].clone()).unwrap();
    let mut result = None;
    for frag in &first_tx[1..] {
        result = assembler.add_fragment(frag.clone()).unwrap().or(result);
    }
    assert_eq!(result, Some(instruction));
}

#[test]
fn wire_fragments_reassemble_through_add_wire() {
    let instruction = instruction_with((0_u8..100).collect(), 3, 4, 2);
    let mut fragmenter = Fragmenter::default();
    let fragments = fragmenter.make_fragments(&instruction, 40).unwrap();
    let mut assembler = FragmentAssembler::default();
    let mut result = None;
    for fragment in &fragments {
        result = assembler.add_wire(&fragment.encode().unwrap()).unwrap().or(result);
    }
    assert_eq!(result, Some(instruction));
    assert!(Fragment::decode(&[1, 2, 3]).is_err());
}

#[test]
fn user_message_matches_proto2_extension_shape() {
    let message = UserMessage { instructions: vec![UserInstruction::Keystroke(b"ls\n".to_vec())] };
    let encoded = message.encode();
    assert_eq!(encoded, vec![0x0a, 0x07, 0x12, 0x05, 0x22, 0x03, b'l', b's', b'\n']);
    assert_eq!(UserMessage::decode(&encoded).unwrap(), message);
}

#[test]
fn host_message_round_trips_all_instruction_types() {
    let message = HostMessage {
        instructions: vec![
            HostInstruction::HostBytes(b"output".to_vec()),
            HostInstruction::Resize { width: 80, height: 24 },
            HostInstruction::EchoAck(42),
        ],
    };
    assert_eq!(HostMessage::decode(&message.encode()).unwrap(), message);
}

#[test]
fn transport_instruction_round_trips() {
    let message = TransportInstruction {
        protocol_version: Some(1),
        old_num: Some(4),
        new_num: Some(5),
        ack_num: Some(3),
        throwaway_num: None,
        diff: Some(vec![1, 2, 3]),
        chaff: Some(vec![4, 5]),
    };
    assert_eq!(TransportInstruction::decode(&message.encode()).unwrap(), message);
}

#[test]
fn resize_accepts_signed_int32_values() {
    let message = UserMessage { instructions: vec![UserInstruction::Resize { width: -1, height: 24 }] };
    assert_eq!(UserMessage::decode(&message.encode()).unwrap(), message);
}

#[test]
fn truncated_message_is_rejected() {
    assert!(TransportInstruction::decode(&[0x08]).is_err());
    assert!(UserMessage::decode(&[0x0a, 0x07, 0x12]).is_err());
}

#[test]
fn encodes_direction_in_high_bit() {
    let sequence = SequenceNumber::new(42).unwrap();
    let wire = sequence.to_wire(Direction::ToClient);
    assert_eq!(wire, DIRECTION_MASK | 42);
    assert_eq!(SequenceNumber::from_wire(wire), (Direction::ToClient, sequence));
}

#[test]
fn rejects_high_bit_as_plain_sequence() {
    assert!(SequenceNumber::new(DIRECTION_MASK).is_err());
}

#[test]
fn sequence_numbers_count_up() {
    let sequence = SequenceNumber::new(41).unwrap();
    assert_eq!(sequence.next().unwrap().value(), 42);
    assert!(SequenceNumber::max().next().is_err());
    assert_eq!(SequenceNumber::zero().value(), 0);
}

#[test]
fn timestamp_wraps_without_reserved_value() {
    assert_eq!(timestamp16_from(65_535), 0);
    assert_eq!(timestamp16_from(65_536), 0);
    assert_eq!(timestamp_diff(2, 65_534), 4);
}

#[test]
fn transport_checks_datagram_lengths() {
    assert!(check_outgoing(100, true).is_ok());
    assert!(check_outgoing(100, false).is_err());
    assert!(check_outgoing(5000, true).is_err());
    assert!(accepts_received_length(100));
    assert!(!accepts_received_length(5000));
}

#[test]
fn protocol_reports_its_status() {
    assert!(protocol_status().contains("encrypted"));
}

#[test]
fn assembler_gives_instruction_once_all_fragments_arrived_with_repeats() {
    let instruction = instruction_with((0_u8..=255).collect(), 3, 4, 2);
    let mut fragmenter = Fragmenter::default();
    let fragments = fragmenter.make_fragments(&instruction, 24).unwrap();
    let n = fragments.len();
    assert!(n > 2);
    // Arrivals: the last, the first twice, the last again, then the rest in order.
    let mut order = vec![n - 1, 0, 0, n - 1];
    order.extend(1..n - 1);
    let mut assembler = FragmentAssembler::default();
    for (q, &k) in order.iter().enumerate() {
        let result = assembler.add_fragment(fragments[k].clone()).unwrap();
        if q + 1 < order.len() {
            assert_eq!(result, None);
        } else {
            assert_eq!(result, Some(instruction.clone()));
        }
    }
}

#[test]
fn overlong_packet_is_refused() {
    let key = SessionKey::from_bytes([7u8; 16]);
    let session = CryptoSession::new(key);
    let packet = vec![0u8; (1 << 20) + 24];
    assert_eq!(session.decrypt(&packet), Err(CryptoError::Decrypt));
}
