//! Mosh datagrams: a timestamp header and a payload, sealed under the session key with the
//! direction and sequence number as nonce.

use vstd::prelude::*;

use crate::protocol::crypto::{spec_open_packet, spec_seal_packet, block_count, CryptoError, CryptoSession, MAX_ENCRYPTED_BLOCKS, MAX_PLAINTEXT_LENGTH};
use crate::protocol::sequence::{spec_wire_bit, Direction, SequenceError, SequenceNumber, DIRECTION_MASK, SEQUENCE_MASK};
use crate::protocol::wire::{be_u16_bytes, be_u16_value, lemma_be_u16_round_trip};

verus! {

pub const TIMESTAMP_HEADER_LENGTH: usize = 4;

/// One datagram.
#[derive(Debug, Clone, PartialEq, Eq)]
pub struct Datagram {
    pub direction: Direction,
    pub sequence: SequenceNumber,
    pub timestamp: u16,
    pub timestamp_reply: u16,
    pub payload: Vec<u8>,
}

/// The value of a datagram.
pub struct DatagramModel {
    pub direction: Direction,
    pub sequence: u64,
    pub timestamp: u16,
    pub timestamp_reply: u16,
    pub payload: Seq<u8>,
}

impl View for Datagram {
    type V = DatagramModel;

    open spec fn view(&self) -> DatagramModel {
        DatagramModel {
            direction: self.direction,
            sequence: self.sequence.spec_value(),
            timestamp: self.timestamp,
            timestamp_reply: self.timestamp_reply,
            payload: self.payload@,
        }
    }
}

/// Errors of datagram handling.
#[derive(Debug, PartialEq, Eq)]
pub enum DatagramError {
    Crypto(CryptoError),
    InvalidPlaintext(String),
    DirectionMismatch { expected: Direction, actual: Direction },
    Sequence(SequenceError),
}

/// The plaintext of a datagram: both timestamps, big-endian, then the payload.
pub open spec fn spec_plaintext(d: DatagramModel) -> Seq<u8> {
    be_u16_bytes(d.timestamp) + be_u16_bytes(d.timestamp_reply) + d.payload
}

/// The direction carried in the high bit of a wire sequence number.
pub open spec fn direction_of_wire(w: u64) -> Direction {
    if w < DIRECTION_MASK { Direction::ToServer } else { Direction::ToClient }
}

/// The datagram that a wire sequence number and a plaintext of at least a header hold.
pub open spec fn spec_datagram_of(w: u64, plaintext: Seq<u8>) -> DatagramModel {
    DatagramModel {
        direction: direction_of_wire(w),
        sequence: (w % 0x8000_0000_0000_0000) as u64,
        timestamp: be_u16_value(plaintext[0], plaintext[1]),
        timestamp_reply: be_u16_value(plaintext[2], plaintext[3]),
        payload: plaintext.skip(4),
    }
}

/// Why a packet was not received as a datagram.
pub enum DatagramFault {
    Unopened,
    DirectionMismatch { expected: Direction, actual: Direction },
    Truncated,
}

/// The datagram that `packet` carries under `key` toward `expected`, or why there is none.
pub open spec fn spec_receive_datagram(key: Seq<u8>, packet: Seq<u8>, expected: Direction) -> Result<DatagramModel, DatagramFault> {
    match spec_open_packet(key, packet) {
        None => Err(DatagramFault::Unopened),
        Some((w, p)) => if direction_of_wire(w) != expected {
            Err(DatagramFault::DirectionMismatch { expected, actual: direction_of_wire(w) })
        } else if p.len() < TIMESTAMP_HEADER_LENGTH {
            Err(DatagramFault::Truncated)
        } else {
            Ok(spec_datagram_of(w, p))
        },
    }
}

/// Whether the exec result `r` is the spec result `s`.
pub open spec fn datagram_result_is(r: Result<Datagram, DatagramError>, s: Result<DatagramModel, DatagramFault>) -> bool {
    match (r, s) {
        (Ok(d), Ok(m)) => d@ == m,
        (Err(DatagramError::Crypto(_)), Err(DatagramFault::Unopened)) => true,
        (Err(DatagramError::DirectionMismatch { expected, actual }), Err(DatagramFault::DirectionMismatch { expected: e, actual: a })) => expected == e && actual == a,
        (Err(DatagramError::InvalidPlaintext(m)), Err(DatagramFault::Truncated)) => m@ == "timestamp header is truncated"@,
        _ => false,
    }
}

/// Reading back the plaintext of a datagram, sent with its own wire sequence number, gives
/// the datagram.
pub proof fn lemma_plaintext_round_trip(d: DatagramModel)
    requires
        d.sequence <= SEQUENCE_MASK,
    ensures
        spec_plaintext(d).len() >= TIMESTAMP_HEADER_LENGTH,
        spec_datagram_of((d.sequence + spec_wire_bit(d.direction)) as u64, spec_plaintext(d)) == d,
{
    let p = spec_plaintext(d);
    lemma_be_u16_round_trip(d.timestamp);
    lemma_be_u16_round_trip(d.timestamp_reply);
    assert(p[0] == be_u16_bytes(d.timestamp)[0] && p[1] == be_u16_bytes(d.timestamp)[1]);
    assert(p[2] == be_u16_bytes(d.timestamp_reply)[0] && p[3] == be_u16_bytes(d.timestamp_reply)[1]);
    assert(p.skip(4) =~= d.payload);
}

impl Datagram {
    pub fn new(direction: Direction, sequence: SequenceNumber, timestamp: u16, timestamp_reply: u16, payload: Vec<u8>) -> (r: Self)
        ensures
            r.direction == direction,
            r.sequence == sequence,
            r.timestamp == timestamp,
            r.timestamp_reply == timestamp_reply,
            r.payload@ == payload@,
    {
        Datagram { direction, sequence, timestamp, timestamp_reply, payload }
    }

    fn encode_plaintext(&self) -> (r: Result<Vec<u8>, DatagramError>)
        ensures
            TIMESTAMP_HEADER_LENGTH + self.payload@.len() > MAX_PLAINTEXT_LENGTH ==> (r matches Err(DatagramError::InvalidPlaintext(m))
                && m@ == "payload exceeds the Mosh datagram limit"@),
            TIMESTAMP_HEADER_LENGTH + self.payload@.len() <= MAX_PLAINTEXT_LENGTH ==> r is Ok && r->Ok_0@ == spec_plaintext(self@),
    {
        if self.payload.len() > MAX_PLAINTEXT_LENGTH - TIMESTAMP_HEADER_LENGTH {
            return Err(DatagramError::InvalidPlaintext("payload exceeds the Mosh datagram limit".to_owned()));
        }
        let mut plaintext: Vec<u8> = Vec::new();
        plaintext.push((self.timestamp >> 8u16) as u8);
        plaintext.push(self.timestamp as u8);
        plaintext.push((self.timestamp_reply >> 8u16) as u8);
        plaintext.push(self.timestamp_reply as u8);
        crate::protocol::proto::extend_bytes(&mut plaintext, self.payload.as_slice());
        assert(plaintext@ =~= spec_plaintext(self@));
        Ok(plaintext)
    }

    fn decode_plaintext(direction: Direction, sequence: SequenceNumber, plaintext: &[u8]) -> (r: Result<Self, DatagramError>)
        ensures
            plaintext@.len() < TIMESTAMP_HEADER_LENGTH ==> (r matches Err(DatagramError::InvalidPlaintext(m))
                && m@ == "timestamp header is truncated"@),
            plaintext@.len() >= TIMESTAMP_HEADER_LENGTH ==> r is Ok && r->Ok_0@ == (DatagramModel {
                direction,
                sequence: sequence.spec_value(),
                timestamp: be_u16_value(plaintext@[0], plaintext@[1]),
                timestamp_reply: be_u16_value(plaintext@[2], plaintext@[3]),
                payload: plaintext@.skip(4),
            }),
    {
        if plaintext.len() < TIMESTAMP_HEADER_LENGTH {
            return Err(DatagramError::InvalidPlaintext("timestamp header is truncated".to_owned()));
        }
        let timestamp: u16 = ((plaintext[0] as u16) << 8u16) | (plaintext[1] as u16);
        let timestamp_reply: u16 = ((plaintext[2] as u16) << 8u16) | (plaintext[3] as u16);
        let payload = crate::protocol::proto::copy_range(plaintext, TIMESTAMP_HEADER_LENGTH, plaintext.len());
        assert(payload@ =~= plaintext@.skip(4));
        Ok(Datagram { direction, sequence, timestamp, timestamp_reply, payload })
    }
}

pub fn encode_datagram(crypto: &mut CryptoSession, datagram: &Datagram) -> (r: Result<Vec<u8>, DatagramError>)
    ensures
        final(crypto).key() == old(crypto).key(),
        TIMESTAMP_HEADER_LENGTH + datagram.payload@.len() > MAX_PLAINTEXT_LENGTH ==> (r matches Err(DatagramError::InvalidPlaintext(m))
            && m@ == "payload exceeds the Mosh datagram limit"@)
            && final(crypto).blocks_encrypted() == old(crypto).blocks_encrypted(),
        TIMESTAMP_HEADER_LENGTH + datagram.payload@.len() <= MAX_PLAINTEXT_LENGTH ==> {
            let plaintext = spec_plaintext(datagram@);
            let wire = (datagram@.sequence + spec_wire_bit(datagram.direction)) as u64;
            if old(crypto).blocks_encrypted() + block_count(plaintext.len()) > MAX_ENCRYPTED_BLOCKS {
                (r matches Err(DatagramError::Crypto(CryptoError::KeyUsageLimit)))
                    && final(crypto).blocks_encrypted() == old(crypto).blocks_encrypted()
            } else {
                r is Ok && r->Ok_0@ == spec_seal_packet(old(crypto).key(), wire, plaintext)
                    && final(crypto).blocks_encrypted() == old(crypto).blocks_encrypted() + block_count(plaintext.len())
            }
        },
        r matches Ok(packet) ==> spec_receive_datagram(old(crypto).key(), packet@, datagram.direction)
            == Ok::<DatagramModel, DatagramFault>(datagram@),
{
    let plaintext = match datagram.encode_plaintext() {
        Ok(p) => p,
        Err(e) => return Err(e),
    };
    let sequence = datagram.sequence;
    proof {
        use_type_invariant(&sequence);
        sequence.lemma_wf_bound();
    }
    let wire = sequence.to_wire(datagram.direction);
    let r = match crypto.encrypt(wire, plaintext.as_slice()) {
        Ok(packet) => Ok(packet),
        Err(e) => Err(DatagramError::Crypto(e)),
    };
    proof {
        lemma_plaintext_round_trip(datagram@);
    }
    r
}

pub fn decode_datagram(crypto: &CryptoSession, packet: &[u8], expected_direction: Direction) -> (r: Result<Datagram, DatagramError>)
    ensures
        datagram_result_is(r, spec_receive_datagram(crypto.key(), packet@, expected_direction)),
{
    let (wire_sequence, plaintext) = match crypto.decrypt(packet) {
        Ok(opened) => opened,
        Err(e) => return Err(DatagramError::Crypto(e)),
    };
    let (direction, sequence) = SequenceNumber::from_wire(wire_sequence);
    if direction != expected_direction {
        return Err(DatagramError::DirectionMismatch { expected: expected_direction, actual: direction });
    }
    Datagram::decode_plaintext(direction, sequence, plaintext.as_slice())
}

/// Whether a received datagram is new or one seen before.
#[derive(Debug, Clone, Copy, PartialEq, Eq, Structural)]
pub enum ReceiveDisposition {
    Fresh,
    Replayed,
}

/// A received datagram and whether it is new.
#[derive(Debug, Clone, PartialEq, Eq)]
pub struct ReceivedDatagram {
    pub datagram: Datagram,
    pub disposition: ReceiveDisposition,
}

/// Sends datagrams with increasing sequence numbers and tells replayed ones apart.
pub struct DatagramCodec {
    crypto: CryptoSession,
    send_direction: Direction,
    receive_direction: Direction,
    next_send: SequenceNumber,
    expected_receive: SequenceNumber,
}

/// The other direction.
pub open spec fn opposite(direction: Direction) -> Direction {
    match direction {
        Direction::ToServer => Direction::ToClient,
        Direction::ToClient => Direction::ToServer,
    }
}

impl DatagramCodec {
    pub closed spec fn key(&self) -> Seq<u8> {
        self.crypto.key()
    }

    pub closed spec fn blocks_encrypted(&self) -> u64 {
        self.crypto.blocks_encrypted()
    }

    pub closed spec fn send_direction(&self) -> Direction {
        self.send_direction
    }

    pub closed spec fn receive_direction(&self) -> Direction {
        self.receive_direction
    }

    /// The sequence number of the next datagram sent.
    pub closed spec fn next_send(&self) -> u64 {
        self.next_send.spec_value()
    }

    /// The lowest sequence number that counts as fresh.
    pub closed spec fn expected_receive(&self) -> u64 {
        self.expected_receive.spec_value()
    }

    pub fn new(crypto: CryptoSession, send_direction: Direction) -> (r: Self)
        ensures
            r.key() == crypto.key(),
            r.blocks_encrypted() == crypto.blocks_encrypted(),
            r.send_direction() == send_direction,
            r.receive_direction() == opposite(send_direction),
            r.next_send() == 0,
            r.expected_receive() == 0,
    {
        let receive_direction = match send_direction {
            Direction::ToServer => Direction::ToClient,
            Direction::ToClient => Direction::ToServer,
        };
        DatagramCodec {
            crypto,
            send_direction,
            receive_direction,
            next_send: SequenceNumber::zero(),
            expected_receive: SequenceNumber::zero(),
        }
    }

    pub fn encode(&mut self, timestamp: u16, timestamp_reply: u16, payload: Vec<u8>) -> (r: Result<Vec<u8>, DatagramError>)
        ensures
            final(self).key() == old(self).key(),
            final(self).send_direction() == old(self).send_direction(),
            final(self).receive_direction() == old(self).receive_direction(),
            final(self).expected_receive() == old(self).expected_receive(),
            old(self).next_send() == SEQUENCE_MASK ==> (r matches Err(DatagramError::Sequence(SequenceError::Exhausted)))
                && final(self).next_send() == old(self).next_send()
                && final(self).blocks_encrypted() == old(self).blocks_encrypted(),
            old(self).next_send() < SEQUENCE_MASK ==> final(self).next_send() == old(self).next_send() + 1,
            ({
                let d = DatagramModel {
                    direction: old(self).send_direction(),
                    sequence: old(self).next_send(),
                    timestamp,
                    timestamp_reply,
                    payload: payload@,
                };
                old(self).next_send() < SEQUENCE_MASK ==> {
                    &&& TIMESTAMP_HEADER_LENGTH + payload@.len() > MAX_PLAINTEXT_LENGTH ==> (r matches Err(DatagramError::InvalidPlaintext(_)))
                    &&& TIMESTAMP_HEADER_LENGTH + payload@.len() <= MAX_PLAINTEXT_LENGTH
                        && old(self).blocks_encrypted() + block_count(spec_plaintext(d).len()) <= MAX_ENCRYPTED_BLOCKS
                        ==> r is Ok && r->Ok_0@ == spec_seal_packet(
                            old(self).key(),
                            (d.sequence + spec_wire_bit(d.direction)) as u64,
                            spec_plaintext(d),
                        )
                    &&& r matches Ok(packet) ==> spec_receive_datagram(old(self).key(), packet@, d.direction) == Ok::<DatagramModel, DatagramFault>(d)
                }
            }),
    {
        let datagram = Datagram::new(self.send_direction, self.next_send, timestamp, timestamp_reply, payload);
        self.next_send = match self.next_send.next() {
            Ok(n) => n,
            Err(e) => return Err(DatagramError::Sequence(e)),
        };
        encode_datagram(&mut self.crypto, &datagram)
    }

    pub fn decode(&mut self, packet: &[u8]) -> (r: Result<ReceivedDatagram, DatagramError>)
        ensures
            final(self).key() == old(self).key(),
            final(self).blocks_encrypted() == old(self).blocks_encrypted(),
            final(self).send_direction() == old(self).send_direction(),
            final(self).receive_direction() == old(self).receive_direction(),
            final(self).next_send() == old(self).next_send(),
            match spec_receive_datagram(old(self).key(), packet@, old(self).receive_direction()) {
                Err(f) => datagram_result_is(Err(r->Err_0), Err(f)) && r is Err
                    && final(self).expected_receive() == old(self).expected_receive(),
                Ok(d) => if d.sequence < old(self).expected_receive() {
                    r is Ok && r->Ok_0.datagram@ == d && r->Ok_0.disposition == ReceiveDisposition::Replayed
                        && final(self).expected_receive() == old(self).expected_receive()
                } else if d.sequence == SEQUENCE_MASK {
                    (r matches Err(DatagramError::Sequence(SequenceError::Exhausted)))
                        && final(self).expected_receive() == old(self).expected_receive()
                } else {
                    r is Ok && r->Ok_0.datagram@ == d && r->Ok_0.disposition == ReceiveDisposition::Fresh
                        && final(self).expected_receive() == d.sequence + 1
                },
            },
    {
        let datagram = match decode_datagram(&self.crypto, packet, self.receive_direction) {
            Ok(d) => d,
            Err(e) => return Err(e),
        };
        let disposition = if datagram.sequence.value() < self.expected_receive.value() {
            ReceiveDisposition::Replayed
        } else {
            self.expected_receive = match datagram.sequence.next() {
                Ok(n) => n,
                Err(e) => return Err(DatagramError::Sequence(e)),
            };
            ReceiveDisposition::Fresh
        };
        Ok(ReceivedDatagram { datagram, disposition })
    }
}

} // verus!
