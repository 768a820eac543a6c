use vstd::prelude::*;

verus! {

/// Bit that carries the direction of a datagram in its wire sequence number.
pub const DIRECTION_MASK: u64 = 0x8000_0000_0000_0000u64;

/// Bits that carry the sequence number itself.
pub const SEQUENCE_MASK: u64 = 0x7fff_ffff_ffff_ffffu64;

/// Which way a datagram travels.
#[derive(Debug, Clone, Copy, PartialEq, Eq, Structural)]
pub enum Direction {
    ToServer,
    ToClient,
}

/// The wire bit of a direction.
pub open spec fn spec_wire_bit(direction: Direction) -> u64 {
    match direction {
        Direction::ToServer => 0,
        Direction::ToClient => DIRECTION_MASK,
    }
}

impl Direction {
    pub fn as_wire_bit(self) -> (bit: u64)
        ensures
            bit == spec_wire_bit(self),
    {
        match self {
            Direction::ToServer => 0,
            Direction::ToClient => DIRECTION_MASK,
        }
    }
}

/// A 63-bit datagram sequence number.
#[derive(Debug, Clone, Copy, PartialEq, Eq, Structural)]
pub struct SequenceNumber(u64);

/// Errors of sequence-number handling.
#[derive(Debug, Clone, Copy, PartialEq, Eq, Structural)]
pub enum SequenceError {
    OutOfRange(u64),
    Exhausted,
}

impl SequenceNumber {
    /// The sequence number as an integer.
    pub closed spec fn spec_value(self) -> u64 {
        self.0
    }

    /// Every sequence number keeps the direction bit clear.
    #[verifier::type_invariant]
    pub closed spec fn wf(self) -> bool {
        self.0 <= SEQUENCE_MASK
    }

    /// A well-formed sequence number fits in 63 bits.
    pub proof fn lemma_wf_bound(self)
        requires
            self.wf(),
        ensures
            self.spec_value() <= SEQUENCE_MASK,
    {
    }

    pub fn zero() -> (s: Self)
        ensures
            s.spec_value() == 0,
            s.wf(),
    {
        SequenceNumber(0)
    }

    pub fn max() -> (s: Self)
        ensures
            s.spec_value() == SEQUENCE_MASK,
            s.wf(),
    {
        SequenceNumber(SEQUENCE_MASK)
    }

    pub fn new(value: u64) -> (r: Result<Self, SequenceError>)
        ensures
            value <= SEQUENCE_MASK ==> r is Ok && r->Ok_0.spec_value() == value && r->Ok_0.wf(),
            value > SEQUENCE_MASK ==> r == Err::<Self, SequenceError>(SequenceError::OutOfRange(value)),
    {
        if value & DIRECTION_MASK != 0 {
            assert(value & DIRECTION_MASK != 0 ==> value > SEQUENCE_MASK) by (bit_vector);
            return Err(SequenceError::OutOfRange(value));
        }
        assert(value & 0x8000_0000_0000_0000u64 == 0 ==> value <= 0x7fff_ffff_ffff_ffffu64) by (bit_vector);
        Ok(SequenceNumber(value))
    }

    pub fn from_wire(value: u64) -> (r: (Direction, Self))
        ensures
            r.0 == (if value < DIRECTION_MASK { Direction::ToServer } else { Direction::ToClient }),
            r.1.spec_value() == value % 0x8000_0000_0000_0000,
            r.1.wf(),
    {
        let direction = if value & DIRECTION_MASK == 0 {
            Direction::ToServer
        } else {
            Direction::ToClient
        };
        assert((value & 0x8000_0000_0000_0000u64 == 0) == (value < 0x8000_0000_0000_0000u64)) by (bit_vector);
        assert(value & 0x7fff_ffff_ffff_ffffu64 == value % 0x8000_0000_0000_0000u64) by (bit_vector);
        (direction, SequenceNumber(value & SEQUENCE_MASK))
    }

    pub fn value(self) -> (v: u64)
        ensures
            v == self.spec_value(),
            v <= SEQUENCE_MASK,
    {
        proof {
            use_type_invariant(&self);
        }
        self.0
    }

    pub fn to_wire(self, direction: Direction) -> (w: u64)
        ensures
            w == self.spec_value() + spec_wire_bit(direction),
    {
        proof {
            use_type_invariant(&self);
        }
        let bit = direction.as_wire_bit();
        let v = self.0;
        assert(v <= 0x7fff_ffff_ffff_ffffu64 ==> v | 0 == v) by (bit_vector);
        assert(v <= 0x7fff_ffff_ffff_ffffu64 ==> v | 0x8000_0000_0000_0000u64 == v + 0x8000_0000_0000_0000u64) by (bit_vector);
        v | bit
    }

    pub fn next(self) -> (r: Result<Self, SequenceError>)
        ensures
            self.spec_value() == SEQUENCE_MASK ==> r == Err::<Self, SequenceError>(SequenceError::Exhausted),
            self.spec_value() < SEQUENCE_MASK ==> r is Ok && r->Ok_0.spec_value() == self.spec_value() + 1 && r->Ok_0.wf(),
    {
        proof {
            use_type_invariant(&self);
        }
        if self.0 == SEQUENCE_MASK {
            return Err(SequenceError::Exhausted);
        }
        Ok(SequenceNumber(self.0 + 1))
    }
}

/// Reading back a wire sequence number gives the direction and number it was written with.
pub proof fn lemma_wire_round_trip(sequence: SequenceNumber, direction: Direction)
    requires
        sequence.wf(),
    ensures
        ({
            let w = sequence.spec_value() + spec_wire_bit(direction);
            &&& (if w < DIRECTION_MASK { Direction::ToServer } else { Direction::ToClient }) == direction
            &&& w % 0x8000_0000_0000_0000 == sequence.spec_value()
        }),
{
}

} // verus!
