//! Millisecond timestamps of the datagram header.

use vstd::prelude::*;

verus! {

#[verifier::external_type_specification]
#[verifier::external_body]
pub struct ExInstant(std::time::Instant);

/// `Duration::clone` (`Duration` is `Copy`, its `Clone` derived). Claims: the clone equals
/// the original.
pub assume_specification[ <std::time::Duration as Clone>::clone ](d: &std::time::Duration) -> (r: std::time::Duration)
    ensures
        r == *d,
;

/// How long to wait for an acknowledgement before sending again.
#[derive(Debug, Clone, Copy, PartialEq, Eq)]
pub struct RetransmissionTimeout(pub std::time::Duration);

/// Reads the monotonic clock (`std::time::Instant::now`). Nothing is claimed of the instant.
#[verifier::external_body]
fn instant_now() -> std::time::Instant {
    std::time::Instant::now()
}

/// The whole milliseconds since `origin` (`Instant::elapsed`, then `Duration::as_millis`),
/// cut to 64 bits. Nothing is claimed of the value: it depends on the clock.
#[verifier::external_body]
fn millis_since(origin: &std::time::Instant) -> u64 {
    origin.elapsed().as_millis() as u64
}

/// A 16-bit timestamp from a millisecond count: the count modulo 65536, with the value 65535
/// (reserved for "no timestamp") turned into 0.
pub open spec fn spec_timestamp16(timestamp: u64) -> u16 {
    let value = (timestamp % 65536) as u16;
    if value == 0xffff { 0 } else { value }
}

pub fn timestamp16_from(timestamp: u64) -> (t: u16)
    ensures
        t == spec_timestamp16(timestamp),
        t != 0xffff,
{
    let value = (timestamp % 65536) as u16;
    if value == 0xffff {
        0
    } else {
        value
    }
}

/// How far `newer` is past `older` on the 16-bit clock, modulo 65536.
pub fn timestamp_diff(newer: u16, older: u16) -> (d: u16)
    ensures
        d == (newer - older + 65536) % 65536,
{
    newer.wrapping_sub(older)
}

/// Milliseconds since the clock was made.
#[derive(Debug, Clone, Copy)]
pub struct TimestampClock {
    origin: std::time::Instant,
}

impl TimestampClock {
    pub fn new() -> (r: Self) {
        TimestampClock { origin: instant_now() }
    }

    pub fn timestamp(&self) -> u64 {
        millis_since(&self.origin)
    }

    pub fn timestamp16(&self) -> (t: u16)
        ensures
            t != 0xffff,
    {
        timestamp16_from(self.timestamp())
    }
}

} // verus!
