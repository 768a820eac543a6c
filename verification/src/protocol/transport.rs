//! What the UDP transport decides about the datagrams it sends and receives.

use vstd::prelude::*;

use crate::protocol::crypto::MAX_DATAGRAM_LENGTH;
use crate::protocol::datagram::DatagramError;

verus! {

/// Errors of the encrypted UDP transport.
#[derive(Debug)]
pub enum TransportError {
    Io(std::io::Error),
    Datagram(DatagramError),
    OversizeDatagram,
    MissingRemote,
}

/// Whether a datagram of `length` bytes may go out to the remote end, and if not, why: one
/// over the datagram limit is refused first, then a send with no remote address.
pub fn check_outgoing(length: usize, remote_known: bool) -> (r: Result<(), TransportError>)
    ensures
        length > MAX_DATAGRAM_LENGTH ==> (r matches Err(TransportError::OversizeDatagram)),
        length <= MAX_DATAGRAM_LENGTH && !remote_known ==> (r matches Err(TransportError::MissingRemote)),
        length <= MAX_DATAGRAM_LENGTH && remote_known ==> r is Ok,
{
    if length > MAX_DATAGRAM_LENGTH {
        return Err(TransportError::OversizeDatagram);
    }
    if !remote_known {
        return Err(TransportError::MissingRemote);
    }
    Ok(())
}

/// Whether a received datagram of `length` bytes is kept; longer ones than the limit are
/// dropped unread.
pub fn accepts_received_length(length: usize) -> (b: bool)
    ensures
        b == (length <= MAX_DATAGRAM_LENGTH),
{
    length <= MAX_DATAGRAM_LENGTH
}

} // verus!
