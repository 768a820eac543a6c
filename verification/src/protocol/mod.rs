pub mod fragment;
pub mod reassembly;
pub mod proto;
pub mod sequence;
pub mod statesync;
pub mod wire;
pub mod crypto;
pub mod datagram;
pub mod timing;
pub mod transport;

use vstd::prelude::*;

verus! {

/// What the protocol layer says of its own state.
pub fn protocol_status() -> (s: &'static str)
    ensures
        s@ == "interactive encrypted session implemented locally; interoperability unverified"@,
{
    "interactive encrypted session implemented locally; interoperability unverified"
}

} // verus!
