//! A resolved candidate destination: one (address, port) pair.

use vstd::prelude::*;

verus! {

/// One candidate destination for the race: an IP address together with a
/// port. The address is carried as its numeric value (a 32-bit value widened
/// to 128 bits for IPv4, the full 128 bits for IPv6) so that the race logic
/// can speak about endpoints as plain values.
#[derive(Clone, Copy, PartialEq, Eq, Structural, Debug)]
pub struct Endpoint {
    /// The numeric value of the IP address.
    pub addr: u128,
    /// Whether `addr` is an IPv6 address (otherwise IPv4).
    pub v6: bool,
    /// The TCP port to dial.
    pub port: u16,
}

impl Endpoint {
    /// Builds an IPv4 endpoint from the address' numeric value.
    pub fn v4(addr: u32, port: u16) -> (r: Endpoint)
        ensures
            r == (Endpoint { addr: addr as u128, v6: false, port }),
    {
        Endpoint { addr: addr as u128, v6: false, port }
    }

    /// Builds an IPv6 endpoint from the address' numeric value.
    pub fn v6(addr: u128, port: u16) -> (r: Endpoint)
        ensures
            r == (Endpoint { addr, v6: true, port }),
    {
        Endpoint { addr, v6: true, port }
    }
}

} // verus!
