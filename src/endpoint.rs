//! The sender's address as the receiver sees it.
use vstd::prelude::*;

verus! {

/// An IP address and port. An IPv4 address is held in the low 32 bits of `ip`.
#[derive(Debug, Clone, Copy, PartialEq, Eq, Structural)]
pub struct Endpoint {
    pub ip: u128,
    pub is_v6: bool,
    pub port: u16,
}

impl Endpoint {
    pub fn new(ip: u128, is_v6: bool, port: u16) -> (r: Endpoint)
        ensures
            r == (Endpoint { ip, is_v6, port }),
    {
        Endpoint { ip, is_v6, port }
    }
}

} // verus!
