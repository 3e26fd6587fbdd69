//! Network addresses as plain numbers.
use vstd::prelude::*;

verus! {

/// An IP address: the 32 bits of an IPv4 address, or the 128 bits of an IPv6
/// address, most significant octet first.
#[derive(Debug, Clone, Copy, PartialEq, Eq, Structural)]
pub enum IpAddr {
    V4(u32),
    V6(u128),
}

impl IpAddr {
    pub fn is_ipv4(&self) -> (r: bool)
        ensures
            r == (self is V4),
    {
        match self {
            IpAddr::V4(_) => true,
            IpAddr::V6(_) => false,
        }
    }
}

/// An address that a service advertises, with its standard text.
#[derive(Debug, Clone)]
pub struct AdvertisedAddress {
    pub ip: IpAddr,
    pub text: String,
}

} // verus!
