//! Internet addresses and the endpoints that carry them.

use vstd::prelude::*;

verus! {

/// An IP address: the four octets of an IPv4 address, or the eight 16-bit
/// groups of an IPv6 address, most significant first.
#[derive(Clone, Copy, Debug, PartialEq, Eq, Structural)]
pub enum IpAddress {
    V4(u8, u8, u8, u8),
    V6(u16, u16, u16, u16, u16, u16, u16, u16),
}

impl IpAddress {
    pub open spec fn spec_is_ipv4(&self) -> bool {
        *self is V4
    }

    /// Whether this is an IPv4 address.
    #[verifier::when_used_as_spec(spec_is_ipv4)]
    pub fn is_ipv4(&self) -> (r: bool)
        ensures
            r == self.spec_is_ipv4(),
    {
        match self {
            IpAddress::V4(..) => true,
            IpAddress::V6(..) => false,
        }
    }

    /// The eight groups of an IPv6 address; of an IPv4 address, the groups of
    /// the IPv6 address that stands for it (`::ffff:a.b.c.d`).
    pub open spec fn groups(&self) -> Seq<u16> {
        match *self {
            IpAddress::V4(a, b, c, d) => seq![
                0u16,
                0u16,
                0u16,
                0u16,
                0u16,
                0xffffu16,
                (a * 256 + b) as u16,
                (c * 256 + d) as u16,
            ],
            IpAddress::V6(a, b, c, d, e, f, g, h) => seq![a, b, c, d, e, f, g, h],
        }
    }

    /// The IPv6 address made of eight groups.
    pub open spec fn of_groups(groups: Seq<u16>) -> IpAddress {
        IpAddress::V6(
            groups[0],
            groups[1],
            groups[2],
            groups[3],
            groups[4],
            groups[5],
            groups[6],
            groups[7],
        )
    }
}

/// A socket endpoint: an address and a port.
#[derive(Clone, Copy, Debug, PartialEq, Eq, Structural)]
pub struct ExternalAddress {
    pub ip: IpAddress,
    pub port: u16,
}

impl ExternalAddress {
    pub fn new(ip: IpAddress, port: u16) -> (r: Self)
        ensures
            r.ip == ip,
            r.port == port,
    {
        ExternalAddress { ip, port }
    }

    /// The address part.
    pub fn ip(&self) -> (r: IpAddress)
        ensures
            r == self.ip,
    {
        self.ip
    }

    /// The port part.
    pub fn port(&self) -> (r: u16)
        ensures
            r == self.port,
    {
        self.port
    }

    /// Whether the address part is an IPv4 address.
    pub fn is_ipv4(&self) -> (r: bool)
        ensures
            r == self.ip.is_ipv4(),
    {
        self.ip.is_ipv4()
    }
}

} // verus!
