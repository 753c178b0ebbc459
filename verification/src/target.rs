//! Network addresses as plain values.

use vstd::prelude::*;

verus! {

/// An IP address, held as the integer that its octets spell in network order.
#[derive(Clone, Copy, Debug, PartialEq, Eq, Structural)]
pub enum IpAddress {
    V4(u32),
    V6(u128),
}

/// An IP address together with a TCP port.
#[derive(Clone, Copy, Debug, PartialEq, Eq, Structural)]
pub struct SocketAddress {
    pub ip: IpAddress,
    pub port: u16,
}

impl SocketAddress {
    pub fn new(ip: IpAddress, port: u16) -> (addr: SocketAddress)
        ensures
            addr == (SocketAddress { ip, port }),
    {
        SocketAddress { ip, port }
    }

    /// The loopback address `127.0.0.1` with the given port.
    pub fn loopback(port: u16) -> (addr: SocketAddress)
        ensures
            addr == (SocketAddress { ip: IpAddress::V4(0x7f00_0001), port }),
    {
        SocketAddress { ip: IpAddress::V4(0x7f00_0001), port }
    }

    /// Whether the address belongs to the IPv4 family; a driver opens its
    /// socket in the family that this reports.
    pub fn is_ipv4(&self) -> (yes: bool)
        ensures
            yes == (self.ip is V4),
    {
        match self.ip {
            IpAddress::V4(_) => true,
            IpAddress::V6(_) => false,
        }
    }
}

/// A backend address as it is configured.
#[derive(Clone, Copy, Debug, PartialEq, Eq, Structural)]
pub struct Target {
    ip: IpAddress,
    port: u16,
}

impl Target {
    /// The socket address that the target stands for.
    pub closed spec fn address(&self) -> SocketAddress {
        SocketAddress { ip: self.ip, port: self.port }
    }

    pub fn sock_addr(&self) -> (addr: SocketAddress)
        ensures
            addr == self.address(),
    {
        SocketAddress { ip: self.ip, port: self.port }
    }

    pub fn from_sock_addr(address: &SocketAddress) -> (target: Target)
        ensures
            target.address() == *address,
    {
        Target { ip: address.ip, port: address.port }
    }

    /// Two targets with the same address are the same target.
    pub proof fn lemma_address_identifies(a: Target, b: Target)
        requires
            a.address() == b.address(),
        ensures
            a == b,
    {
    }
}

} // verus!
