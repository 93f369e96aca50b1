//! Network addresses, as plain values.

use vstd::prelude::*;

verus! {

/// The IPv4 address 127.0.0.1, as a number.
pub const LOCALHOST_V4: u32 = 0x7f00_0001u32;

/// A socket address: an IP address and a port.
#[derive(Clone, Copy, Debug, PartialEq, Eq, Structural)]
pub enum NetAddr {
    /// An IPv4 address (the four octets, most significant first) and a port.
    V4 { ip: u32, port: u16 },
    /// An IPv6 address (the sixteen octets, most significant first), a
    /// port, the flow label and the scope id.
    V6 { ip6: u128, port: u16, flowinfo: u32, scope_id: u32 },
}

/// The port of an address.
pub open spec fn spec_port(a: NetAddr) -> u16 {
    match a {
        NetAddr::V4 { port, .. } => port,
        NetAddr::V6 { port, .. } => port,
    }
}

/// The address with its port replaced.
pub open spec fn spec_with_port(a: NetAddr, port: u16) -> NetAddr {
    match a {
        NetAddr::V4 { ip, .. } => NetAddr::V4 { ip, port },
        NetAddr::V6 { ip6, flowinfo, scope_id, .. } => NetAddr::V6 { ip6, port, flowinfo, scope_id },
    }
}

/// Whether the IP of an address is 127.0.0.1.
pub open spec fn spec_is_localhost_ip(a: NetAddr) -> bool {
    a matches NetAddr::V4 { ip, .. } && ip == LOCALHOST_V4
}

/// The errors of sending to a node.
#[derive(Debug)]
pub enum NetError {
    NodeNotFound,
    Disconnected,
}

impl NetAddr {
    /// Returns the port.
    pub fn port(&self) -> (p: u16)
        ensures
            p == spec_port(*self),
    {
        match self {
            NetAddr::V4 { port, .. } => *port,
            NetAddr::V6 { port, .. } => *port,
        }
    }

    /// Replaces the port.
    pub fn set_port(&mut self, port: u16)
        ensures
            *final(self) == spec_with_port(*old(self), port),
    {
        *self = match *self {
            NetAddr::V4 { ip, .. } => NetAddr::V4 { ip, port },
            NetAddr::V6 { ip6, flowinfo, scope_id, .. } => NetAddr::V6 { ip6, port, flowinfo, scope_id },
        };
    }

    /// The address 127.0.0.1 with the given port.
    pub fn localhost(port: u16) -> (a: NetAddr)
        ensures
            a == (NetAddr::V4 { ip: LOCALHOST_V4, port }),
    {
        NetAddr::V4 { ip: LOCALHOST_V4, port }
    }

    /// Whether the IP of the address is 127.0.0.1.
    pub fn is_localhost_ip(&self) -> (r: bool)
        ensures
            r == spec_is_localhost_ip(*self),
    {
        match self {
            NetAddr::V4 { ip, .. } => *ip == LOCALHOST_V4,
            NetAddr::V6 { .. } => false,
        }
    }
}

/// Whether `other` is this node's own address: the address it listens on,
/// or 127.0.0.1 with the same port.
pub open spec fn spec_is_my_addr(my_addr: NetAddr, other: NetAddr) -> bool {
    other == my_addr || other == (NetAddr::V4 { ip: LOCALHOST_V4, port: spec_port(my_addr) })
}

/// Whether `other` is this node's own address.
pub fn is_my_addr(my_addr: &NetAddr, other: &NetAddr) -> (r: bool)
    ensures
        r == spec_is_my_addr(*my_addr, *other),
{
    let local = NetAddr::localhost(my_addr.port());
    *other == *my_addr || *other == local
}

} // verus!
