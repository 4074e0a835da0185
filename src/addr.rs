//! Socket addresses as plain values, and the mapping of IPv4 destinations
//! into the IPv6 space of a dual-stack socket.
use vstd::prelude::*;

verus! {

/// An IPv6 socket address: the address as a 128-bit integer in network
/// order, the port, and the flow information and scope of RFC 3493.
#[derive(Clone, Copy, Debug, PartialEq, Eq, Structural)]
pub struct SocketAddrV6 {
    pub ip: u128,
    pub port: u16,
    pub flowinfo: u32,
    pub scope_id: u32,
}

/// A socket address of either family. An IPv4 address is held as a 32-bit
/// integer in network order (`a.b.c.d` is `a << 24 | b << 16 | c << 8 | d`).
#[derive(Clone, Copy, Debug, PartialEq, Eq, Structural)]
pub enum SocketAddr {
    V4 { ip: u32, port: u16 },
    V6(SocketAddrV6),
}

/// An IP address of either family, as an integer in network order.
#[derive(Clone, Copy, Debug, PartialEq, Eq, Structural)]
pub enum IpAddr {
    V4(u32),
    V6(u128),
}

/// The IPv4-mapped IPv6 address `::ffff:a.b.c.d`.
pub open spec fn mapped_v4(ip: u32) -> u128 {
    (0xffff * 0x1_0000_0000 + ip) as u128
}

/// The IPv6 form of an address, as a dual-stack socket needs it.
pub open spec fn ipv6_form(a: SocketAddr) -> SocketAddrV6 {
    match a {
        SocketAddr::V6(x) => x,
        SocketAddr::V4 { ip, port } => SocketAddrV6 { ip: mapped_v4(ip), port, flowinfo: 0, scope_id: 0 },
    }
}

impl SocketAddr {
    pub open spec fn spec_is_ipv6(&self) -> bool {
        self is V6
    }

    #[verifier::when_used_as_spec(spec_is_ipv6)]
    pub fn is_ipv6(&self) -> (r: bool)
        ensures
            r == self.spec_is_ipv6(),
    {
        match self {
            SocketAddr::V6(_) => true,
            SocketAddr::V4 { .. } => false,
        }
    }
}

/// Maps an IPv4 address to its IPv4-mapped IPv6 form, keeping the port;
/// an IPv6 address is returned as it is.
pub fn ensure_ipv6(x: SocketAddr) -> (r: SocketAddrV6)
    ensures
        r == ipv6_form(x),
{
    match x {
        SocketAddr::V6(v6) => v6,
        SocketAddr::V4 { ip, port } => {
            let mapped: u128 = 0xffff_0000_0000u128 + ip as u128;
            SocketAddrV6 { ip: mapped, port, flowinfo: 0, scope_id: 0 }
        },
    }
}

} // verus!
