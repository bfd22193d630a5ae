//! Socket addresses as plain values, and those of the discovery group.

use vstd::prelude::*;

use crate::text::{decimal, hexadecimal};

verus! {

/// The UDP port of local service discovery.
pub const LSD_PORT: u16 = 6771;

/// The multicast group 239.192.152.143, as a big-endian number.
pub const LSD_IPV4_BITS: u32 = 0xefc0_988f;

/// The multicast group ff15::efc0:988f, as a big-endian number.
pub const LSD_IPV6_BITS: u128 = 0xff15_0000_0000_0000_0000_0000_efc0_988f;

/// An IPv4 address, as a big-endian number, and a port.
#[derive(Clone, Copy, Debug, PartialEq, Eq, Structural)]
pub struct SocketAddrV4 {
    pub ip: u32,
    pub port: u16,
}

/// An IPv6 address, as a big-endian number, a port, a flow label and a scope.
#[derive(Clone, Copy, Debug, PartialEq, Eq, Structural)]
pub struct SocketAddrV6 {
    pub ip: u128,
    pub port: u16,
    pub flowinfo: u32,
    pub scope_id: u32,
}

/// An address of either family.
#[derive(Clone, Copy, Debug, PartialEq, Eq, Structural)]
pub enum SocketAddr {
    V4(SocketAddrV4),
    V6(SocketAddrV6),
}

/// The byte of an IPv4 address that has `below` under it.
pub open spec fn ipv4_byte(ip: u32, below: nat) -> nat {
    (ip as nat / below) % 0x100
}

/// The text of an address: the four bytes in decimal, with dots between them, and the port.
pub open spec fn ipv4_text(addr: SocketAddrV4) -> Seq<char> {
    decimal(ipv4_byte(addr.ip, 0x100_0000)) + "."@ + decimal(ipv4_byte(addr.ip, 0x1_0000)) + "."@
        + decimal(ipv4_byte(addr.ip, 0x100)) + "."@ + decimal(ipv4_byte(addr.ip, 1)) + ":"@
        + decimal(addr.port as nat)
}

/// The text of an address whose groups are all zero but the first and the last two: these in
/// hexadecimal, with two colons for the zeros, and the port. No scope is written.
pub open spec fn ipv6_text(addr: SocketAddrV6) -> Seq<char> {
    "["@ + hexadecimal(addr.ip as nat / 0x1_0000_0000_0000_0000_0000_0000_0000) + "::"@
        + hexadecimal((addr.ip as nat / 0x1_0000) % 0x1_0000) + ":"@ + hexadecimal(
        addr.ip as nat % 0x1_0000,
    ) + "]:"@ + decimal(addr.port as nat)
}

/// The groups of an address are all zero but the first and the last two.
pub open spec fn has_inner_zeros(addr: SocketAddrV6) -> bool {
    (addr.ip as nat % 0x1_0000_0000_0000_0000_0000_0000_0000) < 0x1_0000_0000
}

/// `there` is the address `here` but for the port, which is `port`: the same family, IP, flow
/// label and scope.
pub open spec fn is_at_port(there: SocketAddr, here: SocketAddr, port: u16) -> bool {
    match (there, here) {
        (SocketAddr::V4(t), SocketAddr::V4(h)) => t.ip == h.ip && t.port == port,
        (SocketAddr::V6(t), SocketAddr::V6(h)) => {
            &&& t.ip == h.ip
            &&& t.port == port
            &&& t.flowinfo == h.flowinfo
            &&& t.scope_id == h.scope_id
        },
        _ => false,
    }
}

/// The IPv4 group of local service discovery.
pub fn lsd_ipv4() -> (r: SocketAddrV4)
    ensures
        r.ip == LSD_IPV4_BITS,
        r.port == LSD_PORT,
{
    SocketAddrV4 { ip: LSD_IPV4_BITS, port: LSD_PORT }
}

/// The IPv6 group of local service discovery.
pub fn lsd_ipv6() -> (r: SocketAddrV6)
    ensures
        r.ip == LSD_IPV6_BITS,
        r.port == LSD_PORT,
        r.flowinfo == 0,
        r.scope_id == 0,
{
    SocketAddrV6 { ip: LSD_IPV6_BITS, port: LSD_PORT, flowinfo: 0, scope_id: 0 }
}

impl SocketAddr {
    /// The port of the address.
    pub open spec fn spec_port(self) -> u16 {
        match self {
            SocketAddr::V4(a) => a.port,
            SocketAddr::V6(a) => a.port,
        }
    }

    /// The address with another port.
    pub open spec fn with_port(self, port: u16) -> SocketAddr {
        match self {
            SocketAddr::V4(a) => SocketAddr::V4(SocketAddrV4 { port, ..a }),
            SocketAddr::V6(a) => SocketAddr::V6(SocketAddrV6 { port, ..a }),
        }
    }

    pub fn is_ipv4(&self) -> (r: bool)
        ensures
            r == (self is V4),
    {
        matches!(self, SocketAddr::V4(_))
    }

    pub fn is_ipv6(&self) -> (r: bool)
        ensures
            r == (self is V6),
    {
        matches!(self, SocketAddr::V6(_))
    }

    pub fn port(&self) -> (r: u16)
        ensures
            r == self.spec_port(),
            *self matches SocketAddr::V4(a) ==> r == a.port,
            *self matches SocketAddr::V6(a) ==> r == a.port,
    {
        match self {
            SocketAddr::V4(a) => a.port,
            SocketAddr::V6(a) => a.port,
        }
    }

    /// Replaces the port and keeps the rest.
    pub fn set_port(&mut self, port: u16)
        ensures
            *final(self) == old(self).with_port(port),
            is_at_port(*final(self), *old(self), port),
    {
        *self = match *self {
            SocketAddr::V4(a) => SocketAddr::V4(SocketAddrV4 { ip: a.ip, port }),
            SocketAddr::V6(a) => SocketAddr::V6(
                SocketAddrV6 { ip: a.ip, port, flowinfo: a.flowinfo, scope_id: a.scope_id },
            ),
        };
    }
}

/// An address with another port has that port, and it keeps its family, its IP, its flow label
/// and its scope.
pub proof fn law_with_port_changes_the_port_alone(a: SocketAddr, port: u16)
    ensures
        a.with_port(port).spec_port() == port,
        a matches SocketAddr::V4(v4) ==> (a.with_port(port) matches SocketAddr::V4(to) && to.ip
            == v4.ip && to.port == port),
        a matches SocketAddr::V6(v6) ==> (a.with_port(port) matches SocketAddr::V6(to) && to.ip
            == v6.ip && to.port == port && to.flowinfo == v6.flowinfo && to.scope_id
            == v6.scope_id),
{
}

/// The port of an address is the one that stands in it.
pub proof fn law_port_is_the_one_that_stands_there(v4: SocketAddrV4, v6: SocketAddrV6)
    ensures
        SocketAddr::V4(v4).spec_port() == v4.port,
        SocketAddr::V6(v6).spec_port() == v6.port,
{
}

/// Of two ports set one after the other the second counts, and to set the port that an address
/// has changes nothing. Addresses with different ports are different.
pub proof fn law_last_port_counts(a: SocketAddr, p: u16, q: u16)
    ensures
        a.with_port(p).with_port(q) == a.with_port(q),
        a.with_port(a.spec_port()) == a,
        p != q ==> a.with_port(p) != a.with_port(q),
{
}

/// `is_at_port` leaves one address, and its parts are those of the other.
pub proof fn law_one_address_is_at_a_port(there: SocketAddr, here: SocketAddr, port: u16)
    requires
        is_at_port(there, here, port),
    ensures
        there == here.with_port(port),
        there is V4 <==> here is V4,
        there matches SocketAddr::V4(t) ==> t.port == port && t.ip == here->V4_0.ip,
        there matches SocketAddr::V6(t) ==> t.port == port && t.ip == here->V6_0.ip && t.flowinfo
            == here->V6_0.flowinfo && t.scope_id == here->V6_0.scope_id,
{
}

} // verus!
