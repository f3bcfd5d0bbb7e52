//! Internet addresses, and the compact byte forms in which they travel.

use vstd::prelude::*;

use crate::be::{be_bytes, be_value};

pub mod laws;

verus! {

/// An IPv4 address, as the number that its four octets write.
#[derive(Clone, Copy, Debug, PartialEq, Eq, Hash, Structural)]
pub struct Ipv4Addr {
    pub bits: u32,
}

/// An IPv6 address, as the number that its sixteen octets write.
#[derive(Clone, Copy, Debug, PartialEq, Eq, Hash, Structural)]
pub struct Ipv6Addr {
    pub bits: u128,
}

#[derive(Clone, Copy, Debug, PartialEq, Eq, Hash, Structural)]
pub enum IpAddr {
    V4(Ipv4Addr),
    V6(Ipv6Addr),
}

#[derive(Clone, Copy, Debug, PartialEq, Eq, Hash, Structural)]
pub struct SocketAddrV4 {
    pub ip: Ipv4Addr,
    pub port: u16,
}

#[derive(Clone, Copy, Debug, PartialEq, Eq, Hash, Structural)]
pub struct SocketAddrV6 {
    pub ip: Ipv6Addr,
    pub port: u16,
    pub flowinfo: u32,
    pub scope_id: u32,
}

#[derive(Clone, Copy, Debug, PartialEq, Eq, Hash, Structural)]
pub enum SocketAddr {
    V4(SocketAddrV4),
    V6(SocketAddrV6),
}

impl SocketAddrV4 {
    /// Four octets of address, then two of port.
    pub open spec fn compact(self) -> Seq<u8> {
        be_bytes(self.ip.bits as nat, 4) + be_bytes(self.port as nat, 2)
    }
}

impl SocketAddrV6 {
    /// Sixteen octets of address, then two of port.
    pub open spec fn compact(self) -> Seq<u8> {
        be_bytes(self.ip.bits as nat, 16) + be_bytes(self.port as nat, 2)
    }
}

impl SocketAddr {
    pub open spec fn compact(self) -> Seq<u8> {
        match self {
            SocketAddr::V4(v4) => v4.compact(),
            SocketAddr::V6(v6) => v6.compact(),
        }
    }
}

impl IpAddr {
    /// The octets of the address.
    pub open spec fn octets(self) -> Seq<u8> {
        match self {
            IpAddr::V4(v4) => be_bytes(v4.bits as nat, 4),
            IpAddr::V6(v6) => be_bytes(v6.bits as nat, 16),
        }
    }
}

/// The IPv4 socket address that six octets write.
pub open spec fn v4_of_compact(bytes: Seq<u8>) -> SocketAddrV4 {
    SocketAddrV4 {
        ip: Ipv4Addr { bits: be_value(bytes.subrange(0, 4)) as u32 },
        port: be_value(bytes.subrange(4, 6)) as u16,
    }
}

/// The IPv6 socket address that eighteen octets write.
pub open spec fn v6_of_compact(bytes: Seq<u8>) -> SocketAddrV6 {
    SocketAddrV6 {
        ip: Ipv6Addr { bits: be_value(bytes.subrange(0, 16)) as u128 },
        port: be_value(bytes.subrange(16, 18)) as u16,
        flowinfo: 0,
        scope_id: 0,
    }
}

/// The socket address that octets write: six of them an IPv4 one, eighteen an IPv6
/// one, any other number none.
pub open spec fn socket_of_compact(bytes: Seq<u8>) -> Option<SocketAddr> {
    if bytes.len() == 6 {
        Some(SocketAddr::V4(v4_of_compact(bytes)))
    } else if bytes.len() == 18 {
        Some(SocketAddr::V6(v6_of_compact(bytes)))
    } else {
        None
    }
}

/// The address that octets write: four of them an IPv4 one, sixteen an IPv6 one,
/// any other number none.
pub open spec fn ip_of_octets(bytes: Seq<u8>) -> Option<IpAddr> {
    if bytes.len() == 4 {
        Some(IpAddr::V4(Ipv4Addr { bits: be_value(bytes) as u32 }))
    } else if bytes.len() == 16 {
        Some(IpAddr::V6(Ipv6Addr { bits: be_value(bytes) as u128 }))
    } else {
        None
    }
}

/// An IPv4 socket address reads back from its compact form.
pub proof fn v4_reads_back(address: SocketAddrV4)
    ensures
        address.compact().len() == 6,
        v4_of_compact(address.compact()) == address,
        socket_of_compact(address.compact()) == Some(SocketAddr::V4(address)),
{
    crate::be::lemma_be_limits();
    crate::be::be_bytes_read_back(address.ip.bits as nat, 4);
    crate::be::be_bytes_read_back(address.port as nat, 2);
    assert(address.compact().subrange(0, 4) =~= be_bytes(address.ip.bits as nat, 4));
    assert(address.compact().subrange(4, 6) =~= be_bytes(address.port as nat, 2));
}

/// An IPv6 socket address reads back from its compact form, which does not carry
/// the flow label and the scope.
pub proof fn v6_reads_back(address: SocketAddrV6)
    requires
        address.flowinfo == 0,
        address.scope_id == 0,
    ensures
        address.compact().len() == 18,
        v6_of_compact(address.compact()) == address,
        socket_of_compact(address.compact()) == Some(SocketAddr::V6(address)),
{
    crate::be::lemma_be_limits();
    crate::be::be_bytes_read_back(address.ip.bits as nat, 16);
    crate::be::be_bytes_read_back(address.port as nat, 2);
    assert(address.compact().subrange(0, 16) =~= be_bytes(address.ip.bits as nat, 16));
    assert(address.compact().subrange(16, 18) =~= be_bytes(address.port as nat, 2));
}

/// Six octets are the compact form of the address that they write.
pub proof fn v4_writes_back(bytes: Seq<u8>)
    requires
        bytes.len() == 6,
    ensures
        v4_of_compact(bytes).compact() == bytes,
{
    crate::be::lemma_be_limits();
    crate::be::lemma_be_value_bound(bytes.subrange(0, 4));
    crate::be::lemma_be_value_bound(bytes.subrange(4, 6));
    crate::be::be_value_writes_back(bytes.subrange(0, 4));
    crate::be::be_value_writes_back(bytes.subrange(4, 6));
    assert(bytes.subrange(0, 4) + bytes.subrange(4, 6) =~= bytes);
}

/// An address reads back from its octets.
pub proof fn ip_reads_back(address: IpAddr)
    ensures
        ip_of_octets(address.octets()) == Some(address),
{
    crate::be::lemma_be_limits();
    match address {
        IpAddr::V4(v4) => {
            crate::be::be_bytes_read_back(v4.bits as nat, 4);
        },
        IpAddr::V6(v6) => {
            crate::be::be_bytes_read_back(v6.bits as nat, 16);
        },
    }
}

} // verus!
