//! Where the octets of an address stand in its compact form.

use vstd::prelude::*;

use crate::be::{be_bytes_read_back, be_value, lemma_be_limits};
use crate::net::{socket_of_compact, IpAddr, SocketAddr, SocketAddrV4, SocketAddrV6};

verus! {

/// An IPv4 address in compact form is the address in four bytes and the port in two, most
/// significant bytes first.
pub proof fn v4_compact_bytes(address: SocketAddrV4)
    ensures
        address.compact().len() == 6,
        be_value(address.compact().take(4)) == address.ip.bits,
        be_value(address.compact().skip(4)) == address.port,
{
    lemma_be_limits();
    be_bytes_read_back(address.ip.bits as nat, 4);
    be_bytes_read_back(address.port as nat, 2);
    assert(address.compact().take(4) =~= crate::be::be_bytes(address.ip.bits as nat, 4));
    assert(address.compact().skip(4) =~= crate::be::be_bytes(address.port as nat, 2));
}

/// An IPv6 address in compact form is the address in sixteen bytes and the port in two,
/// most significant bytes first.
pub proof fn v6_compact_bytes(address: SocketAddrV6)
    ensures
        address.compact().len() == 18,
        be_value(address.compact().take(16)) == address.ip.bits,
        be_value(address.compact().skip(16)) == address.port,
{
    lemma_be_limits();
    be_bytes_read_back(address.ip.bits as nat, 16);
    be_bytes_read_back(address.port as nat, 2);
    assert(address.compact().take(16) =~= crate::be::be_bytes(address.ip.bits as nat, 16));
    assert(address.compact().skip(16) =~= crate::be::be_bytes(address.port as nat, 2));
}

/// The octets of an address are the number that it is, most significant ones first.
pub proof fn octets_are_address(address: IpAddr)
    ensures
        match address {
            IpAddr::V4(v4) => address.octets().len() == 4 && be_value(address.octets()) == v4.bits,
            IpAddr::V6(v6) => address.octets().len() == 16 && be_value(address.octets()) == v6.bits,
        },
{
    lemma_be_limits();
    match address {
        IpAddr::V4(v4) => {
            be_bytes_read_back(v4.bits as nat, 4);
        },
        IpAddr::V6(v6) => {
            be_bytes_read_back(v6.bits as nat, 16);
        },
    }
}

/// Bytes are an address exactly if there are six or eighteen of them; different bytes are
/// different addresses.
pub proof fn compact_form_has_right_length(a: Seq<u8>, b: Seq<u8>)
    ensures
        socket_of_compact(a) is Some <==> a.len() == 6 || a.len() == 18,
        socket_of_compact(a) is Some && socket_of_compact(a) == socket_of_compact(b) ==> a == b,
{
    if socket_of_compact(a) is Some && socket_of_compact(a) == socket_of_compact(b) {
        lemma_compact_again(a);
        lemma_compact_again(b);
    }
}

proof fn lemma_compact_again(bytes: Seq<u8>)
    requires
        socket_of_compact(bytes) is Some,
    ensures
        (socket_of_compact(bytes)->0).compact() == bytes,
{
    let split: int = if bytes.len() == 6 {
        4
    } else {
        16
    };
    let address = socket_of_compact(bytes)->0;
    lemma_be_limits();
    crate::be::be_value_writes_back(bytes.subrange(0, split));
    crate::be::be_value_writes_back(bytes.subrange(split, split + 2));
    crate::be::lemma_be_value_bound(bytes.subrange(0, split));
    crate::be::lemma_be_value_bound(bytes.subrange(split, split + 2));
    assert(bytes.subrange(0, split) + bytes.subrange(split, split + 2) =~= bytes);
    match address {
        SocketAddr::V4(v4) => {
            assert(v4.compact() == bytes);
        },
        SocketAddr::V6(v6) => {
            assert(v6.compact() == bytes);
        },
    }
}

} // verus!
