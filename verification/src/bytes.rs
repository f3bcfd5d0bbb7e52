//! Byte strings.

use vstd::prelude::*;
use vstd::slice::slice_subrange;
use vstd::utf8::encode_utf8;

use crate::be::{be_value, read_be, read_be_u16, read_be_u32, write_be};
use crate::error::{bterror_with, BitTorrentError};
use crate::keymap::{lookup, without_entry, ByteKey, KeyMap};
use crate::net::{
    ip_of_octets, socket_of_compact, v4_of_compact, v6_of_compact, IpAddr, Ipv4Addr, Ipv6Addr,
    SocketAddr, SocketAddrV4, SocketAddrV6,
};
use crate::text::{
    bytes_to_vec, concat_text, decimal_nat, decimal_string_u64, hex_byte, lemma_ascii,
    push_hex_byte,
};

verus! {

/// A byte string.
#[derive(Debug, PartialEq, Eq, Hash)]
pub struct Bytes(pub Vec<u8>);

impl View for Bytes {
    type V = Seq<u8>;

    open spec fn view(&self) -> Seq<u8> {
        self.0@
    }
}

impl Clone for Bytes {
    fn clone(&self) -> (copy: Self)
        ensures
            copy@ == self@,
    {
        Bytes(bytes_to_vec(self.0.as_slice()))
    }
}

impl ByteKey for Bytes {
    open spec fn key(&self) -> Seq<u8> {
        self@
    }

    fn key_bytes(&self) -> (bytes: &[u8]) {
        self.0.as_slice()
    }
}

/// Letters, digits, punctuation, and the white space of ASCII.
pub open spec fn is_plain(byte: u8) -> bool {
    33 <= byte <= 126 || byte == 32 || byte == 9 || byte == 10 || byte == 12 || byte == 13
}

/// A byte as it is shown: a plain character as itself, any other byte as an escape
/// of two hexadecimal digits.
pub open spec fn escaped_byte(byte: u8) -> Seq<char> {
    if is_plain(byte) {
        seq![byte as char]
    } else {
        seq!['\\', 'x'] + hex_byte(byte)
    }
}

/// A byte string as it is shown.
pub open spec fn escaped(bytes: Seq<u8>) -> Seq<char> {
    concat_text(bytes, |byte: u8| escaped_byte(byte))
}

fn push_escaped_byte(out: &mut String, byte: u8)
    ensures
        final(out)@ == old(out)@ + escaped_byte(byte),
{
    if (byte >= 33 && byte <= 126) || byte == 32 || byte == 9 || byte == 10 || byte == 12 || byte
        == 13 {
        out.push(byte as char);
    } else {
        out.push('\\');
        out.push('x');
        push_hex_byte(out, byte);
    }
}

/// A byte as it is shown.
pub fn escaped_byte_to_string(byte: u8) -> (text: String)
    ensures
        text@ == escaped_byte(byte),
{
    let mut text = String::new();
    push_escaped_byte(&mut text, byte);
    text
}

/// Text of plain characters only.
pub open spec fn is_plain_text(text: Seq<char>) -> bool {
    forall|i: int| 0 <= i < text.len() ==> #[trigger] text[i] <= '~' && is_plain(text[i] as u8)
}

/// Plain text is shown as itself.
pub proof fn plain_text_shown_as_itself(text: Seq<char>)
    requires
        is_plain_text(text),
    ensures
        escaped(encode_utf8(text)) == text,
{
    lemma_ascii(text);
    vstd::utf8::is_ascii_chars_encode_utf8(text);
    let bytes = encode_utf8(text);
    let part = |byte: u8| escaped_byte(byte);
    assert forall|n: int| 0 <= n <= text.len() implies #[trigger] concat_text(
        bytes.take(n),
        part,
    ) == text.take(n) by {
        lemma_plain_prefix(text, n);
    }
    assert(concat_text(bytes.take(text.len() as int), part) == text.take(text.len() as int));
    assert(bytes.take(text.len() as int) =~= bytes);
    assert(text.take(text.len() as int) =~= text);
}

proof fn lemma_plain_prefix(text: Seq<char>, n: int)
    requires
        is_plain_text(text),
        0 <= n <= text.len(),
    ensures
        concat_text(encode_utf8(text).take(n), |byte: u8| escaped_byte(byte)) == text.take(n),
    decreases n,
{
    lemma_ascii(text);
    vstd::utf8::is_ascii_chars_encode_utf8(text);
    let bytes = encode_utf8(text);
    if n == 0 {
        assert(text.take(0) =~= Seq::<char>::empty());
    } else {
        lemma_plain_prefix(text, n - 1);
        assert(bytes.take(n).drop_last() =~= bytes.take(n - 1));
        assert(bytes.take(n).last() == text[n - 1] as u8);
        assert(text.take(n) =~= text.take(n - 1).push(text[n - 1]));
    }
}

impl Bytes {
    /// The byte string as it is shown.
    pub fn to_string(&self) -> (text: String)
        ensures
            text@ == escaped(self@),
    {
        let mut text = String::new();
        let mut i: usize = 0;
        while i < self.0.len()
            invariant
                0 <= i <= self.0.len(),
                text@ == escaped(self@.take(i as int)),
            decreases self.0.len() - i,
        {
            assert(self@.take(i + 1).drop_last() =~= self@.take(i as int));
            push_escaped_byte(&mut text, self.0[i]);
            i = i + 1;
        }
        assert(self@.take(self@.len() as int) =~= self@);
        text
    }

    /// The byte string as it is shown.
    pub fn into_string(self) -> (text: String)
        ensures
            text@ == escaped(self@),
    {
        self.to_string()
    }

    /// The bytes themselves.
    pub fn into_inner(self) -> (bytes: Vec<u8>)
        ensures
            bytes@ == self@,
    {
        self.0
    }

    pub fn from_slice(value: &[u8]) -> (bytes: Self)
        ensures
            bytes@ == value@,
    {
        Bytes(bytes_to_vec(value))
    }

    /// The UTF-8 encoding of a text.
    pub fn from_text(value: &str) -> (bytes: Self)
        ensures
            bytes@ == encode_utf8(value@),
    {
        Bytes(bytes_to_vec(value.as_bytes()))
    }

    /// The compact form of an IPv4 socket address.
    pub fn from_socket_addr_v4(value: SocketAddrV4) -> (bytes: Self)
        ensures
            bytes@ == value.compact(),
    {
        let mut bytes = write_be(value.ip.bits as u128, 4);
        let mut port = write_be(value.port as u128, 2);
        bytes.append(&mut port);
        Bytes(bytes)
    }

    /// The compact form of an IPv6 socket address.
    pub fn from_socket_addr_v6(value: SocketAddrV6) -> (bytes: Self)
        ensures
            bytes@ == value.compact(),
    {
        let mut bytes = write_be(value.ip.bits, 16);
        let mut port = write_be(value.port as u128, 2);
        bytes.append(&mut port);
        Bytes(bytes)
    }

    /// The compact form of a socket address.
    pub fn from_socket_addr(value: SocketAddr) -> (bytes: Self)
        ensures
            bytes@ == value.compact(),
    {
        match value {
            SocketAddr::V4(v4) => Bytes::from_socket_addr_v4(v4),
            SocketAddr::V6(v6) => Bytes::from_socket_addr_v6(v6),
        }
    }

    /// The octets of an address.
    pub fn from_ip_addr(value: IpAddr) -> (bytes: Self)
        ensures
            bytes@ == value.octets(),
    {
        match value {
            IpAddr::V4(v4) => Bytes(write_be(v4.bits as u128, 4)),
            IpAddr::V6(v6) => Bytes(write_be(v6.bits, 16)),
        }
    }
}

impl SocketAddrV4 {
    /// The address that the first six bytes write.
    pub fn from_bytes(bytes: &[u8]) -> (address: Self)
        requires
            bytes@.len() >= 6,
        ensures
            address == v4_of_compact(bytes@),
    {
        SocketAddrV4 {
            ip: Ipv4Addr { bits: read_be_u32(slice_subrange(bytes, 0, 4)) },
            port: read_be_u16(slice_subrange(bytes, 4, 6)),
        }
    }
}

impl SocketAddrV6 {
    /// The address that the first eighteen bytes write.
    pub fn from_bytes(bytes: &[u8]) -> (address: Self)
        requires
            bytes@.len() >= 18,
        ensures
            address == v6_of_compact(bytes@),
    {
        SocketAddrV6 {
            ip: Ipv6Addr { bits: read_be(slice_subrange(bytes, 0, 16)) },
            port: read_be_u16(slice_subrange(bytes, 16, 18)),
            flowinfo: 0,
            scope_id: 0,
        }
    }
}

impl SocketAddr {
    /// The address that a compact form writes.
    pub fn from_bytes(bytes: &[u8]) -> (result: Result<Self, BitTorrentError>)
        ensures
            match result {
                Ok(address) => socket_of_compact(bytes@) == Some(address),
                Err(error) => socket_of_compact(bytes@) is None && error@
                    == "Invalid socket address: "@ + decimal_nat(bytes@.len()),
            },
    {
        if bytes.len() == 6 {
            Ok(SocketAddr::V4(SocketAddrV4::from_bytes(bytes)))
        } else if bytes.len() == 18 {
            Ok(SocketAddr::V6(SocketAddrV6::from_bytes(bytes)))
        } else {
            Err(
                bterror_with(
                    "Invalid socket address: ",
                    decimal_string_u64(bytes.len() as u64).as_str(),
                ),
            )
        }
    }
}

impl Ipv4Addr {
    /// The address that the first four bytes write.
    pub fn from_bytes(bytes: &[u8]) -> (address: Self)
        requires
            bytes@.len() >= 4,
        ensures
            address.bits == be_value(bytes@.subrange(0, 4)),
    {
        Ipv4Addr { bits: read_be_u32(slice_subrange(bytes, 0, 4)) }
    }
}

impl Ipv6Addr {
    /// The address that the first sixteen bytes write.
    pub fn from_bytes(bytes: &[u8]) -> (address: Self)
        requires
            bytes@.len() >= 16,
        ensures
            address.bits == be_value(bytes@.subrange(0, 16)),
    {
        Ipv6Addr { bits: read_be(slice_subrange(bytes, 0, 16)) }
    }
}

impl IpAddr {
    /// The address that octets write.
    pub fn from_bytes(bytes: &[u8]) -> (result: Result<Self, BitTorrentError>)
        ensures
            match result {
                Ok(address) => ip_of_octets(bytes@) == Some(address),
                Err(error) => ip_of_octets(bytes@) is None && error@ == "Invalid ip address: "@
                    + decimal_nat(bytes@.len()),
            },
    {
        if bytes.len() == 4 {
            assert(bytes@.subrange(0, 4) =~= bytes@);
            Ok(IpAddr::V4(Ipv4Addr::from_bytes(bytes)))
        } else if bytes.len() == 16 {
            assert(bytes@.subrange(0, 16) =~= bytes@);
            Ok(IpAddr::V6(Ipv6Addr::from_bytes(bytes)))
        } else {
            Err(
                bterror_with(
                    "Invalid ip address: ",
                    decimal_string_u64(bytes.len() as u64).as_str(),
                ),
            )
        }
    }
}

/// Taking values out of a map by the bytes of their keys.
pub trait PullBytes<T>: Sized {
    spec fn pairs(&self) -> Seq<(Seq<u8>, T)>;

    fn pull(&mut self, key: &[u8]) -> (value: Option<T>)
        ensures
            value == lookup(old(self).pairs(), key@),
            final(self).pairs() == without_entry(old(self).pairs(), key@),
    ;
}

impl<T> PullBytes<T> for KeyMap<Bytes, T> {
    open spec fn pairs(&self) -> Seq<(Seq<u8>, T)> {
        self@
    }

    fn pull(&mut self, key: &[u8]) -> (value: Option<T>) {
        self.remove(key)
    }
}

} // verus!
