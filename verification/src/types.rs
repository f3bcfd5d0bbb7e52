//! Byte strings that are shown with every ASCII character as it is.

use vstd::prelude::*;
use vstd::slice::slice_subrange;
use vstd::utf8::encode_utf8;

use crate::net::{SocketAddr, SocketAddrV4, SocketAddrV6};
use crate::text::{bytes_to_vec, concat_text, hex_byte_upper, push_hex_byte_upper};

verus! {

#[derive(Debug)]
pub struct Bytes(pub Vec<u8>);

impl View for Bytes {
    type V = Seq<u8>;

    open spec fn view(&self) -> Seq<u8> {
        self.0@
    }
}

impl Clone for Bytes {
    fn clone(&self) -> (copy: Self)
        ensures
            copy@ == self@,
    {
        Bytes(bytes_to_vec(self.0.as_slice()))
    }
}

/// A byte as it is shown: an ASCII character as itself, any other byte by its number.
pub open spec fn shown_byte(byte: u8) -> Seq<char> {
    if byte < 128 {
        seq![byte as char]
    } else {
        "\\x"@ + hex_byte_upper(byte)
    }
}

/// Bytes as they are shown.
pub open spec fn shown(bytes: Seq<u8>) -> Seq<char> {
    concat_text(bytes, |byte: u8| shown_byte(byte))
}

fn push_shown_byte(out: &mut String, byte: u8)
    ensures
        final(out)@ == old(out)@ + shown_byte(byte),
{
    if byte < 128 {
        out.push(byte as char);
        assert(out@ =~= old(out)@ + shown_byte(byte));
    } else {
        out.append("\\x");
        push_hex_byte_upper(out, byte);
        assert(out@ =~= old(out)@ + shown_byte(byte));
    }
}

/// Text of ASCII characters is shown as it is.
pub proof fn ascii_shown_as_itself(text: Seq<char>)
    requires
        vstd::utf8::is_ascii_chars(text),
    ensures
        shown(encode_utf8(text)) == text,
{
    vstd::utf8::is_ascii_chars_encode_utf8(text);
    let bytes = encode_utf8(text);
    let part = |byte: u8| shown_byte(byte);
    assert forall|n: int| 0 <= n <= text.len() implies #[trigger] concat_text(
        bytes.take(n),
        part,
    ) == text.take(n) by {
        lemma_shown_prefix(text, bytes, n);
    }
    assert(bytes.take(text.len() as int) =~= bytes);
    assert(text.take(text.len() as int) =~= text);
    assert(concat_text(bytes.take(text.len() as int), part) == text);
}

proof fn lemma_shown_prefix(text: Seq<char>, bytes: Seq<u8>, n: int)
    requires
        bytes.len() == text.len(),
        0 <= n <= text.len(),
        forall|i: int|
            0 <= i < text.len() ==> '\0' <= #[trigger] text[i] <= '\u{7f}' && bytes[i]
                == text[i] as u8,
    ensures
        concat_text(bytes.take(n), |byte: u8| shown_byte(byte)) == text.take(n),
    decreases n,
{
    if n == 0 {
        assert(text.take(0) =~= seq![]);
    } else {
        lemma_shown_prefix(text, bytes, n - 1);
        assert(bytes.take(n).drop_last() =~= bytes.take(n - 1));
        assert(bytes[n - 1] == text[n - 1] as u8);
        assert(bytes[n - 1] as char == text[n - 1]);
        assert(text.take(n - 1) + seq![text[n - 1]] =~= text.take(n));
    }
}

/// Bytes as they are shown.
pub fn shown_text(bytes: &[u8]) -> (text: String)
    ensures
        text@ == shown(bytes@),
{
    let mut text = String::new();
    let mut i: usize = 0;
    assert(text@ =~= shown(bytes@.take(0)));
    while i < bytes.len()
        invariant
            0 <= i <= bytes.len(),
            text@ == shown(bytes@.take(i as int)),
        decreases bytes.len() - i,
    {
        push_shown_byte(&mut text, bytes[i]);
        assert(bytes@.take(i + 1).drop_last() =~= bytes@.take(i as int));
        i = i + 1;
    }
    assert(bytes@.take(i as int) =~= bytes@);
    text
}

impl Bytes {
    pub fn to_string(&self) -> (text: String)
        ensures
            text@ == shown(self@),
    {
        shown_text(self.0.as_slice())
    }

    pub fn into_string(self) -> (text: String)
        ensures
            text@ == shown(self@),
    {
        self.to_string()
    }

    pub fn into_inner(self) -> (bytes: Vec<u8>)
        ensures
            bytes@ == self@,
    {
        self.0
    }

    pub fn from_text(value: &str) -> (bytes: Self)
        ensures
            bytes@ == encode_utf8(value@),
    {
        Bytes(bytes_to_vec(value.as_bytes()))
    }

    pub fn from_slice(value: &[u8]) -> (bytes: Self)
        ensures
            bytes@ == value@,
    {
        Bytes(bytes_to_vec(value))
    }

    pub fn from_socket_addr(value: SocketAddr) -> (bytes: Self)
        ensures
            bytes@ == value.compact(),
    {
        Bytes(crate::bytes::Bytes::from_socket_addr(value).into_inner())
    }

    /// The address in the first six bytes.
    pub fn to_socket_addr_v4(&self) -> (address: SocketAddrV4)
        requires
            self@.len() >= 6,
        ensures
            address == crate::net::v4_of_compact(self@.take(6)),
    {
        let head = slice_subrange(self.0.as_slice(), 0, 6);
        assert(head@ =~= self@.take(6));
        SocketAddrV4::from_bytes(head)
    }

    /// The address in the first eighteen bytes.
    pub fn to_socket_addr_v6(&self) -> (address: SocketAddrV6)
        requires
            self@.len() >= 18,
        ensures
            address == crate::net::v6_of_compact(self@.take(18)),
    {
        let head = slice_subrange(self.0.as_slice(), 0, 18);
        assert(head@ =~= self@.take(18));
        SocketAddrV6::from_bytes(head)
    }
}

} // verus!
