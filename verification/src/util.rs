//! Hashes, bitfields, and the encodings of bytes as text.

use vstd::prelude::*;
use vstd::utf8::{decode_utf8, encode_utf8, is_char_boundary};

use sha1::Digest;
use sha1::Sha1;

use crate::error::{bterror, BitTorrentError};
use crate::text::{concat_text, hex_byte, push_hex_byte};

pub mod laws;

verus! {

/// The SHA-1 digest of some bytes.
pub uninterp spec fn sha1(bytes: Seq<u8>) -> Seq<u8>;

/// Calculate the SHA1 hash of a byte slice: `Sha1::new`, `update` with the bytes and
/// `finalize`, which give the SHA-1 digest of the bytes and nothing else.
#[verifier::external_body]
pub fn sha1_hash(bytes: &[u8]) -> (hash: [u8; 20])
    ensures
        hash@ == sha1(bytes@),
{
    let mut hasher = Sha1::new();
    hasher.update(bytes);
    hasher.finalize().into()
}

/// Bytes as lower-case hexadecimal digits, two for each.
pub open spec fn hex_text(bytes: Seq<u8>) -> Seq<char> {
    concat_text(bytes, |byte: u8| hex_byte(byte))
}

/// Convert a byte array to a hex string.
pub fn bytes_to_hex(bytes: &[u8]) -> (text: String)
    ensures
        text@ == hex_text(bytes@),
{
    let mut text = String::new();
    let mut i: usize = 0;
    while i < bytes.len()
        invariant
            0 <= i <= bytes.len(),
            text@ == hex_text(bytes@.take(i as int)),
        decreases bytes.len() - i,
    {
        assert(bytes@.take(i + 1).drop_last() =~= bytes@.take(i as int));
        push_hex_byte(&mut text, bytes[i]);
        i = i + 1;
    }
    assert(bytes@.take(bytes@.len() as int) =~= bytes@);
    text
}

/// The number that a hexadecimal digit of either case writes.
pub open spec fn hex_digit_value(c: char) -> Option<int> {
    if '0' <= c <= '9' {
        Some(c as int - '0' as int)
    } else if 'a' <= c <= 'f' {
        Some(c as int - 'a' as int + 10)
    } else if 'A' <= c <= 'F' {
        Some(c as int - 'A' as int + 10)
    } else {
        None
    }
}

/// The bytes that a text of hexadecimal digits writes, two digits for each.
pub open spec fn hex_decoded(text: Seq<char>) -> Option<Seq<u8>> {
    if text.len() % 2 == 0 && forall|i: int|
        0 <= i < text.len() ==> hex_digit_value(#[trigger] text[i]) is Some {
        Some(
            Seq::new(
                text.len() / 2,
                |i: int|
                    (hex_digit_value(text[2 * i])->0 * 16 + hex_digit_value(text[2 * i + 1])->0) as u8,
            ),
        )
    } else {
        None
    }
}

/// What the `hex` crate says about a text that is not hexadecimal.
pub uninterp spec fn hex_error_text(text: Seq<char>) -> Seq<char>;

/// `hex::decode`: the bytes that pairs of hexadecimal digits of either case write; an
/// odd number of digits and any other character is an error.
#[verifier::external_body]
fn decode_hex(text: &str) -> (result: Result<Vec<u8>, String>)
    ensures
        match result {
            Ok(bytes) => hex_decoded(text@) == Some(bytes@),
            Err(complaint) => hex_decoded(text@) is None && complaint@ == hex_error_text(text@),
        },
{
    hex::decode(text).map_err(|error| error.to_string())
}

/// Convert a hex string to a byte array.
pub fn hex_to_bytes(text: &str) -> (result: Result<Vec<u8>, BitTorrentError>)
    ensures
        match result {
            Ok(bytes) => hex_decoded(text@) == Some(bytes@),
            Err(error) => hex_decoded(text@) is None && error@ == hex_error_text(text@),
        },
{
    match decode_hex(text) {
        Ok(bytes) => Ok(bytes),
        Err(complaint) => Err(BitTorrentError::new(complaint)),
    }
}

proof fn lemma_hex_text_at(bytes: Seq<u8>, i: int)
    requires
        0 <= i < bytes.len(),
    ensures
        hex_text(bytes).len() == 2 * bytes.len(),
        hex_text(bytes)[2 * i] == hex_byte(bytes[i])[0],
        hex_text(bytes)[2 * i + 1] == hex_byte(bytes[i])[1],
    decreases bytes.len(),
{
    let head = bytes.drop_last();
    let part = |byte: u8| hex_byte(byte);
    assert(hex_text(bytes) == hex_text(head) + hex_byte(bytes.last()));
    if head.len() == 0 {
        assert(hex_text(head).len() == 0);
    } else if i < head.len() {
        lemma_hex_text_at(head, i);
    } else {
        lemma_hex_text_at(head, 0);
    }
}

/// Bytes read back from their hexadecimal digits.
pub proof fn hex_text_reads_back(bytes: Seq<u8>)
    ensures
        hex_decoded(hex_text(bytes)) == Some(bytes),
{
    let text = hex_text(bytes);
    if bytes.len() == 0 {
        assert(text.len() == 0);
    } else {
        lemma_hex_text_at(bytes, 0);
        assert forall|i: int| 0 <= i < text.len() implies hex_digit_value(
            #[trigger] text[i],
        ) is Some by {
            lemma_hex_text_at(bytes, i / 2);
            assert(i == 2 * (i / 2) || i == 2 * (i / 2) + 1);
        }
        assert forall|i: int| 0 <= i < bytes.len() implies (hex_digit_value(text[2 * i])->0 * 16
            + hex_digit_value(text[2 * i + 1])->0) as u8 == #[trigger] bytes[i] by {
            lemma_hex_text_at(bytes, i);
        }
    }
    assert(hex_decoded(text)->0 =~= bytes);
}

/// The bits of a byte, most significant first.
pub open spec fn bits_of(byte: u8) -> Seq<bool> {
    seq![
        byte / 128 % 2 == 1,
        byte / 64 % 2 == 1,
        byte / 32 % 2 == 1,
        byte / 16 % 2 == 1,
        byte / 8 % 2 == 1,
        byte / 4 % 2 == 1,
        byte / 2 % 2 == 1,
        byte % 2 == 1,
    ]
}

pub open spec fn weight(bit: bool, value: int) -> int {
    if bit {
        value
    } else {
        0
    }
}

/// The byte of which eight bits are the bits, most significant first.
pub open spec fn byte_of(bits: Seq<bool>) -> int {
    weight(bits[0], 128) + weight(bits[1], 64) + weight(bits[2], 32) + weight(bits[3], 16) + weight(
        bits[4],
        8,
    ) + weight(bits[5], 4) + weight(bits[6], 2) + weight(bits[7], 1)
}

/// Decode a bitfield from a byte in big-endian order.
pub fn decode_bitfield_be(bits: u8) -> (result: [bool; 8])
    ensures
        result@ == bits_of(bits),
{
    let result = [
        bits / 128 % 2 == 1,
        bits / 64 % 2 == 1,
        bits / 32 % 2 == 1,
        bits / 16 % 2 == 1,
        bits / 8 % 2 == 1,
        bits / 4 % 2 == 1,
        bits / 2 % 2 == 1,
        bits % 2 == 1,
    ];
    assert(result@ =~= bits_of(bits));
    result
}

fn weight_of(bit: bool, value: u8) -> (weighed: u8)
    ensures
        weighed == weight(bit, value as int),
{
    if bit {
        value
    } else {
        0
    }
}

/// Encode a bitfield into a byte in big-endian order.
pub fn encode_bitfield_be(bits: [bool; 8]) -> (result: u8)
    ensures
        result == byte_of(bits@),
{
    weight_of(bits[0], 128) + weight_of(bits[1], 64) + weight_of(bits[2], 32) + weight_of(
        bits[3],
        16,
    ) + weight_of(bits[4], 8) + weight_of(bits[5], 4) + weight_of(bits[6], 2) + weight_of(
        bits[7],
        1,
    )
}

/// The bits of a byte make up the byte.
pub proof fn byte_of_bits(byte: u8)
    ensures
        byte_of(bits_of(byte)) == byte,
{
    assert(byte == (if byte / 128 % 2 == 1 {
        128u8
    } else {
        0u8
    }) + (if byte / 64 % 2 == 1 {
        64u8
    } else {
        0u8
    }) + (if byte / 32 % 2 == 1 {
        32u8
    } else {
        0u8
    }) + (if byte / 16 % 2 == 1 {
        16u8
    } else {
        0u8
    }) + (if byte / 8 % 2 == 1 {
        8u8
    } else {
        0u8
    }) + (if byte / 4 % 2 == 1 {
        4u8
    } else {
        0u8
    }) + (if byte / 2 % 2 == 1 {
        2u8
    } else {
        0u8
    }) + (if byte % 2 == 1 {
        1u8
    } else {
        0u8
    })) by (bit_vector);
}

/// The byte of eight bits has them as its bits.
pub proof fn bits_of_byte(bits: Seq<bool>)
    requires
        bits.len() == 8,
    ensures
        0 <= byte_of(bits) < 256,
        bits_of(byte_of(bits) as u8) == bits,
{
    assert(bits_of(byte_of(bits) as u8) =~= bits);
}

/// Letters, digits and the four marks that a query string holds unescaped.
pub open spec fn is_unreserved(byte: u8) -> bool {
    '0' as u8 <= byte <= '9' as u8 || 'A' as u8 <= byte <= 'Z' as u8 || 'a' as u8 <= byte
        <= 'z' as u8 || byte == '-' as u8 || byte == '_' as u8 || byte == '.' as u8 || byte
        == '~' as u8
}

pub open spec fn querystring_byte(byte: u8) -> Seq<char> {
    if is_unreserved(byte) {
        seq![byte as char]
    } else {
        seq!['%'] + hex_byte(byte)
    }
}

/// Bytes escaped for a query string.
pub open spec fn querystring_text(bytes: Seq<u8>) -> Seq<char> {
    concat_text(bytes, |byte: u8| querystring_byte(byte))
}

/// Encode a byte slice as a URL-safe percent-escaped string.
pub fn querystring_encode(bytes: &[u8]) -> (text: String)
    ensures
        text@ == querystring_text(bytes@),
{
    let mut text = String::new();
    let mut i: usize = 0;
    while i < bytes.len()
        invariant
            0 <= i <= bytes.len(),
            text@ == querystring_text(bytes@.take(i as int)),
        decreases bytes.len() - i,
    {
        assert(bytes@.take(i + 1).drop_last() =~= bytes@.take(i as int));
        let byte: u8 = bytes[i];
        if (byte >= '0' as u8 && byte <= '9' as u8) || (byte >= 'A' as u8 && byte <= 'Z' as u8) || (
        byte >= 'a' as u8 && byte <= 'z' as u8) || byte == '-' as u8 || byte == '_' as u8 || byte
            == '.' as u8 || byte == '~' as u8 {
            text.push(byte as char);
        } else {
            text.push('%');
            push_hex_byte(&mut text, byte);
        }
        i = i + 1;
    }
    assert(bytes@.take(bytes@.len() as int) =~= bytes@);
    text
}

/// Whether a text that is too long can be cut three bytes short of the limit.
pub open spec fn can_cap(msg: Seq<char>, max_len: int) -> bool {
    encode_utf8(msg).len() > max_len ==> max_len >= 3 && is_char_boundary(
        encode_utf8(msg),
        max_len - 3,
    )
}

/// Text of no more than some bytes: a message, or its beginning and three dots.
pub open spec fn capped(msg: Seq<char>, max_len: int) -> Seq<char> {
    if encode_utf8(msg).len() > max_len {
        decode_utf8(encode_utf8(msg).take(max_len - 3)) + "..."@
    } else {
        msg
    }
}

/// A text of at most `max_len` bytes as it is; a longer one cut off, with an ellipsis.
pub fn cap_length(msg: String, max_len: usize) -> (text: String)
    requires
        can_cap(msg@, max_len as int),
    ensures
        text@ == capped(msg@, max_len as int),
{
    if msg.as_str().as_bytes().len() > max_len {
        let (head, _) = msg.as_str().split_at(max_len - 3);
        proof {
            vstd::utf8::encode_utf8_decode_utf8(head@);
            assert(encode_utf8(head@) =~= encode_utf8(msg@).take(max_len - 3));
        }
        head.to_string().concat("...")
    } else {
        msg
    }
}

/// Whether `cap_length` can cut the text where it has to.
pub fn can_cap_length(msg: &str, max_len: usize) -> (can: bool)
    ensures
        can == can_cap(msg@, max_len as int),
{
    if msg.as_bytes().len() > max_len {
        max_len >= 3 && msg.is_char_boundary(max_len - 3)
    } else {
        true
    }
}

/// A number of bytes being read from a stream, which hands them over in chunks.
#[derive(Debug)]
pub struct PendingRead {
    /// what has arrived
    pub bytes: Vec<u8>,
    /// how many bytes are still to come
    pub missing: usize,
}

/// What has been read and how much is missing after some more bytes have arrived.
pub open spec fn after_chunk(bytes: Seq<u8>, missing: int, chunk: Seq<u8>) -> (Seq<u8>, int) {
    (bytes + chunk, missing - chunk.len())
}

impl PendingRead {
    pub fn new(n: usize) -> (read: Self)
        ensures
            read.bytes@ == Seq::<u8>::empty(),
            read.missing == n,
    {
        PendingRead { bytes: Vec::new(), missing: n }
    }

    /// Take a chunk in. A stream that hands over nothing is given up once the
    /// deadline has passed.
    pub fn receive(&mut self, chunk: &[u8], past_deadline: bool) -> (result: Result<
        (),
        BitTorrentError,
    >)
        requires
            chunk@.len() <= old(self).missing,
        ensures
            (final(self).bytes@, final(self).missing as int) == after_chunk(
                old(self).bytes@,
                old(self).missing as int,
                chunk@,
            ),
            match result {
                Ok(_) => !(chunk@.len() == 0 && past_deadline),
                Err(error) => chunk@.len() == 0 && past_deadline && error@ == "Tcp read timeout"@,
            },
    {
        if chunk.len() == 0 {
            assert(self.bytes@ =~= self.bytes@ + chunk@);
            if past_deadline {
                return Err(bterror("Tcp read timeout"));
            }
        } else {
            self.bytes.extend_from_slice(chunk);
            self.missing = self.missing - chunk.len();
        }
        Ok(())
    }
}

/// Stop a read whose connection has been killed.
pub fn check_killed(killed: bool) -> (result: Result<(), BitTorrentError>)
    ensures
        match result {
            Ok(_) => !killed,
            Err(error) => killed && error@ == "Peer killed"@,
        },
{
    if killed {
        Err(bterror("Peer killed"))
    } else {
        Ok(())
    }
}

/// The shortest time that a read waits, in nanoseconds.
pub const SHORTEST_WAIT: u128 = 1_000_000;

/// How long a read may wait, in nanoseconds: until the deadline, but never less than
/// a millisecond.
pub open spec fn nanos_left(deadline: int, now: int) -> int {
    if deadline - now > SHORTEST_WAIT {
        deadline - now
    } else {
        SHORTEST_WAIT as int
    }
}

/// How long a read may wait, in nanoseconds: until the deadline, but never less than
/// a millisecond.
pub fn time_left(deadline: u128, now: u128) -> (nanos: u128)
    ensures
        nanos == nanos_left(deadline as int, now as int),
{
    if deadline > now && deadline - now > SHORTEST_WAIT {
        deadline - now
    } else {
        SHORTEST_WAIT
    }
}

} // verus!
