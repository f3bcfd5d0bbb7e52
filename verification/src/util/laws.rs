//! What holds of bits, of bytes in text, and of text that is cut.

use vstd::arithmetic::power2::{lemma2_to64, pow2};
use vstd::prelude::*;
use vstd::utf8::{
    decode_utf8, decode_utf8_encode_utf8, encode_utf8, encode_utf8_valid_utf8, valid_utf8_split,
};

use crate::be::{be_limit, be_value};
use crate::text::laws::{concat_text_joins, concat_text_of_one, hex_digits_stand_for_byte};
use crate::text::hex_byte;
use crate::util::{
    after_chunk, bits_of, byte_of, can_cap, capped, hex_digit_value, hex_text, is_unreserved,
    nanos_left, querystring_byte, querystring_text,
};

verus! {

/// The bits of a byte come with the most significant one first.
pub proof fn bits_come_high_to_low(byte: u8, i: int)
    requires
        0 <= i < 8,
    ensures
        bits_of(byte).len() == 8,
        bits_of(byte)[i] == ((byte as int / pow2((7 - i) as nat) as int) % 2 == 1),
{
    lemma2_to64();
    if i == 0 {
        assert(pow2((7 - i) as nat) == 128);
    } else if i == 1 {
        assert(pow2((7 - i) as nat) == 64);
    } else if i == 2 {
        assert(pow2((7 - i) as nat) == 32);
    } else if i == 3 {
        assert(pow2((7 - i) as nat) == 16);
    } else if i == 4 {
        assert(pow2((7 - i) as nat) == 8);
    } else if i == 5 {
        assert(pow2((7 - i) as nat) == 4);
    } else if i == 6 {
        assert(pow2((7 - i) as nat) == 2);
    } else {
        assert(pow2((7 - i) as nat) == 1);
    }
}

/// A byte with a single bit set is a power of two, the greater the earlier the bit.
pub proof fn single_bit_is_power(i: int)
    requires
        0 <= i < 8,
    ensures
        byte_of(Seq::new(8, |j: int| j == i)) == pow2((7 - i) as nat),
{
    lemma2_to64();
}

/// Hexadecimal digits are in lower case, and two to a byte, in the order of the bytes.
pub proof fn hex_text_goes_by_bytes(a: Seq<u8>, byte: u8, b: Seq<u8>)
    ensures
        hex_text(a + seq![byte] + b) == hex_text(a) + hex_text(seq![byte]) + hex_text(b),
        hex_text(seq![byte]).len() == 2,
        hex_digit_value(hex_text(seq![byte])[0]) matches Some(high) && hex_digit_value(
            hex_text(seq![byte])[1],
        ) matches Some(low) && high * 16 + low == byte,
        forall|i: int| 0 <= i < 2 ==> !('A' <= #[trigger] hex_text(seq![byte])[i] <= 'F'),
{
    let part = |byte: u8| hex_byte(byte);
    concat_text_joins(a, seq![byte], part);
    concat_text_joins(a + seq![byte], b, part);
    concat_text_of_one(byte, part);
    hex_digits_stand_for_byte(byte);
}

/// The bytes that a text with escapes stands for: `%` and two digits for any byte, other
/// characters for themselves.
pub open spec fn percent_decoded(text: Seq<char>) -> Seq<u8>
    decreases text.len(),
{
    if text.len() == 0 {
        seq![]
    } else if text[0] == '%' && text.len() >= 3 {
        seq![(hex_digit_value(text[1])->0 * 16 + hex_digit_value(text[2])->0) as u8]
            + percent_decoded(text.skip(3))
    } else {
        seq![text[0] as u8] + percent_decoded(text.skip(1))
    }
}

proof fn lemma_first_querystring_byte(bytes: Seq<u8>)
    requires
        bytes.len() > 0,
    ensures
        querystring_text(bytes) == querystring_byte(bytes[0]) + querystring_text(
            bytes.drop_first(),
        ),
{
    let part = |byte: u8| querystring_byte(byte);
    concat_text_joins(seq![bytes[0]], bytes.drop_first(), part);
    concat_text_of_one(bytes[0], part);
    assert(seq![bytes[0]] + bytes.drop_first() =~= bytes);
}

/// Bytes in a query read back.
pub proof fn querystring_reads_back(bytes: Seq<u8>)
    ensures
        percent_decoded(querystring_text(bytes)) == bytes,
    decreases bytes.len(),
{
    let text = querystring_text(bytes);
    if bytes.len() == 0 {
        assert(text =~= seq![]);
        assert(bytes =~= seq![]);
    } else {
        let rest = bytes.drop_first();
        querystring_reads_back(rest);
        lemma_first_querystring_byte(bytes);
        hex_digits_stand_for_byte(bytes[0]);
        if is_unreserved(bytes[0]) {
            assert(text.skip(1) =~= querystring_text(rest));
        } else {
            assert(text[1] == hex_byte(bytes[0])[0]);
            assert(text[2] == hex_byte(bytes[0])[1]);
            assert(text.skip(3) =~= querystring_text(rest));
        }
        assert(seq![bytes[0]] + rest =~= bytes);
    }
}

/// Whether a character stands for itself in a query.
pub open spec fn is_query_char(c: char) -> bool {
    '0' <= c <= '9' || 'A' <= c <= 'Z' || 'a' <= c <= 'z' || c == '-' || c == '_' || c == '.' || c
        == '~'
}

/// Bytes in a query hold no character that has a meaning there.
pub proof fn querystring_has_plain_characters(bytes: Seq<u8>, i: int)
    requires
        0 <= i < querystring_text(bytes).len(),
    ensures
        is_query_char(querystring_text(bytes)[i]) || querystring_text(bytes)[i] == '%',
    decreases bytes.len(),
{
    if bytes.len() > 0 {
        lemma_first_querystring_byte(bytes);
        let first = querystring_byte(bytes[0]);
        if i < first.len() {
            assert(querystring_text(bytes)[i] == first[i]);
            hex_digits_stand_for_byte(bytes[0]);
        } else {
            querystring_has_plain_characters(bytes.drop_first(), i - first.len());
        }
    }
}

/// Letters, digits and the four signs that need no escape have none in a query.
pub proof fn plain_bytes_have_no_escapes(bytes: Seq<u8>)
    requires
        forall|i: int| 0 <= i < bytes.len() ==> is_query_char(#[trigger] bytes[i] as char),
    ensures
        querystring_text(bytes) == bytes.map_values(|byte: u8| byte as char),
    decreases bytes.len(),
{
    if bytes.len() > 0 {
        let rest = bytes.drop_first();
        assert forall|i: int| 0 <= i < rest.len() implies is_query_char(
            #[trigger] rest[i] as char,
        ) by {
            assert(rest[i] == bytes[i + 1]);
        }
        plain_bytes_have_no_escapes(rest);
        lemma_first_querystring_byte(bytes);
        assert(is_query_char(bytes[0] as char));
        assert(seq![bytes[0] as char] + rest.map_values(|byte: u8| byte as char)
            =~= bytes.map_values(|byte: u8| byte as char));
    }
}

/// Text is encoded part by part.
pub proof fn lemma_encode_joins(a: Seq<char>, b: Seq<char>)
    ensures
        encode_utf8(a + b) == encode_utf8(a) + encode_utf8(b),
    decreases a.len(),
{
    if a.len() == 0 {
        assert(a + b =~= b);
        assert(encode_utf8(a) + encode_utf8(b) =~= encode_utf8(b));
    } else {
        lemma_encode_joins(a.drop_first(), b);
        assert((a + b).drop_first() =~= a.drop_first() + b);
        assert(encode_utf8(a + b) =~= encode_utf8(a) + encode_utf8(b));
    }
}

/// Text that is cut fits into the bytes that there are for it. It is the whole message if
/// that fits; else it fills them, with the beginning of the message and three dots.
pub proof fn capped_text_fits(msg: Seq<char>, max_len: int)
    requires
        can_cap(msg, max_len),
        0 <= max_len,
    ensures
        encode_utf8(capped(msg, max_len)).len() <= max_len,
        encode_utf8(msg).len() <= max_len ==> capped(msg, max_len) == msg,
        encode_utf8(msg).len() > max_len ==> {
            let text = encode_utf8(capped(msg, max_len));
            &&& text.len() == max_len
            &&& text.take(max_len - 3) == encode_utf8(msg).take(max_len - 3)
            &&& text.skip(max_len - 3) == seq!['.' as u8, '.' as u8, '.' as u8]
        },
{
    let bytes = encode_utf8(msg);
    if bytes.len() > max_len {
        encode_utf8_valid_utf8(msg);
        let head = bytes.take(max_len - 3);
        assert(head =~= bytes.subrange(0, max_len - 3));
        valid_utf8_split(bytes, max_len - 3);
        assert(vstd::utf8::valid_utf8(bytes.subrange(0, max_len - 3)));
        decode_utf8_encode_utf8(head);
        lemma_encode_joins(decode_utf8(head), "..."@);
        assert(encode_utf8("..."@) =~= seq!['.' as u8, '.' as u8, '.' as u8]) by {
            reveal_strlit("...");
            crate::text::lemma_ascii("..."@);
            vstd::utf8::is_ascii_chars_encode_utf8("..."@);
        }
        let text = encode_utf8(capped(msg, max_len));
        assert(text =~= head + seq!['.' as u8, '.' as u8, '.' as u8]);
        assert(text.take(max_len - 3) =~= head);
        assert(text.skip(max_len - 3) =~= seq!['.' as u8, '.' as u8, '.' as u8]);
    }
}

/// A number in bytes has its most significant byte first: each byte counts for as much as
/// all values of the bytes behind it.
pub proof fn first_byte_counts_most(byte: u8, rest: Seq<u8>)
    ensures
        be_value(seq![byte] + rest) == byte * be_limit(rest.len()) + be_value(rest),
        be_value(rest) < be_limit(rest.len()),
    decreases rest.len(),
{
    crate::be::lemma_be_value_bound(rest);
    let all = seq![byte] + rest;
    if rest.len() == 0 {
        assert(all.drop_last() =~= Seq::<u8>::empty());
        assert(be_value(all.drop_last()) == 0);
        assert(be_limit(0) == 1);
    } else {
        first_byte_counts_most(byte, rest.drop_last());
        assert(all.drop_last() =~= seq![byte] + rest.drop_last());
        let less = be_limit((rest.len() - 1) as nat) as int;
        assert((byte * less) * 256 == byte * (256 * less)) by (nonlinear_arith);
    }
}

/// A read waits until its deadline if that is more than a millisecond ahead, else for a
/// millisecond.
pub proof fn read_waits_for_deadline(deadline: int, now: int)
    ensures
        nanos_left(deadline, now) >= 1_000_000,
        nanos_left(deadline, now) >= deadline - now,
        nanos_left(deadline, now) == deadline - now || nanos_left(deadline, now) == 1_000_000,
{
}

/// What is read is what arrives, in its order, however it is cut; once nothing is missing it
/// is as long as was asked for.
pub proof fn reads_are_joined(bytes: Seq<u8>, missing: int, a: Seq<u8>, b: Seq<u8>)
    ensures
        ({
            let (first, left) = after_chunk(bytes, missing, a);
            &&& after_chunk(first, left, b) == after_chunk(bytes, missing, a + b)
            &&& first.len() + left == bytes.len() + missing
            &&& first.take(bytes.len() as int) == bytes
            &&& first.skip(bytes.len() as int) == a
        }),
{
    let (first, left) = after_chunk(bytes, missing, a);
    assert(first + b =~= bytes + (a + b));
    assert(first.take(bytes.len() as int) =~= bytes);
    assert(first.skip(bytes.len() as int) =~= a);
}

} // verus!
