//! Reading bencoded data as values that are handed on as text.

use vstd::prelude::*;
use vstd::slice::slice_subrange;
use vstd::utf8::{decode_utf8, decode_utf8_encode_utf8, encode_utf8, valid_utf8};

use crate::bencode::encode::{base64_encoded, bytes_of_text, encode_base64, is_b64};
use crate::bencode::{is_digit_byte, is_tail, lemma_tail_of_tail};
use crate::error::{bterror, bterror_with, BitTorrentError};
use crate::json::{
    array_view, lemma_object_view, object_view, set_member, Json, Number, Object, Value,
};
use crate::keymap::{with_entry, KeyMap};
use crate::text::{
    bytes_to_vec, chars_of, chars_start_with, decimal_nat, i64_error_text, i64_of_text,
    lemma_usize_of_text, parse_i64, parse_usize, push_decimal, string_from_utf8, usize_error_text,
    usize_of_text,
};

pub mod laws;
pub mod standard;

verus! {

/// The first group that a regular expression captures in bytes, and where the whole
/// match ends.
pub uninterp spec fn regex_captured(pattern: Seq<char>, bytes: Seq<u8>) -> Option<
    (Seq<u8>, int),
>;

pub open spec fn captured(result: Option<(Vec<u8>, usize)>) -> Option<(Seq<u8>, int)> {
    match result {
        Some((group, end)) => Some((group@, end as int)),
        None => None,
    }
}

/// How many of the bytes from a position on are the digits `0` to `9`.
pub open spec fn digits_from(bytes: Seq<u8>, at: int) -> int
    decreases bytes.len() - at,
{
    if 0 <= at < bytes.len() && is_digit_byte(bytes[at]) {
        1 + digits_from(bytes, at + 1)
    } else {
        0
    }
}

/// Where the digits of a bencoded integer begin.
pub open spec fn digits_start(bytes: Seq<u8>) -> int {
    if bytes.len() > 1 && bytes[1] == '-' as u8 {
        2
    } else {
        1
    }
}

/// Whether digits end at the end of the bytes or at an ASCII character.
pub open spec fn plain_end(bytes: Seq<u8>, end: int) -> bool {
    end >= bytes.len() || bytes[end] < 128
}

/// Digits of which a byte string's length is made and the end of the length, where no
/// digits but `0` to `9` are in question.
pub open spec fn plain_length(bytes: Seq<u8>) -> Option<(Seq<u8>, int)> {
    let n = digits_from(bytes, 0);
    if 0 < n < bytes.len() && bytes[n] == ':' as u8 {
        Some((bytes.take(n), n + 1))
    } else {
        None
    }
}

/// The sign and digits of an integer and where it ends, where no digits but `0` to `9`
/// are in question.
pub open spec fn plain_integer(bytes: Seq<u8>) -> Option<(Seq<u8>, int)> {
    let start = digits_start(bytes);
    let n = digits_from(bytes, start);
    if 0 < n && start + n < bytes.len() && bytes[0] == 'i' as u8 && bytes[start + n] == 'e' as u8 {
        Some((bytes.subrange(1, start + n), start + n + 1))
    } else {
        None
    }
}

/// `regex::bytes::Regex::captures`, for one of two patterns: the first group and the
/// end of the match. The group is UTF-8, since a Unicode class matches whole characters
/// only, and the match is not empty and lies within the bytes. Where an ASCII
/// character or the end of the bytes stops the digits `0` to `9`, no other character of
/// the class `\d` can take part in the match, which is then the plain one.
#[verifier::external_body]
fn captures(pattern: &str, bytes: &[u8]) -> (result: Option<(Vec<u8>, usize)>)
    requires
        pattern@ == "^(\\d+):"@ || pattern@ == "^i(-?\\d+)e"@,
    ensures
        captured(result) == regex_captured(pattern@, bytes@),
        match result {
            Some((group, end)) => valid_utf8(group@) && 0 < end <= bytes@.len(),
            None => true,
        },
        pattern@ == "^(\\d+):"@ && plain_end(bytes@, digits_from(bytes@, 0)) ==> captured(result)
            == plain_length(bytes@),
        pattern@ == "^i(-?\\d+)e"@ && plain_end(
            bytes@,
            digits_start(bytes@) + digits_from(bytes@, digits_start(bytes@)),
        ) ==> captured(result) == plain_integer(bytes@),
{
    regex::bytes::Regex::new(pattern)
        .expect("regex compilation failed")
        .captures(bytes)
        .and_then(|found| Some((found.get(1)?.as_bytes().to_vec(), found.get(0)?.end())))
}

/// A match that lies within the bytes.
pub open spec fn within(found: Option<(Seq<u8>, int)>, bytes: Seq<u8>) -> Option<(Seq<u8>, int)> {
    match found {
        Some((group, end)) => if 0 < end <= bytes.len() {
            found
        } else {
            None
        },
        None => None,
    }
}

/// The length of a byte string at the front of bytes.
pub open spec fn length_head(bytes: Seq<u8>) -> Option<(Seq<u8>, int)> {
    within(
        if plain_end(bytes, digits_from(bytes, 0)) {
            plain_length(bytes)
        } else {
            regex_captured("^(\\d+):"@, bytes)
        },
        bytes,
    )
}

/// The integer at the front of bytes.
pub open spec fn integer_head(bytes: Seq<u8>) -> Option<(Seq<u8>, int)> {
    within(
        if plain_end(bytes, digits_start(bytes) + digits_from(bytes, digits_start(bytes))) {
            plain_integer(bytes)
        } else {
            regex_captured("^i(-?\\d+)e"@, bytes)
        },
        bytes,
    )
}

/// The text that stands for bytes: themselves as UTF-8, or else in marked base64.
pub open spec fn text_of_bytes(bytes: Seq<u8>) -> Seq<char> {
    if valid_utf8(bytes) {
        decode_utf8(bytes)
    } else {
        "base64:"@ + base64_encoded(bytes)
    }
}

/// The text that stands for bytes. It stands for those bytes when it is encoded, unless
/// they are themselves a text marked as base64.
pub fn maybe_b64_string(bytes: &[u8]) -> (text: String)
    ensures
        text@ == text_of_bytes(bytes@),
        !(valid_utf8(bytes@) && is_b64(decode_utf8(bytes@))) ==> bytes_of_text(text@) == Ok::<
            Seq<u8>,
            Seq<char>,
        >(bytes@),
{
    match string_from_utf8(bytes_to_vec(bytes)) {
        Ok(text) => {
            proof {
                decode_utf8_encode_utf8(bytes@);
            }
            text
        },
        Err(_) => {
            let written = encode_base64(bytes);
            let text = "base64:".to_string().concat(written.as_str());
            proof {
                let n = "base64:"@.len() as int;
                assert(text@.take(n) =~= "base64:"@);
                assert(text@.skip(n) =~= written@);
            }
            text
        },
    }
}

/// The text that stands for bytes whatever they are: themselves as UTF-8, or else in marked
/// base64; text that is itself marked as base64 is marked again.
pub open spec fn marked_text(bytes: Seq<u8>) -> Seq<char> {
    if valid_utf8(bytes) && !is_b64(decode_utf8(bytes)) {
        decode_utf8(bytes)
    } else {
        "base64:"@ + base64_encoded(bytes)
    }
}

/// The text that stands for bytes whatever they are: it stands for those bytes when it is
/// encoded.
pub fn marked_string(bytes: &[u8]) -> (text: String)
    ensures
        text@ == marked_text(bytes@),
        bytes_of_text(text@) == Ok::<Seq<u8>, Seq<char>>(bytes@),
{
    match string_from_utf8(bytes_to_vec(bytes)) {
        Ok(text) => {
            if !chars_start_with(chars_of(text.as_str()).as_slice(), "base64:") {
                proof {
                    decode_utf8_encode_utf8(bytes@);
                }
                return text;
            }
        },
        Err(_) => {},
    }
    let written = encode_base64(bytes);
    let text = "base64:".to_string().concat(written.as_str());
    proof {
        let n = "base64:"@.len() as int;
        assert(text@.take(n) =~= "base64:"@);
        assert(text@.skip(n) =~= written@);
    }
    text
}

/// Numbers in decimal with commas between them.
pub open spec fn listed(bytes: Seq<u8>) -> Seq<char>
    decreases bytes.len(),
{
    if bytes.len() == 0 {
        seq![]
    } else if bytes.len() == 1 {
        decimal_nat(bytes[0] as nat)
    } else {
        listed(bytes.drop_last()) + ", "@ + decimal_nat(bytes.last() as nat)
    }
}

/// Bytes listed as numbers.
pub fn list_bytes(bytes: &[u8]) -> (text: String)
    ensures
        text@ == "["@ + listed(bytes@) + "]"@,
{
    let mut text = "[".to_string();
    let mut i: usize = 0;
    assert("["@ =~= "["@ + listed(bytes@.take(0)));
    while i < bytes.len()
        invariant
            0 <= i <= bytes.len(),
            text@ == "["@ + listed(bytes@.take(i as int)),
        decreases bytes.len() - i,
    {
        let ghost before = text@;
        assert(bytes@.take(i + 1).drop_last() =~= bytes@.take(i as int));
        assert(bytes@.take(i + 1).last() == bytes@[i as int]);
        if i > 0 {
            text.append(", ");
        }
        push_decimal(&mut text, bytes[i] as u128);
        i = i + 1;
        assert(text@ =~= "["@ + listed(bytes@.take(i as int)));
    }
    assert(bytes@.take(i as int) =~= bytes@);
    text.append("]");
    text
}

/// What reading one value off the front of some bytes gives: the value, or a
/// description of what is wrong; and the bytes that are left.
pub open spec fn consumed(bytes: Seq<u8>) -> (Result<Json, Seq<char>>, Seq<u8>)
    decreases bytes.len(), 0int,
{
    if bytes.len() > 0 && bytes[0] == 'd' as u8 {
        consumed_members(bytes.skip(1), seq![])
    } else if bytes.len() > 0 && bytes[0] == 'l' as u8 {
        consumed_items(bytes.skip(1), seq![])
    } else if bytes.len() > 0 && bytes[0] == 'i' as u8 {
        consumed_integer(bytes)
    } else if bytes.len() > 0 && is_digit_byte(bytes[0]) {
        consumed_text(bytes)
    } else {
        (Err("Unhandled encoded value: "@ + ("["@ + listed(bytes) + "]"@)), bytes)
    }
}

/// The same for an integer.
pub open spec fn consumed_integer(bytes: Seq<u8>) -> (Result<Json, Seq<char>>, Seq<u8>) {
    match integer_head(bytes) {
        None => (Err("Error parsing encoded integer"@), bytes),
        Some((digits, end)) => match i64_of_text(decode_utf8(digits)) {
            Some(n) => (Ok(Json::Number(n)), bytes.skip(end)),
            None => (
                Err("Error parsing encoded integer: "@ + i64_error_text(decode_utf8(digits))),
                bytes,
            ),
        },
    }
}

/// The same for a byte string.
pub open spec fn consumed_text(bytes: Seq<u8>) -> (Result<Json, Seq<char>>, Seq<u8>) {
    match length_head(bytes) {
        None => (Err("Error parsing encoded string length"@), bytes),
        Some((digits, start)) => match usize_of_text(decode_utf8(digits)) {
            None => (
                Err(
                    "Error parsing encoded string length: "@ + usize_error_text(
                        decode_utf8(digits),
                    ),
                ),
                bytes,
            ),
            Some(length) => {
                let end = start + length;
                if end > bytes.len() {
                    (
                        Err(
                            "Content length too long: requested "@ + decimal_nat(end as nat)
                                + " chars, stream only has "@ + decimal_nat(bytes.len())
                                + " chars"@,
                        ),
                        bytes,
                    )
                } else {
                    (Ok(Json::Text(text_of_bytes(bytes.subrange(start, end)))), bytes.skip(end))
                }
            },
        },
    }
}

/// The same for the rest of a list after some of its items.
pub open spec fn consumed_items(rest: Seq<u8>, items: Seq<Json>) -> (
    Result<Json, Seq<char>>,
    Seq<u8>,
)
    decreases rest.len(), 1int,
{
    if rest.len() == 0 {
        (Err("Error parsing encoded list: ending delimiter missing"@), rest)
    } else if rest[0] == 'e' as u8 {
        (Ok(Json::Array(items)), rest.skip(1))
    } else {
        match consumed(rest) {
            (Err(complaint), left) => (Err(complaint), left),
            (Ok(value), left) => if left.len() < rest.len() {
                consumed_items(left, items.push(value))
            } else {
                (Err(seq![]), left)
            },
        }
    }
}

/// The same for the rest of a dictionary after some of its pairs.
pub open spec fn consumed_members(rest: Seq<u8>, pairs: Seq<(Seq<u8>, Json)>) -> (
    Result<Json, Seq<char>>,
    Seq<u8>,
)
    decreases rest.len(), 1int,
{
    if rest.len() == 0 {
        (Err("Error parsing encoded dictionary: ending delimiter missing"@), rest)
    } else if rest[0] == 'e' as u8 {
        (Ok(Json::Object(pairs)), rest.skip(1))
    } else {
        match consumed(rest) {
            (Err(complaint), left) => (Err(complaint), left),
            (Ok(Json::Text(key)), left) => if left.len() < rest.len() {
                match consumed(left) {
                    (Err(complaint), left) => (Err(complaint), left),
                    (Ok(value), left) => if left.len() < rest.len() {
                        consumed_members(left, with_entry(pairs, encode_utf8(key), value))
                    } else {
                        (Err(seq![]), left)
                    },
                }
            } else {
                (Err(seq![]), left)
            },
            (Ok(_), left) => (Err("Key element is not a string"@), left),
        }
    }
}

/// Reading leaves a tail of the bytes, whether it succeeds or not; a value that is
/// read takes at least one byte.
pub proof fn consumed_leaves_tail(bytes: Seq<u8>)
    ensures
        is_tail(consumed(bytes).1, bytes),
        consumed(bytes).0 is Ok ==> consumed(bytes).1.len() < bytes.len(),
    decreases bytes.len(), 0int,
{
    assert(is_tail(bytes, bytes)) by {
        assert(bytes =~= bytes.skip(0));
    }
    if bytes.len() > 0 && bytes[0] == 'd' as u8 {
        assert(is_tail(bytes.skip(1), bytes));
        lemma_members_leave_tail(bytes.skip(1), seq![], bytes);
    } else if bytes.len() > 0 && bytes[0] == 'l' as u8 {
        assert(is_tail(bytes.skip(1), bytes));
        lemma_items_leave_tail(bytes.skip(1), seq![], bytes);
    } else if bytes.len() > 0 && is_digit_byte(bytes[0]) {
        if let Some((digits, start)) = length_head(bytes) {
            lemma_usize_of_text(decode_utf8(digits));
        }
    }
}

proof fn lemma_items_leave_tail(rest: Seq<u8>, items: Seq<Json>, bytes: Seq<u8>)
    requires
        is_tail(rest, bytes),
    ensures
        is_tail(consumed_items(rest, items).1, bytes),
        consumed_items(rest, items).1.len() <= rest.len(),
    decreases rest.len(), 1int,
{
    if rest.len() > 0 {
        if rest[0] == 'e' as u8 {
            assert(is_tail(rest.skip(1), rest));
            lemma_tail_of_tail(rest.skip(1), rest, bytes);
        } else {
            consumed_leaves_tail(rest);
            let (value, left) = consumed(rest);
            lemma_tail_of_tail(left, rest, bytes);
            if value is Ok {
                lemma_items_leave_tail(left, items.push(value->Ok_0), bytes);
            }
        }
    }
}

proof fn lemma_members_leave_tail(rest: Seq<u8>, pairs: Seq<(Seq<u8>, Json)>, bytes: Seq<u8>)
    requires
        is_tail(rest, bytes),
    ensures
        is_tail(consumed_members(rest, pairs).1, bytes),
        consumed_members(rest, pairs).1.len() <= rest.len(),
    decreases rest.len(), 1int,
{
    if rest.len() > 0 {
        if rest[0] == 'e' as u8 {
            assert(is_tail(rest.skip(1), rest));
            lemma_tail_of_tail(rest.skip(1), rest, bytes);
        } else {
            consumed_leaves_tail(rest);
            let (key, left) = consumed(rest);
            lemma_tail_of_tail(left, rest, bytes);
            if let Ok(Json::Text(key)) = key {
                consumed_leaves_tail(left);
                let (value, left2) = consumed(left);
                lemma_tail_of_tail(left2, left, bytes);
                if value is Ok {
                    lemma_members_leave_tail(
                        left2,
                        with_entry(pairs, encode_utf8(key), value->Ok_0),
                        bytes,
                    );
                }
            }
        }
    }
}

/// What a step of reading came to.
pub open spec fn read_off(
    result: Result<Value, BitTorrentError>,
    left: Seq<u8>,
) -> (Result<Json, Seq<char>>, Seq<u8>) {
    (crate::error::outcome(result), left)
}

pub struct Decoder {}

impl Decoder {
    /// Create a new decoder.
    pub fn new() -> (decoder: Decoder) {
        Decoder {  }
    }

    /// Decode a bencoded dictionary.
    fn decode_dictionary(&self, data: &mut &[u8]) -> (result: Result<Value, BitTorrentError>)
        requires
            old(data)@.len() > 0,
            old(data)@[0] == 'd' as u8,
        ensures
            read_off(result, final(data)@) == consumed(old(data)@),
        decreases old(data)@.len(), 0int,
    {
        let whole: &[u8] = *data;
        *data = slice_subrange(whole, 1, whole.len());
        assert(data@ =~= whole@.skip(1));
        let mut object: Object = KeyMap::new();
        proof {
            lemma_object_view(object);
            assert(object_view(object) =~= seq![]);
        }
        loop
            invariant
                whole@ == old(data)@,
                whole@.len() > 0,
                whole@[0] == 'd' as u8,
                data@.len() < whole@.len(),
                consumed(whole@) == consumed_members(data@, object_view(object)),
            decreases data@.len(),
        {
            let rest: &[u8] = *data;
            if rest.len() == 0 {
                return Err(
                    bterror("Error parsing encoded dictionary: ending delimiter missing"),
                );
            }
            if rest[0] == 'e' as u8 {
                *data = slice_subrange(rest, 1, rest.len());
                assert(data@ =~= rest@.skip(1));
                return Ok(Value::Object(object));
            }
            proof {
                consumed_leaves_tail(rest@);
                consumed_leaves_tail(consumed(rest@).1);
            }
            let key = match self.consume_bencoded_value(data) {
                Ok(Value::Text(key)) => key,
                Ok(_) => {
                    return Err(bterror("Key element is not a string"));
                },
                Err(error) => {
                    return Err(error);
                },
            };
            let value = match self.consume_bencoded_value(data) {
                Ok(value) => value,
                Err(error) => {
                    return Err(error);
                },
            };
            set_member(&mut object, key, value);
        }
    }

    /// Decode a bencoded list.
    fn decode_list(&self, data: &mut &[u8]) -> (result: Result<Value, BitTorrentError>)
        requires
            old(data)@.len() > 0,
            old(data)@[0] == 'l' as u8,
        ensures
            read_off(result, final(data)@) == consumed(old(data)@),
        decreases old(data)@.len(), 0int,
    {
        let whole: &[u8] = *data;
        *data = slice_subrange(whole, 1, whole.len());
        assert(data@ =~= whole@.skip(1));
        let mut list: Vec<Value> = Vec::new();
        assert(array_view(list@) =~= seq![]);
        loop
            invariant
                whole@ == old(data)@,
                whole@.len() > 0,
                whole@[0] == 'l' as u8,
                data@.len() < whole@.len(),
                consumed(whole@) == consumed_items(data@, array_view(list@)),
            decreases data@.len(),
        {
            let rest: &[u8] = *data;
            if rest.len() == 0 {
                return Err(bterror("Error parsing encoded list: ending delimiter missing"));
            }
            if rest[0] == 'e' as u8 {
                *data = slice_subrange(rest, 1, rest.len());
                assert(data@ =~= rest@.skip(1));
                return Ok(Value::Array(list));
            }
            proof {
                consumed_leaves_tail(rest@);
            }
            let value = match self.consume_bencoded_value(data) {
                Ok(value) => value,
                Err(error) => {
                    return Err(error);
                },
            };
            let ghost before = list@;
            list.push(value);
            assert(array_view(list@) =~= array_view(before).push(value@));
        }
    }

    /// Decode a bencoded integer.
    fn decode_integer(&self, data: &mut &[u8]) -> (result: Result<Value, BitTorrentError>)
        requires
            old(data)@.len() > 0,
        ensures
            read_off(result, final(data)@) == consumed_integer(old(data)@),
    {
        let whole: &[u8] = *data;
        match captures("^i(-?\\d+)e", whole) {
            None => Err(bterror("Error parsing encoded integer")),
            Some((digits, end)) => match string_from_utf8(digits) {
                Ok(text) => match parse_i64(text.as_str()) {
                    Ok(n) => {
                        *data = slice_subrange(whole, end, whole.len());
                        assert(data@ =~= whole@.skip(end as int));
                        Ok(Value::Number(Number::from_i64(n)))
                    },
                    Err(complaint) => Err(
                        bterror_with("Error parsing encoded integer: ", complaint.as_str()),
                    ),
                },
                Err(complaint) => Err(
                    bterror_with("Error decoding integer bytes: ", complaint.as_str()),
                ),
            },
        }
    }

    /// Decode a bencoded string.
    fn decode_string(&self, data: &mut &[u8]) -> (result: Result<Value, BitTorrentError>)
        requires
            old(data)@.len() > 0,
        ensures
            read_off(result, final(data)@) == consumed_text(old(data)@),
    {
        let whole: &[u8] = *data;
        let (digits, start): (Vec<u8>, usize) = match captures("^(\\d+):", whole) {
            None => {
                return Err(bterror("Error parsing encoded string length"));
            },
            Some(found) => found,
        };
        let text = match string_from_utf8(digits) {
            Ok(text) => text,
            Err(complaint) => {
                return Err(bterror_with("Error decoding integer bytes: ", complaint.as_str()));
            },
        };
        let length: usize = match parse_usize(text.as_str()) {
            Ok(length) => length,
            Err(complaint) => {
                return Err(
                    bterror_with("Error parsing encoded string length: ", complaint.as_str()),
                );
            },
        };
        let end: u128 = start as u128 + length as u128;
        if end > whole.len() as u128 {
            let mut message = "Content length too long: requested ".to_string();
            push_decimal(&mut message, end);
            message.append(" chars, stream only has ");
            push_decimal(&mut message, whole.len() as u128);
            message.append(" chars");
            Err(BitTorrentError::new(message))
        } else {
            let content = slice_subrange(whole, start, end as usize);
            *data = slice_subrange(whole, end as usize, whole.len());
            assert(data@ =~= whole@.skip(end as int));
            Ok(Value::Text(maybe_b64_string(content)))
        }
    }

    /// Consume a single bencoded value from a byte slice.
    /// Returns the value as a result, and drops the consumed value from the slice,
    /// modifying it in place.
    pub fn consume_bencoded_value(&self, data: &mut &[u8]) -> (result: Result<
        Value,
        BitTorrentError,
    >)
        ensures
            read_off(result, final(data)@) == consumed(old(data)@),
        decreases old(data)@.len(), 1int,
    {
        let whole: &[u8] = *data;
        if whole.len() == 0 {
            return Err(
                bterror_with("Unhandled encoded value: ", list_bytes(whole).as_str()),
            );
        }
        let first: u8 = whole[0];
        if first == 'd' as u8 {
            self.decode_dictionary(data)
        } else if first == 'l' as u8 {
            self.decode_list(data)
        } else if first == 'i' as u8 {
            self.decode_integer(data)
        } else if '0' as u8 <= first && first <= '9' as u8 {
            self.decode_string(data)
        } else {
            Err(bterror_with("Unhandled encoded value: ", list_bytes(whole).as_str()))
        }
    }
}

} // verus!
