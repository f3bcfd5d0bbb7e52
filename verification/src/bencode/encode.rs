//! Bencoding of values that are handed on as text.

use vstd::prelude::*;
use vstd::slice::slice_subrange;
use vstd::utf8::{decode_utf8, encode_utf8, encode_utf8_decode_utf8};

use crate::error::{bterror, bterror_with, outcome, BitTorrentError};
use crate::json::{array_view, lemma_object_entries, object_view, Json, Number, Value};
use crate::text::{chars_of, chars_start_with, decimal, decimal_nat, push_decimal, string_of_chars};

verus! {

/// The bytes that a text in unpadded base64 writes, or what the `base64` crate says
/// about a text that is none.
pub uninterp spec fn base64_decoded(text: Seq<char>) -> Result<Seq<u8>, Seq<char>>;

/// Bytes written in unpadded base64.
pub uninterp spec fn base64_encoded(bytes: Seq<u8>) -> Seq<char>;

/// `Engine::decode` of base64's `STANDARD_NO_PAD`.
#[verifier::external_body]
fn decode_base64(text: &str) -> (result: Result<Vec<u8>, String>)
    ensures
        match result {
            Ok(bytes) => base64_decoded(text@) == Ok::<Seq<u8>, Seq<char>>(bytes@),
            Err(complaint) => base64_decoded(text@) == Err::<Seq<u8>, Seq<char>>(complaint@),
        },
{
    base64::Engine::decode(&base64::engine::general_purpose::STANDARD_NO_PAD, text).map_err(
        |error| error.to_string(),
    )
}

/// `Engine::encode` of base64's `STANDARD_NO_PAD`; the same engine decodes what it
/// encoded to the same bytes.
#[verifier::external_body]
pub(crate) fn encode_base64(bytes: &[u8]) -> (text: String)
    ensures
        text@ == base64_encoded(bytes@),
        base64_decoded(text@) is Ok && base64_decoded(text@)->Ok_0 == bytes@,
{
    base64::Engine::encode(&base64::engine::general_purpose::STANDARD_NO_PAD, bytes)
}

/// Whether a text is marked as base64.
pub open spec fn is_b64(text: Seq<char>) -> bool {
    text.len() >= "base64:"@.len() && text.take("base64:"@.len() as int) == "base64:"@
}

/// The bytes that a text stands for: those that it writes in base64 if it is marked so,
/// and its own otherwise.
pub open spec fn bytes_of_text(text: Seq<char>) -> Result<Seq<u8>, Seq<char>> {
    if is_b64(text) {
        match base64_decoded(text.skip("base64:"@.len() as int)) {
            Ok(bytes) => Ok(bytes),
            Err(complaint) => Err("Error decoding base64 for string value: "@ + complaint),
        }
    } else {
        Ok(encode_utf8(text))
    }
}

/// Encode a string that may contain base64 encoded bytes directly into a byte vector.
pub fn encode_maybe_b64_string(string: &str) -> (result: Result<Vec<u8>, BitTorrentError>)
    ensures
        outcome(result) == bytes_of_text(string@),
{
    proof {
        reveal_strlit("base64:");
    }
    let chars = chars_of(string);
    if chars_start_with(chars.as_slice(), "base64:") {
        let written = slice_subrange(chars.as_slice(), 7, chars.len());
        assert(written@ =~= string@.skip(7));
        match decode_base64(string_of_chars(written).as_str()) {
            Ok(bytes) => Ok(bytes),
            Err(complaint) => Err(
                bterror_with("Error decoding base64 for string value: ", complaint.as_str()),
            ),
        }
    } else {
        Ok(crate::text::bytes_to_vec(string.as_bytes()))
    }
}

/// Two outputs one after the other, or the first error.
pub open spec fn joined(
    a: Result<Seq<u8>, Seq<char>>,
    b: Result<Seq<u8>, Seq<char>>,
) -> Result<Seq<u8>, Seq<char>> {
    match a {
        Err(complaint) => Err(complaint),
        Ok(first) => match b {
            Err(complaint) => Err(complaint),
            Ok(second) => Ok(first + second),
        },
    }
}

/// Output that is no error.
pub open spec fn written(bytes: Seq<u8>) -> Result<Seq<u8>, Seq<char>> {
    Ok(bytes)
}

/// A text bencoded: the bytes it stands for after their number.
pub open spec fn bencoded_text(text: Seq<char>) -> Result<Seq<u8>, Seq<char>> {
    match bytes_of_text(text) {
        Ok(bytes) => Ok(encode_utf8(decimal_nat(bytes.len()) + ":"@) + bytes),
        Err(complaint) => Err(complaint),
    }
}

/// A value bencoded.
pub open spec fn bencoded(value: Json) -> Result<Seq<u8>, Seq<char>>
    decreases value,
{
    match value {
        Json::Number(n) => Ok(seq!['i' as u8] + encode_utf8(decimal(n)) + seq!['e' as u8]),
        Json::Text(text) => bencoded_text(text),
        Json::Array(items) => joined(
            joined(written(seq!['l' as u8]), bencoded_items(items)),
            written(seq!['e' as u8]),
        ),
        Json::Object(pairs) => joined(
            joined(written(seq!['d' as u8]), bencoded_members(pairs)),
            written(seq!['e' as u8]),
        ),
        Json::Null => Err("Invalid value type for bencoding: null"@),
        Json::Bool(true) => Err("Invalid value type for bencoding: true"@),
        Json::Bool(false) => Err("Invalid value type for bencoding: false"@),
    }
}

/// Values bencoded one after the other.
pub open spec fn bencoded_items(items: Seq<Json>) -> Result<Seq<u8>, Seq<char>>
    decreases items,
{
    if items.len() == 0 {
        Ok(seq![])
    } else {
        joined(bencoded(items[0]), bencoded_items(items.drop_first()))
    }
}

/// Keys and values bencoded one after the other; a null member is left out.
pub open spec fn bencoded_members(pairs: Seq<(Seq<u8>, Json)>) -> Result<Seq<u8>, Seq<char>>
    decreases pairs,
{
    if pairs.len() == 0 {
        Ok(seq![])
    } else if pairs[0].1 is Null {
        bencoded_members(pairs.drop_first())
    } else {
        joined(
            joined(bencoded_text(decode_utf8(pairs[0].0)), bencoded(pairs[0].1)),
            bencoded_members(pairs.drop_first()),
        )
    }
}

/// Append a text bencoded.
fn append_text(text: &str, out: &mut Vec<u8>) -> (result: Result<(), BitTorrentError>)
    ensures
        match result {
            Ok(_) => joined(written(old(out)@), bencoded_text(text@)) == written(final(out)@),
            Err(error) => bencoded_text(text@) == Err::<Seq<u8>, Seq<char>>(error@),
        },
{
    match encode_maybe_b64_string(text) {
        Ok(bytes) => {
            let mut prefix = String::new();
            push_decimal(&mut prefix, bytes.len() as u128);
            prefix.append(":");
            out.extend_from_slice(prefix.as_str().as_bytes());
            out.extend_from_slice(bytes.as_slice());
            assert(prefix@ =~= decimal_nat(bytes@.len()) + ":"@);
            assert(out@ =~= old(out)@ + (encode_utf8(decimal_nat(bytes@.len()) + ":"@) + bytes@));
            Ok(())
        },
        Err(error) => Err(error),
    }
}

/// Append a value bencoded.
fn append_value(value: &Value, out: &mut Vec<u8>) -> (result: Result<(), BitTorrentError>)
    ensures
        match result {
            Ok(_) => joined(written(old(out)@), bencoded(value@)) == written(final(out)@),
            Err(error) => bencoded(value@) == Err::<Seq<u8>, Seq<char>>(error@),
        },
    decreases value,
{
    let ghost first = out@;
    match value {
        Value::Number(number) => {
            out.push('i' as u8);
            let mut digits = String::new();
            match number {
                Number::PosInt(n) => {
                    push_decimal(&mut digits, *n as u128);
                },
                Number::NegInt(n) => {
                    digits = crate::text::decimal_string(*n);
                },
            }
            assert(digits@ =~= decimal(number@));
            out.extend_from_slice(digits.as_str().as_bytes());
            out.push('e' as u8);
            assert(out@ =~= first + (seq!['i' as u8] + encode_utf8(decimal(number@))
                + seq!['e' as u8]));
            Ok(())
        },
        Value::Text(text) => append_text(text.as_str(), out),
        Value::Array(list) => {
            out.push('l' as u8);
            let ghost items = array_view(list@);
            let ghost start = out@;
            let mut i: usize = 0;
            assert(items.skip(0) =~= items);
            while i < list.len()
                invariant
                    value matches Value::Array(l) && l == list,
                    items == array_view(list@),
                    0 <= i <= list.len(),
                    value@ == Json::Array(items),
                    joined(written(out@), bencoded_items(items.skip(i as int))) == joined(
                        written(start),
                        bencoded_items(items),
                    ),
                decreases list.len() - i,
            {
                let ghost before = out@;
                let ghost left = items.skip(i as int);
                proof {
                    assert(left[0] == list@[i as int]@);
                    assert(left.drop_first() =~= items.skip(i + 1));
                    lemma_joined(
                        written(before),
                        bencoded(left[0]),
                        bencoded_items(left.drop_first()),
                    );
                }
                match append_value(&list[i], out) {
                    Ok(_) => {},
                    Err(error) => {
                        return Err(error);
                    },
                }
                i = i + 1;
            }
            assert(items.skip(i as int) =~= Seq::<Json>::empty());
            assert(out@ + Seq::<u8>::empty() =~= out@);
            out.push('e' as u8);
            assert(out@ =~= first + ((seq!['l' as u8] + bencoded_items(items)->Ok_0)
                + seq!['e' as u8]));
            Ok(())
        },
        Value::Object(object) => {
            out.push('d' as u8);
            let ghost pairs = object_view(*object);
            let ghost start = out@;
            let mut i: usize = 0;
            proof {
                lemma_object_entries(*object);
                assert(pairs.skip(0) =~= pairs);
            }
            while i < object.entries.len()
                invariant
                    value matches Value::Object(o) && o == object,
                    pairs == object_view(*object),
                    pairs.len() == object.entries@.len(),
                    forall|i: int|
                        0 <= i < object.entries@.len() ==> #[trigger] pairs[i] == (
                            encode_utf8(object.entries@[i].0@),
                            object.entries@[i].1@,
                        ),
                    0 <= i <= object.entries.len(),
                    value@ == Json::Object(pairs),
                    joined(written(out@), bencoded_members(pairs.skip(i as int))) == joined(
                        written(start),
                        bencoded_members(pairs),
                    ),
                decreases object.entries.len() - i,
            {
                let ghost before = out@;
                let entry = &object.entries[i];
                let ghost left = pairs.skip(i as int);
                proof {
                    assert(left[0] == pairs[i as int]);
                    assert(left.drop_first() =~= pairs.skip(i + 1));
                    encode_utf8_decode_utf8(entry.0@);
                    lemma_joined(
                        written(before),
                        bencoded_text(entry.0@),
                        bencoded(left[0].1),
                    );
                    lemma_joined(
                        written(before),
                        joined(bencoded_text(entry.0@), bencoded(left[0].1)),
                        bencoded_members(left.drop_first()),
                    );
                }
                match &entry.1 {
                    Value::Null => {},
                    inner => {
                        match append_text(entry.0.as_str(), out) {
                            Ok(_) => {},
                            Err(error) => {
                                return Err(error);
                            },
                        }
                        match append_value(inner, out) {
                            Ok(_) => {},
                            Err(error) => {
                                return Err(error);
                            },
                        }
                    },
                }
                i = i + 1;
            }
            assert(pairs.skip(i as int) =~= Seq::<(Seq<u8>, Json)>::empty());
            assert(out@ + Seq::<u8>::empty() =~= out@);
            out.push('e' as u8);
            assert(out@ =~= first + ((seq!['d' as u8] + bencoded_members(pairs)->Ok_0)
                + seq!['e' as u8]));
            Ok(())
        },
        Value::Null => Err(bterror("Invalid value type for bencoding: null")),
        Value::Bool(true) => Err(bterror("Invalid value type for bencoding: true")),
        Value::Bool(false) => Err(bterror("Invalid value type for bencoding: false")),
    }
}

proof fn lemma_joined(
    a: Result<Seq<u8>, Seq<char>>,
    b: Result<Seq<u8>, Seq<char>>,
    c: Result<Seq<u8>, Seq<char>>,
)
    ensures
        joined(joined(a, b), c) == joined(a, joined(b, c)),
{
    if a is Ok && b is Ok && c is Ok {
        assert((a->Ok_0 + b->Ok_0) + c->Ok_0 =~= a->Ok_0 + (b->Ok_0 + c->Ok_0));
    }
}

/// Encode a value into a bencoded byte vector.
pub fn bencode_value(value: Value) -> (result: Result<Vec<u8>, BitTorrentError>)
    ensures
        outcome(result) == bencoded(value@),
{
    let mut out: Vec<u8> = Vec::new();
    match append_value(&value, &mut out) {
        Ok(_) => {
            assert(bencoded(value@)->Ok_0 =~= Seq::<u8>::empty() + bencoded(value@)->Ok_0);
            Ok(out)
        },
        Err(error) => Err(error),
    }
}

} // verus!
