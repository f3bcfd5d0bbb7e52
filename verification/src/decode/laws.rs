//! What reading gives back of a value that was written.

use vstd::prelude::*;
use vstd::utf8::{
    decode_utf8, decode_utf8_encode_utf8, encode_utf8, encode_utf8_decode_utf8,
    encode_utf8_valid_utf8, is_ascii_chars_encode_utf8, valid_utf8,
};

use crate::bencode::encode::{
    bencoded, bencoded_items, bencoded_members, bencoded_text, is_b64, written,
};
use crate::bencode::is_digit_byte;
use crate::bencode::laws::lemma_decimal_ascii;
use crate::decode::{
    consumed, consumed_integer, consumed_items, consumed_leaves_tail, consumed_members,
    consumed_text, digits_from, digits_start,
};
use crate::json::Json;
use crate::keymap::{ascending, lemma_appended};
use crate::text::{decimal, decimal_nat, decimal_nat_reads_back, decimal_reads_back, is_digit};

verus! {

/// Whether a text is its own bytes and not marked as base64.
pub open spec fn plain_string(text: Seq<char>) -> bool {
    !is_b64(text) && encode_utf8(text).len() <= usize::MAX
}

/// Whether a value is made of integers of the range of `i64`, of texts that are not
/// marked as base64, and of arrays and objects of such values.
pub open spec fn readable(value: Json) -> bool
    decreases value,
{
    match value {
        Json::Number(n) => i64::MIN <= n <= i64::MAX,
        Json::Text(text) => plain_string(text),
        Json::Array(items) => forall|i: int|
            0 <= i < items.len() ==> readable(#[trigger] items[i]),
        Json::Object(pairs) => ascending(pairs) && (forall|i: int|
            0 <= i < pairs.len() ==> {
                &&& valid_utf8((#[trigger] pairs[i]).0)
                &&& plain_string(decode_utf8(pairs[i].0))
                &&& readable(pairs[i].1)
            }),
        _ => false,
    }
}

proof fn lemma_digits_from(bytes: Seq<u8>, at: int, n: int)
    requires
        0 <= at,
        0 <= n,
        at + n < bytes.len(),
        forall|i: int| at <= i < at + n ==> is_digit_byte(#[trigger] bytes[i]),
        !is_digit_byte(bytes[at + n]),
    ensures
        digits_from(bytes, at) == n,
    decreases n,
{
    if n > 0 {
        assert(is_digit_byte(bytes[at]));
        lemma_digits_from(bytes, at + 1, n - 1);
    }
}

proof fn lemma_number_reads_back(n: int, more: Seq<u8>)
    requires
        i64::MIN <= n <= i64::MAX,
    ensures
        bencoded(Json::Number(n)) is Ok,
        consumed_integer(bencoded(Json::Number(n))->Ok_0 + more) == (
            Ok::<Json, Seq<char>>(Json::Number(n)),
            more,
        ),
        bencoded(Json::Number(n))->Ok_0[0] == 'i' as u8,
{
    let text = decimal(n);
    let digits = encode_utf8(text);
    let bytes = bencoded(Json::Number(n))->Ok_0 + more;
    lemma_decimal_ascii(n);
    is_ascii_chars_encode_utf8(text);
    decimal_reads_back(n);
    encode_utf8_valid_utf8(text);
    encode_utf8_decode_utf8(text);
    assert(bytes =~= seq!['i' as u8] + digits + seq!['e' as u8] + more);
    assert forall|i: int| 0 <= i < digits.len() implies #[trigger] bytes[i + 1] == text[i] as u8 by {
        assert(bytes[i + 1] == digits[i]);
    }
    let start = digits_start(bytes);
    decimal_nat_reads_back(if n < 0 {
        -n as nat
    } else {
        n as nat
    });
    if n < 0 {
        assert(text =~= seq!['-'] + decimal_nat((-n) as nat));
        assert(bytes[0int + 1] == '-' as u8);
        assert(start == 2);
        assert forall|i: int| 2 <= i < digits.len() + 1 implies is_digit_byte(
            #[trigger] bytes[i],
        ) by {
            assert(bytes[(i - 1) + 1] == text[i - 1] as u8);
            assert(text[i - 1] == decimal_nat((-n) as nat)[i - 2]);
            assert(is_digit(decimal_nat((-n) as nat)[i - 2]));
        }
    } else {
        assert(is_digit(text[0]));
        assert(bytes[0int + 1] == text[0] as u8);
        assert(start == 1);
        assert forall|i: int| 1 <= i < digits.len() + 1 implies is_digit_byte(
            #[trigger] bytes[i],
        ) by {
            assert(bytes[(i - 1) + 1] == text[i - 1] as u8);
            assert(is_digit(text[i - 1]));
        }
    }
    let count = digits.len() + 1 - start;
    assert(bytes[start + count] == 'e' as u8);
    lemma_digits_from(bytes, start, count);
    assert(bytes.subrange(1, start + count) =~= digits);
    assert(bytes.skip(start + count + 1) =~= more);
}

proof fn lemma_text_reads_back(text: Seq<char>, more: Seq<u8>)
    requires
        plain_string(text),
    ensures
        bencoded_text(text) is Ok,
        bencoded_text(text)->Ok_0.len() > 0,
        is_digit_byte(bencoded_text(text)->Ok_0[0]),
        consumed_text(bencoded_text(text)->Ok_0 + more) == (
            Ok::<Json, Seq<char>>(Json::Text(text)),
            more,
        ),
{
    let content = encode_utf8(text);
    let number = decimal_nat(content.len());
    let digits = encode_utf8(number);
    let prefix = number + ":"@;
    let bytes = bencoded_text(text)->Ok_0 + more;
    reveal_strlit(":");
    lemma_decimal_ascii(content.len() as int);
    assert(decimal(content.len() as int) == number);
    decimal_nat_reads_back(content.len());
    assert(forall|i: int| 0 <= i < prefix.len() ==> #[trigger] prefix[i] <= '\u{7f}');
    crate::text::lemma_ascii(prefix);
    is_ascii_chars_encode_utf8(prefix);
    is_ascii_chars_encode_utf8(number);
    encode_utf8_valid_utf8(number);
    encode_utf8_decode_utf8(number);
    encode_utf8_valid_utf8(text);
    encode_utf8_decode_utf8(text);
    let n = number.len() as int;
    assert(encode_utf8(prefix) =~= digits + seq![':' as u8]);
    assert(bytes =~= digits + seq![':' as u8] + content + more);
    assert forall|i: int| 0 <= i < n implies is_digit_byte(#[trigger] bytes[i]) by {
        assert(bytes[i] == digits[i]);
        assert(digits[i] == number[i] as u8);
        assert(is_digit(number[i]));
    }
    assert(bytes[n] == ':' as u8);
    lemma_digits_from(bytes, 0, n);
    assert(bytes.take(n) =~= digits);
    let end = n + 1 + content.len();
    assert(bytes.subrange(n + 1, end) =~= content);
    assert(bytes.skip(end) =~= more);
    assert(bytes[0] == bencoded_text(text)->Ok_0[0]);
}

/// Reading gives back the value that was written, and leaves what follows it.
pub proof fn consumed_bencoded(value: Json, more: Seq<u8>)
    requires
        readable(value),
    ensures
        bencoded(value) is Ok,
        consumed(bencoded(value)->Ok_0 + more) == (Ok::<Json, Seq<char>>(value), more),
    decreases value, 0int, 0int,
{
    match value {
        Json::Number(n) => {
            lemma_number_reads_back(n, more);
        },
        Json::Text(text) => {
            lemma_text_reads_back(text, more);
        },
        Json::Array(items) => {
            assert(items.skip(0) =~= items);
            assert(items.take(0) =~= Seq::<Json>::empty());
            lemma_items_read_back(items, 0, more);
            let bytes = bencoded(value)->Ok_0 + more;
            assert(bytes.skip(1) =~= bencoded_items(items)->Ok_0 + (seq!['e' as u8] + more));
        },
        Json::Object(pairs) => {
            assert(pairs.skip(0) =~= pairs);
            assert(pairs.take(0) =~= Seq::<(Seq<u8>, Json)>::empty());
            lemma_members_read_back(pairs, 0, more);
            let bytes = bencoded(value)->Ok_0 + more;
            assert(bytes.skip(1) =~= bencoded_members(pairs)->Ok_0 + (seq!['e' as u8] + more));
        },
        _ => {},
    }
}

proof fn lemma_first_byte(value: Json)
    requires
        readable(value),
        bencoded(value) is Ok,
    ensures
        bencoded(value)->Ok_0.len() > 0,
        bencoded(value)->Ok_0[0] != 'e' as u8,
{
    if let Json::Text(text) = value {
        lemma_text_reads_back(text, seq![]);
    }
}

proof fn lemma_items_read_back(items: Seq<Json>, k: int, more: Seq<u8>)
    requires
        0 <= k <= items.len(),
        forall|i: int| 0 <= i < items.len() ==> readable(#[trigger] items[i]),
    ensures
        bencoded_items(items.skip(k)) is Ok,
        consumed_items(
            bencoded_items(items.skip(k))->Ok_0 + (seq!['e' as u8] + more),
            items.take(k),
        ) == (Ok::<Json, Seq<char>>(Json::Array(items)), more),
    decreases items, items.len() - k, 1int,
{
    if k == items.len() {
        let rest = bencoded_items(items.skip(k))->Ok_0 + (seq!['e' as u8] + more);
        assert(rest =~= seq!['e' as u8] + more);
        assert(rest.skip(1) =~= more);
        assert(items.take(k) =~= items);
    } else {
        let value = items[k];
        lemma_items_read_back(items, k + 1, more);
        let after = bencoded_items(items.skip(k + 1))->Ok_0 + (seq!['e' as u8] + more);
        assert(items.skip(k)[0] == value);
        assert(items.skip(k).drop_first() =~= items.skip(k + 1));
        assert(readable(value));
        consumed_bencoded(value, after);
        lemma_first_byte(value);
        let rest = bencoded_items(items.skip(k))->Ok_0 + (seq!['e' as u8] + more);
        assert(rest =~= bencoded(value)->Ok_0 + after);
        assert(rest[0] == bencoded(value)->Ok_0[0]);
        assert(items.take(k).push(value) =~= items.take(k + 1));
        consumed_leaves_tail(rest);
    }
}

proof fn lemma_members_read_back(pairs: Seq<(Seq<u8>, Json)>, k: int, more: Seq<u8>)
    requires
        0 <= k <= pairs.len(),
        ascending(pairs),
        forall|i: int|
            0 <= i < pairs.len() ==> {
                &&& valid_utf8((#[trigger] pairs[i]).0)
                &&& plain_string(decode_utf8(pairs[i].0))
                &&& readable(pairs[i].1)
            },
    ensures
        bencoded_members(pairs.skip(k)) is Ok,
        consumed_members(
            bencoded_members(pairs.skip(k))->Ok_0 + (seq!['e' as u8] + more),
            pairs.take(k),
        ) == (Ok::<Json, Seq<char>>(Json::Object(pairs)), more),
    decreases pairs, pairs.len() - k, 1int,
{
    if k == pairs.len() {
        let rest = bencoded_members(pairs.skip(k))->Ok_0 + (seq!['e' as u8] + more);
        assert(rest =~= seq!['e' as u8] + more);
        assert(rest.skip(1) =~= more);
        assert(pairs.take(k) =~= pairs);
    } else {
        let (key, value) = pairs[k];
        let text = decode_utf8(key);
        lemma_members_read_back(pairs, k + 1, more);
        let after = bencoded_members(pairs.skip(k + 1))->Ok_0 + (seq!['e' as u8] + more);
        assert(pairs.skip(k)[0] == pairs[k]);
        assert(pairs.skip(k).drop_first() =~= pairs.skip(k + 1));
        assert(readable(pairs[k].1));
        consumed_bencoded(value, after);
        let middle = bencoded(value)->Ok_0 + after;
        lemma_text_reads_back(text, middle);
        let rest = bencoded_members(pairs.skip(k))->Ok_0 + (seq!['e' as u8] + more);
        assert(rest =~= bencoded_text(text)->Ok_0 + middle);
        assert(rest[0] == bencoded_text(text)->Ok_0[0]);
        decode_utf8_encode_utf8(key);
        lemma_appended(pairs, k);
        consumed_leaves_tail(rest);
        consumed_leaves_tail(middle);
    }
}

} // verus!
