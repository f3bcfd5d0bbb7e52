//! Reading what others have written: values in the standard form, byte strings with their
//! lengths.

use vstd::prelude::*;
use vstd::utf8::{encode_utf8, is_ascii_chars_encode_utf8};

use crate::bencode::laws::lemma_decimal_ascii;
use crate::bencode::{
    ingested, ingested_items, ingested_leaves_tail, ingested_pairs, is_digit_byte,
    lemma_find_byte_is, Benc,
};
use crate::keymap::{
    ascending, lemma_appended, lookup, lookup_with_entry, with_entry, with_entry_ascending,
};
use crate::text::{decimal, decimal_nat_reads_back, decimal_reads_back, is_digit};

verus! {

/// The standard form of a byte string: its length, a colon, its bytes.
pub open spec fn standard_string(bytes: Seq<u8>) -> Seq<u8> {
    encode_utf8(decimal(bytes.len() as int)) + seq![':' as u8] + bytes
}

/// The standard form of a value.
pub open spec fn standard(value: Benc) -> Seq<u8>
    decreases value,
{
    match value {
        Benc::Bytes(bytes) => standard_string(bytes),
        Benc::Int(value) => seq!['i' as u8] + encode_utf8(decimal(value)) + seq!['e' as u8],
        Benc::List(items) => seq!['l' as u8] + standard_all(items) + seq!['e' as u8],
        Benc::Dict(pairs) => seq!['d' as u8] + standard_pairs(pairs) + seq!['e' as u8],
        Benc::Null => seq![],
    }
}

pub open spec fn standard_all(items: Seq<Benc>) -> Seq<u8>
    decreases items,
{
    if items.len() == 0 {
        seq![]
    } else {
        standard(items[0]) + standard_all(items.drop_first())
    }
}

pub open spec fn standard_pairs(pairs: Seq<(Seq<u8>, Benc)>) -> Seq<u8>
    decreases pairs,
{
    if pairs.len() == 0 {
        seq![]
    } else {
        standard_string(pairs[0].0) + standard(pairs[0].1) + standard_pairs(pairs.drop_first())
    }
}

/// Whether a value has a standard form on this machine: integers of 64 bits, byte strings
/// that fit in memory, dictionaries with ascending keys, no empty values.
pub open spec fn standardizable(value: Benc) -> bool
    decreases value,
{
    match value {
        Benc::Bytes(bytes) => bytes.len() <= usize::MAX,
        Benc::Int(value) => i64::MIN <= value <= i64::MAX,
        Benc::List(items) => forall|i: int|
            0 <= i < items.len() ==> standardizable(#[trigger] items[i]),
        Benc::Dict(pairs) => ascending(pairs) && forall|i: int|
            0 <= i < pairs.len() ==> (#[trigger] pairs[i]).0.len() <= usize::MAX && standardizable(
                pairs[i].1,
            ),
        Benc::Null => false,
    }
}

proof fn lemma_length_ascii(n: nat)
    ensures
        encode_utf8(decimal(n as int)).len() > 0,
        forall|i: int|
            0 <= i < encode_utf8(decimal(n as int)).len() ==> is_digit_byte(
                #[trigger] encode_utf8(decimal(n as int))[i],
            ),
{
    let text = decimal(n as int);
    lemma_decimal_ascii(n as int);
    decimal_nat_reads_back(n);
    is_ascii_chars_encode_utf8(text);
    assert forall|i: int| 0 <= i < encode_utf8(text).len() implies is_digit_byte(
        #[trigger] encode_utf8(text)[i],
    ) by {
        assert(is_digit(text[i]));
        assert(encode_utf8(text)[i] == text[i] as u8);
    }
}

/// The length of a byte string says which bytes are its own, whatever they are and
/// whatever follows them.
pub proof fn string_is_read(bytes: Seq<u8>, more: Seq<u8>)
    requires
        bytes.len() <= usize::MAX,
    ensures
        ingested(standard_string(bytes) + more) == (Ok::<Benc, Seq<char>>(Benc::Bytes(bytes)), more),
        standard_string(bytes).len() > 0,
        is_digit_byte(standard_string(bytes)[0]),
{
    let text = decimal(bytes.len() as int);
    let digits = encode_utf8(text);
    let all = standard_string(bytes) + more;
    lemma_length_ascii(bytes.len());
    decimal_reads_back(bytes.len() as int);
    vstd::utf8::encode_utf8_valid_utf8(text);
    vstd::utf8::encode_utf8_decode_utf8(text);
    assert(all[0] == digits[0]);
    assert forall|i: int| 0 <= i < digits.len() implies all[i] != ':' as u8 by {
        assert(is_digit_byte(digits[i]));
        assert(all[i] == digits[i]);
    }
    let end = digits.len() as int;
    assert(all[end] == ':' as u8);
    lemma_find_byte_is(all, ':' as u8, end);
    assert(all.take(end) =~= digits);
    assert(all.subrange(end + 1, end + 1 + bytes.len()) =~= bytes);
    assert(all.skip(end + 1 + bytes.len()) =~= more);
}

/// A byte string that is cut short is not read.
pub proof fn short_string_is_refused(length: nat, bytes: Seq<u8>)
    requires
        bytes.len() < length <= usize::MAX,
    ensures
        ingested(encode_utf8(decimal(length as int)) + seq![':' as u8] + bytes).0 is Err,
{
    let text = decimal(length as int);
    let digits = encode_utf8(text);
    let all = digits + seq![':' as u8] + bytes;
    lemma_length_ascii(length);
    decimal_reads_back(length as int);
    vstd::utf8::encode_utf8_valid_utf8(text);
    vstd::utf8::encode_utf8_decode_utf8(text);
    assert(all[0] == digits[0]);
    assert forall|i: int| 0 <= i < digits.len() implies all[i] != ':' as u8 by {
        assert(is_digit_byte(digits[i]));
        assert(all[i] == digits[i]);
    }
    let end = digits.len() as int;
    assert(all[end] == ':' as u8);
    lemma_find_byte_is(all, ':' as u8, end);
    assert(all.take(end) =~= digits);
}

/// Every value is read from its standard form, whatever follows it, and what follows it is
/// left.
pub proof fn standard_is_read(value: Benc, more: Seq<u8>)
    requires
        standardizable(value),
    ensures
        ingested(standard(value) + more) == (Ok::<Benc, Seq<char>>(value), more),
    decreases value,
{
    let bytes = standard(value) + more;
    match value {
        Benc::Bytes(string) => {
            string_is_read(string, more);
        },
        Benc::Int(n) => {
            let text = decimal(n);
            let digits = encode_utf8(text);
            lemma_decimal_ascii(n);
            is_ascii_chars_encode_utf8(text);
            decimal_reads_back(n);
            vstd::utf8::encode_utf8_valid_utf8(text);
            vstd::utf8::encode_utf8_decode_utf8(text);
            let rest = bytes.skip(1);
            assert(rest =~= digits + seq!['e' as u8] + more);
            assert(rest[digits.len() as int] == 'e' as u8);
            assert forall|i: int| 0 <= i < digits.len() implies rest[i] != 'e' as u8 by {
                assert(rest[i] == digits[i]);
                assert(digits[i] == text[i] as u8);
            }
            lemma_find_byte_is(rest, 'e' as u8, digits.len() as int);
            assert(rest.take(digits.len() as int) =~= digits);
            assert(rest.skip(digits.len() as int + 1) =~= more);
        },
        Benc::List(items) => {
            let rest = bytes.skip(1);
            assert(rest =~= standard_all(items) + (seq!['e' as u8] + more));
            assert(items.skip(0) =~= items);
            assert(items.take(0) =~= Seq::<Benc>::empty());
            lemma_items_are_read(items, 0, bytes, more);
        },
        Benc::Dict(pairs) => {
            let rest = bytes.skip(1);
            assert(rest =~= standard_pairs(pairs) + (seq!['e' as u8] + more));
            assert(pairs.skip(0) =~= pairs);
            assert(pairs.take(0) =~= Seq::<(Seq<u8>, Benc)>::empty());
            lemma_pairs_are_read(pairs, 0, bytes, more);
        },
        _ => {},
    }
}

proof fn lemma_items_are_read(items: Seq<Benc>, k: int, at: Seq<u8>, more: Seq<u8>)
    requires
        0 <= k <= items.len(),
        forall|i: int| 0 <= i < items.len() ==> standardizable(#[trigger] items[i]),
    ensures
        ingested_items(
            at,
            standard_all(items.skip(k)) + (seq!['e' as u8] + more),
            items.take(k),
        ) == (Ok::<Seq<Benc>, Seq<char>>(items), more),
    decreases items, items.len() - k,
{
    let rest = standard_all(items.skip(k)) + (seq!['e' as u8] + more);
    if k == items.len() {
        assert(rest =~= seq!['e' as u8] + more);
        assert(rest.skip(1) =~= more);
        assert(items.take(k) =~= items);
    } else {
        let value = items[k];
        let after = standard_all(items.skip(k + 1)) + (seq!['e' as u8] + more);
        assert(items.skip(k)[0] == value);
        assert(items.skip(k).drop_first() =~= items.skip(k + 1));
        assert(rest =~= standard(value) + after);
        standard_is_read(value, after);
        lemma_begins(value);
        assert(rest[0] == standard(value)[0]);
        assert(items.take(k).push(value) =~= items.take(k + 1));
        ingested_leaves_tail(rest);
        lemma_items_are_read(items, k + 1, after, more);
    }
}

proof fn lemma_pairs_are_read(pairs: Seq<(Seq<u8>, Benc)>, k: int, at: Seq<u8>, more: Seq<u8>)
    requires
        0 <= k <= pairs.len(),
        ascending(pairs),
        forall|i: int|
            0 <= i < pairs.len() ==> (#[trigger] pairs[i]).0.len() <= usize::MAX && standardizable(
                pairs[i].1,
            ),
    ensures
        ingested_pairs(
            at,
            standard_pairs(pairs.skip(k)) + (seq!['e' as u8] + more),
            pairs.take(k),
        ) == (Ok::<Seq<(Seq<u8>, Benc)>, Seq<char>>(pairs), more),
    decreases pairs, pairs.len() - k,
{
    let rest = standard_pairs(pairs.skip(k)) + (seq!['e' as u8] + more);
    if k == pairs.len() {
        assert(rest =~= seq!['e' as u8] + more);
        assert(rest.skip(1) =~= more);
        assert(pairs.take(k) =~= pairs);
    } else {
        let (key, value) = pairs[k];
        let after = standard_pairs(pairs.skip(k + 1)) + (seq!['e' as u8] + more);
        let left = standard(value) + after;
        assert(pairs.skip(k)[0] == pairs[k]);
        assert(pairs.skip(k).drop_first() =~= pairs.skip(k + 1));
        assert(rest =~= standard_string(key) + left);
        string_is_read(key, left);
        assert(rest[0] == standard_string(key)[0]);
        ingested_leaves_tail(rest);
        standard_is_read(value, after);
        ingested_leaves_tail(left);
        lemma_appended(pairs, k);
        lemma_pairs_are_read(pairs, k + 1, after, more);
    }
}

proof fn lemma_begins(value: Benc)
    requires
        standardizable(value),
    ensures
        standard(value).len() > 0,
        standard(value)[0] != 'e' as u8,
{
    if let Benc::Bytes(bytes) = value {
        string_is_read(bytes, seq![]);
    }
}

/// The pairs of a dictionary whose keys come in any order, the later ones in the place of
/// earlier ones with the same key.
pub open spec fn put_all(pairs: Seq<(Seq<u8>, Benc)>) -> Seq<(Seq<u8>, Benc)>
    decreases pairs.len(),
{
    if pairs.len() == 0 {
        seq![]
    } else {
        with_entry(put_all(pairs.drop_last()), pairs.last().0, pairs.last().1)
    }
}

proof fn lemma_any_pairs_are_read(
    pairs: Seq<(Seq<u8>, Benc)>,
    k: int,
    at: Seq<u8>,
    more: Seq<u8>,
)
    requires
        0 <= k <= pairs.len(),
        forall|i: int|
            0 <= i < pairs.len() ==> (#[trigger] pairs[i]).0.len() <= usize::MAX && standardizable(
                pairs[i].1,
            ),
    ensures
        ingested_pairs(
            at,
            standard_pairs(pairs.skip(k)) + (seq!['e' as u8] + more),
            put_all(pairs.take(k)),
        ) == (Ok::<Seq<(Seq<u8>, Benc)>, Seq<char>>(put_all(pairs)), more),
    decreases pairs.len() - k,
{
    let rest = standard_pairs(pairs.skip(k)) + (seq!['e' as u8] + more);
    if k == pairs.len() {
        assert(rest =~= seq!['e' as u8] + more);
        assert(rest.skip(1) =~= more);
        assert(pairs.take(k) =~= pairs);
    } else {
        let (key, value) = pairs[k];
        let after = standard_pairs(pairs.skip(k + 1)) + (seq!['e' as u8] + more);
        let left = standard(value) + after;
        assert(pairs.skip(k)[0] == pairs[k]);
        assert(pairs.skip(k).drop_first() =~= pairs.skip(k + 1));
        assert(rest =~= standard_string(key) + left);
        string_is_read(key, left);
        assert(rest[0] == standard_string(key)[0]);
        ingested_leaves_tail(rest);
        standard_is_read(value, after);
        ingested_leaves_tail(left);
        assert(pairs.take(k + 1).drop_last() =~= pairs.take(k));
        lemma_any_pairs_are_read(pairs, k + 1, after, more);
    }
}

proof fn lemma_put_all(pairs: Seq<(Seq<u8>, Benc)>, at: int)
    requires
        0 <= at < pairs.len(),
        forall|i: int| at < i < pairs.len() ==> (#[trigger] pairs[i]).0 != pairs[at].0,
    ensures
        ascending(put_all(pairs)),
        lookup(put_all(pairs), pairs[at].0) == Some(pairs[at].1),
    decreases pairs.len(),
{
    let head = pairs.drop_last();
    lemma_put_all_ascending(head);
    with_entry_ascending(put_all(head), pairs.last().0, pairs.last().1);
    lookup_with_entry(put_all(head), pairs.last().0, pairs.last().1, pairs[at].0);
    if at < pairs.len() - 1 {
        assert(pairs[pairs.len() - 1].0 != pairs[at].0);
        assert forall|i: int| at < i < head.len() implies (#[trigger] head[i]).0
            != head[at].0 by {
            assert(head[i] == pairs[i]);
        }
        lemma_put_all(head, at);
    }
}

proof fn lemma_put_all_ascending(pairs: Seq<(Seq<u8>, Benc)>)
    ensures
        ascending(put_all(pairs)),
    decreases pairs.len(),
{
    if pairs.len() > 0 {
        lemma_put_all_ascending(pairs.drop_last());
        with_entry_ascending(put_all(pairs.drop_last()), pairs.last().0, pairs.last().1);
    }
}

/// A dictionary is read in whatever order its keys are written: each key leads to the value
/// that was written with it last.
pub proof fn any_order_is_read(pairs: Seq<(Seq<u8>, Benc)>, at: int, more: Seq<u8>)
    requires
        forall|i: int|
            0 <= i < pairs.len() ==> (#[trigger] pairs[i]).0.len() <= usize::MAX && standardizable(
                pairs[i].1,
            ),
        0 <= at < pairs.len(),
        forall|i: int| at < i < pairs.len() ==> (#[trigger] pairs[i]).0 != pairs[at].0,
    ensures
        ({
            let (read, left) = ingested(
                seq!['d' as u8] + standard_pairs(pairs) + seq!['e' as u8] + more,
            );
            &&& left == more
            &&& read matches Ok(Benc::Dict(dict)) && lookup(dict, pairs[at].0) == Some(pairs[at].1)
        }),
{
    let bytes = seq!['d' as u8] + standard_pairs(pairs) + seq!['e' as u8] + more;
    assert(bytes[0] == 'd' as u8);
    assert(bytes.skip(1) =~= standard_pairs(pairs) + (seq!['e' as u8] + more));
    assert(pairs.skip(0) =~= pairs);
    assert(put_all(pairs.take(0)) =~= Seq::<(Seq<u8>, Benc)>::empty());
    lemma_any_pairs_are_read(pairs, 0, bytes, more);
    lemma_put_all(pairs, at);
}

} // verus!
