//! What holds of reading and writing bencoded values.

use vstd::prelude::*;
use vstd::utf8::{encode_utf8, is_ascii_chars, is_ascii_chars_encode_utf8};

use crate::bencode::{
    encoded, encoded_all, encoded_pairs, find_byte, ingested, ingested_items, ingested_leaves_tail,
    ingested_pairs, is_digit_byte, lemma_find_byte, lemma_find_byte_is, lemma_usize_not_negative,
    Benc,
};
use crate::keymap::{ascending, with_entry, with_entry_ascending};
use crate::text::{
    decimal, decimal_nat, decimal_nat_reads_back, decimal_reads_back, is_digit, lemma_ascii,
    usize_of_bytes,
};

verus! {

/// Every dictionary in a value has its keys strictly ascending.
pub open spec fn well_formed(value: Benc) -> bool
    decreases value,
{
    match value {
        Benc::List(items) => forall|i: int| 0 <= i < items.len() ==> well_formed(#[trigger] items[i]),
        Benc::Dict(pairs) => ascending(pairs) && forall|i: int|
            0 <= i < pairs.len() ==> well_formed((#[trigger] pairs[i]).1),
        _ => true,
    }
}

/// Whatever is read is well formed: no key occurs twice in a dictionary, and its
/// keys ascend.
pub proof fn ingested_well_formed(bytes: Seq<u8>)
    ensures
        ingested(bytes).0 matches Ok(value) ==> well_formed(value),
    decreases bytes.len(), 0int,
{
    if bytes.len() > 0 {
        if bytes[0] == 'l' as u8 {
            lemma_items_well_formed(bytes, bytes.skip(1), seq![]);
        } else if bytes[0] == 'd' as u8 {
            lemma_pairs_well_formed(bytes, bytes.skip(1), seq![]);
        }
    }
}

proof fn lemma_items_well_formed(at: Seq<u8>, rest: Seq<u8>, items: Seq<Benc>)
    requires
        forall|i: int| 0 <= i < items.len() ==> well_formed(#[trigger] items[i]),
    ensures
        ingested_items(at, rest, items).0 matches Ok(all) ==> forall|i: int|
            0 <= i < all.len() ==> well_formed(#[trigger] all[i]),
    decreases rest.len(), 1int,
{
    if rest.len() > 0 && rest[0] != 'e' as u8 {
        ingested_well_formed(rest);
        ingested_leaves_tail(rest);
        let left = ingested(rest).1;
        if let Ok(value) = ingested(rest).0 {
            lemma_items_well_formed(left, left, items.push(value));
        }
    }
}

proof fn lemma_pairs_well_formed(at: Seq<u8>, rest: Seq<u8>, pairs: Seq<(Seq<u8>, Benc)>)
    requires
        ascending(pairs),
        forall|i: int| 0 <= i < pairs.len() ==> well_formed((#[trigger] pairs[i]).1),
    ensures
        ingested_pairs(at, rest, pairs).0 matches Ok(all) ==> ascending(all) && forall|i: int|
            0 <= i < all.len() ==> well_formed((#[trigger] all[i]).1),
    decreases rest.len(), 1int,
{
    if rest.len() > 0 && rest[0] != 'e' as u8 {
        ingested_leaves_tail(rest);
        let left = ingested(rest).1;
        if let Ok(Benc::Bytes(key)) = ingested(rest).0 {
            ingested_well_formed(left);
            ingested_leaves_tail(left);
            let left2 = ingested(left).1;
            if let Ok(value) = ingested(left).0 {
                let more = with_entry(pairs, key, value);
                with_entry_ascending(pairs, key, value);
                crate::keymap::lemma_rank(pairs, key);
                let r = crate::keymap::rank(pairs, key);
                assert forall|i: int| 0 <= i < more.len() implies well_formed(
                    (#[trigger] more[i]).1,
                ) by {
                    if crate::keymap::has_key(pairs, key) {
                        if i != r {
                            assert(more[i] == pairs[i]);
                        }
                    } else if i < r {
                        assert(more[i] == pairs[i]);
                    } else if i > r {
                        assert(more[i] == pairs[i - 1]);
                    }
                }
                lemma_pairs_well_formed(left2, left2, more);
            }
        }
    }
}

proof fn lemma_find_byte_extends(bytes: Seq<u8>, more: Seq<u8>, byte: u8)
    ensures
        find_byte(bytes, byte) is Some ==> find_byte(bytes + more, byte) == find_byte(bytes, byte),
{
    lemma_find_byte(bytes, byte);
    if let Some(at) = find_byte(bytes, byte) {
        lemma_find_byte_is(bytes + more, byte, at);
    }
}

/// A value that can be read is read in the same way whatever follows it, and what
/// follows it is left.
pub proof fn ingested_extends(bytes: Seq<u8>, more: Seq<u8>)
    requires
        ingested(bytes).0 is Ok,
    ensures
        ingested(bytes + more).0 == ingested(bytes).0,
        ingested(bytes + more).1 == ingested(bytes).1 + more,
    decreases bytes.len(), 0int,
{
    let all = bytes + more;
    assert(all[0] == bytes[0]);
    if bytes[0] == 'i' as u8 {
        let rest = bytes.skip(1);
        assert(all.skip(1) =~= rest + more);
        lemma_find_byte(rest, 'e' as u8);
        lemma_find_byte_extends(rest, more, 'e' as u8);
        let end = find_byte(rest, 'e' as u8)->0;
        assert((rest + more).take(end) =~= rest.take(end));
        assert((rest + more).skip(end + 1) =~= rest.skip(end + 1) + more);
    } else if bytes[0] == 'l' as u8 {
        assert(all.skip(1) =~= bytes.skip(1) + more);
        lemma_items_extend(bytes, bytes.skip(1), seq![], all, more);
    } else if bytes[0] == 'd' as u8 {
        assert(all.skip(1) =~= bytes.skip(1) + more);
        lemma_pairs_extend(bytes, bytes.skip(1), seq![], all, more);
    } else {
        assert(is_digit_byte(bytes[0]));
        lemma_find_byte(bytes, ':' as u8);
        lemma_find_byte_extends(bytes, more, ':' as u8);
        let end = find_byte(bytes, ':' as u8)->0;
        assert(all.take(end) =~= bytes.take(end));
        lemma_usize_not_negative(bytes.take(end));
        let length = usize_of_bytes(bytes.take(end))->Ok_0;
        assert(all.subrange(end + 1, end + 1 + length) =~= bytes.subrange(
            end + 1,
            end + 1 + length,
        ));
        assert(all.skip(end + 1 + length) =~= bytes.skip(end + 1 + length) + more);
    }
}

proof fn lemma_items_extend(
    at: Seq<u8>,
    rest: Seq<u8>,
    items: Seq<Benc>,
    other_at: Seq<u8>,
    more: Seq<u8>,
)
    requires
        ingested_items(at, rest, items).0 is Ok,
    ensures
        ingested_items(other_at, rest + more, items).0 == ingested_items(at, rest, items).0,
        ingested_items(other_at, rest + more, items).1 == ingested_items(at, rest, items).1 + more,
    decreases rest.len(), 1int,
{
    assert((rest + more)[0] == rest[0]);
    if rest[0] == 'e' as u8 {
        assert((rest + more).skip(1) =~= rest.skip(1) + more);
    } else {
        ingested_leaves_tail(rest);
        ingested_extends(rest, more);
        let left = ingested(rest).1;
        let value = ingested(rest).0->Ok_0;
        lemma_items_extend(left, left, items.push(value), left + more, more);
    }
}

proof fn lemma_pairs_extend(
    at: Seq<u8>,
    rest: Seq<u8>,
    pairs: Seq<(Seq<u8>, Benc)>,
    other_at: Seq<u8>,
    more: Seq<u8>,
)
    requires
        ingested_pairs(at, rest, pairs).0 is Ok,
    ensures
        ingested_pairs(other_at, rest + more, pairs).0 == ingested_pairs(at, rest, pairs).0,
        ingested_pairs(other_at, rest + more, pairs).1 == ingested_pairs(at, rest, pairs).1 + more,
    decreases rest.len(), 1int,
{
    assert((rest + more)[0] == rest[0]);
    if rest[0] == 'e' as u8 {
        assert((rest + more).skip(1) =~= rest.skip(1) + more);
    } else {
        ingested_leaves_tail(rest);
        ingested_extends(rest, more);
        let left = ingested(rest).1;
        let key = ingested(rest).0->Ok_0->Bytes_0;
        ingested_leaves_tail(left);
        ingested_extends(left, more);
        let left2 = ingested(left).1;
        let value = ingested(left).0->Ok_0;
        lemma_pairs_extend(left2, left2, with_entry(pairs, key, value), left2 + more, more);
    }
}

/// A value made of integers, lists of such values, and empty dictionaries. Of these
/// the written form tells where each part ends; a byte string is written without its
/// length, so what it holds cannot be told from what follows.
pub open spec fn self_delimiting(value: Benc) -> bool
    decreases value,
{
    match value {
        Benc::Int(value) => i64::MIN <= value <= i64::MAX,
        Benc::List(items) => forall|i: int|
            0 <= i < items.len() ==> self_delimiting(#[trigger] items[i]),
        Benc::Dict(pairs) => pairs.len() == 0,
        _ => false,
    }
}

/// The characters of a decimal number are a sign and digits.
pub proof fn lemma_decimal_ascii(n: int)
    ensures
        is_ascii_chars(decimal(n)),
        forall|i: int|
            0 <= i < decimal(n).len() ==> (#[trigger] decimal(n)[i] == '-' || is_digit(
                decimal(n)[i],
            )),
        decimal(n).len() > 0,
{
    if n < 0 {
        decimal_nat_reads_back((-n) as nat);
        let digits = decimal_nat((-n) as nat);
        assert forall|i: int| 0 <= i < decimal(n).len() implies (#[trigger] decimal(n)[i] == '-'
            || is_digit(decimal(n)[i])) by {
            if i > 0 {
                assert(decimal(n)[i] == digits[i - 1]);
            }
        }
    } else {
        decimal_nat_reads_back(n as nat);
    }
    lemma_ascii(decimal(n));
}

/// Reading gives back what writing wrote, and leaves what follows it.
pub proof fn ingested_encoded(value: Benc, more: Seq<u8>)
    requires
        self_delimiting(value),
    ensures
        ingested(encoded(value) + more) == (Ok::<Benc, Seq<char>>(value), more),
    decreases value,
{
    let bytes = encoded(value) + more;
    match value {
        Benc::Int(n) => {
            let text = decimal(n);
            let digits = encode_utf8(text);
            lemma_decimal_ascii(n);
            is_ascii_chars_encode_utf8(text);
            decimal_reads_back(n);
            vstd::utf8::encode_utf8_valid_utf8(text);
            vstd::utf8::encode_utf8_decode_utf8(text);
            let rest = bytes.skip(1);
            assert(rest =~= digits + seq!['e' as u8] + more);
            assert(rest[digits.len() as int] == 'e' as u8);
            assert forall|i: int| 0 <= i < digits.len() implies rest[i] != 'e' as u8 by {
                assert(rest[i] == digits[i]);
                assert(digits[i] == text[i] as u8);
            }
            lemma_find_byte_is(rest, 'e' as u8, digits.len() as int);
            assert(rest.take(digits.len() as int) =~= digits);
            assert(rest.skip(digits.len() as int + 1) =~= more);
        },
        Benc::List(items) => {
            let rest = bytes.skip(1);
            assert(rest =~= encoded_all(items) + (seq!['e' as u8] + more));
            assert(items.skip(0) =~= items);
            assert(items.take(0) =~= Seq::<Benc>::empty());
            lemma_items_encoded(items, 0, bytes, more);
        },
        Benc::Dict(pairs) => {
            assert(encoded_pairs(pairs) == Seq::<u8>::empty());
            let rest = bytes.skip(1);
            assert(rest =~= seq!['e' as u8] + more);
            assert(rest.skip(1) =~= more);
            assert(pairs =~= Seq::<(Seq<u8>, Benc)>::empty());
        },
        _ => {},
    }
}

proof fn lemma_items_encoded(items: Seq<Benc>, k: int, at: Seq<u8>, more: Seq<u8>)
    requires
        0 <= k <= items.len(),
        forall|i: int| 0 <= i < items.len() ==> self_delimiting(#[trigger] items[i]),
    ensures
        ingested_items(
            at,
            encoded_all(items.skip(k)) + (seq!['e' as u8] + more),
            items.take(k),
        ) == (Ok::<Seq<Benc>, Seq<char>>(items), more),
    decreases items, items.len() - k,
{
    let rest = encoded_all(items.skip(k)) + (seq!['e' as u8] + more);
    if k == items.len() {
        assert(rest =~= seq!['e' as u8] + more);
        assert(rest.skip(1) =~= more);
        assert(items.take(k) =~= items);
    } else {
        let value = items[k];
        let after = encoded_all(items.skip(k + 1)) + (seq!['e' as u8] + more);
        assert(items.skip(k)[0] == value);
        assert(items.skip(k).drop_first() =~= items.skip(k + 1));
        assert(rest =~= encoded(value) + after);
        ingested_encoded(value, after);
        lemma_first_byte(value);
        assert(rest[0] == encoded(value)[0]);
        assert(items.take(k).push(value) =~= items.take(k + 1));
        ingested_leaves_tail(rest);
        lemma_items_encoded(items, k + 1, after, more);
    }
}

proof fn lemma_first_byte(value: Benc)
    requires
        self_delimiting(value),
    ensures
        encoded(value).len() > 0,
        encoded(value)[0] != 'e' as u8,
{
}

} // verus!
