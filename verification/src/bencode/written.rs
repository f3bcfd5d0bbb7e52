//! What holds of the bytes and the text that values are written as.

use vstd::prelude::*;
use vstd::utf8::encode_utf8;

use crate::bencode::{
    displayed, displayed_items, displayed_pair, displayed_pairs, encoded, encoded_all,
    encoded_pairs, Benc,
};
use crate::bytes::{escaped, escaped_byte};
use crate::text::laws::{concat_text_joins, concat_text_of_one, hex_digits_stand_for_byte};
use crate::text::{decimal_reads_back, signed_of_text};
use crate::types::{ascii_shown_as_itself, shown, shown_byte};
use crate::util::hex_digit_value;

verus! {

/// The bytes of a list are those of its items, one behind the other, between `l` and `e`.
pub proof fn list_is_written_by_items(items: Seq<Benc>, i: int)
    requires
        0 <= i < items.len(),
    ensures
        encoded(Benc::List(items)) == seq!['l' as u8] + encoded_all(items.take(i)) + encoded(
            items[i],
        ) + encoded_all(items.skip(i + 1)) + seq!['e' as u8],
        encoded(Benc::List(seq![])) == seq!['l' as u8, 'e' as u8],
{
    lemma_all_join(items.take(i), items.skip(i));
    assert(items.take(i) + items.skip(i) =~= items);
    assert(items.skip(i)[0] == items[i]);
    assert(items.skip(i).drop_first() =~= items.skip(i + 1));
    assert(encoded(Benc::List(items)) =~= seq!['l' as u8] + encoded_all(items.take(i)) + encoded(
        items[i],
    ) + encoded_all(items.skip(i + 1)) + seq!['e' as u8]);
    assert(encoded_all(Seq::<Benc>::empty()) == Seq::<u8>::empty());
    assert(encoded(Benc::List(seq![])) =~= seq!['l' as u8, 'e' as u8]);
}

proof fn lemma_all_join(a: Seq<Benc>, b: Seq<Benc>)
    ensures
        encoded_all(a + b) == encoded_all(a) + encoded_all(b),
    decreases a.len(),
{
    if a.len() == 0 {
        assert(a + b =~= b);
        assert(encoded_all(a) + encoded_all(b) =~= encoded_all(b));
    } else {
        lemma_all_join(a.drop_first(), b);
        assert((a + b).drop_first() =~= a.drop_first() + b);
        assert(encoded_all(a + b) =~= encoded_all(a) + encoded_all(b));
    }
}

proof fn lemma_pairs_join(a: Seq<(Seq<u8>, Benc)>, b: Seq<(Seq<u8>, Benc)>)
    ensures
        encoded_pairs(a + b) == encoded_pairs(a) + encoded_pairs(b),
    decreases a.len(),
{
    if a.len() == 0 {
        assert(a + b =~= b);
        assert(encoded_pairs(a) + encoded_pairs(b) =~= encoded_pairs(b));
    } else {
        lemma_pairs_join(a.drop_first(), b);
        assert((a + b).drop_first() =~= a.drop_first() + b);
        assert(encoded_pairs(a + b) =~= encoded_pairs(a) + encoded_pairs(b));
    }
}

/// The bytes of a dictionary are those of its pairs, one behind the other, between `d` and
/// `e`: the key, then its value. A pair without a value is left out, key and all.
pub proof fn dictionary_is_written_by_pairs(pairs: Seq<(Seq<u8>, Benc)>, i: int)
    requires
        0 <= i < pairs.len(),
    ensures
        encoded(Benc::Dict(pairs)) == seq!['d' as u8] + encoded_pairs(pairs.take(i)) + (if pairs[i].1
            is Null {
            Seq::<u8>::empty()
        } else {
            pairs[i].0 + encoded(pairs[i].1)
        }) + encoded_pairs(pairs.skip(i + 1)) + seq!['e' as u8],
        encoded(Benc::Dict(seq![])) == seq!['d' as u8, 'e' as u8],
{
    lemma_pairs_join(pairs.take(i), pairs.skip(i));
    assert(pairs.take(i) + pairs.skip(i) =~= pairs);
    assert(pairs.skip(i)[0] == pairs[i]);
    assert(pairs.skip(i).drop_first() =~= pairs.skip(i + 1));
    let middle = if pairs[i].1 is Null {
        Seq::<u8>::empty()
    } else {
        pairs[i].0 + encoded(pairs[i].1)
    };
    assert(encoded_pairs(pairs.skip(i)) =~= middle + encoded_pairs(pairs.skip(i + 1)));
    assert(encoded(Benc::Dict(pairs)) =~= seq!['d' as u8] + encoded_pairs(pairs.take(i)) + middle
        + encoded_pairs(pairs.skip(i + 1)) + seq!['e' as u8]);
    assert(encoded_pairs(Seq::<(Seq<u8>, Benc)>::empty()) == Seq::<u8>::empty());
    assert(encoded(Benc::Dict(seq![])) =~= seq!['d' as u8, 'e' as u8]);
}

/// A byte string is written as its bytes.
pub proof fn string_is_written_as_it_is(bytes: Seq<u8>)
    ensures
        encoded(Benc::Bytes(bytes)) == bytes,
{
}

/// Bytes are shown one behind the other: an ASCII character as it is, any other byte as
/// `\x` and its two digits, in upper case.
pub proof fn bytes_are_shown_one_by_one(a: Seq<u8>, byte: u8, b: Seq<u8>)
    ensures
        shown(a + seq![byte] + b) == shown(a) + shown(seq![byte]) + shown(b),
        byte < 128 ==> shown(seq![byte]) == seq![byte as char],
        byte >= 128 ==> {
            let text = shown(seq![byte]);
            &&& text.len() == 4
            &&& text[0] == '\\'
            &&& text[1] == 'x'
            &&& hex_digit_value(text[2]) matches Some(high) && hex_digit_value(text[3])
                matches Some(low) && high * 16 + low == byte
            &&& !('a' <= text[2] <= 'f') && !('a' <= text[3] <= 'f')
        },
{
    let part = |byte: u8| shown_byte(byte);
    concat_text_joins(a, seq![byte], part);
    concat_text_joins(a + seq![byte], b, part);
    concat_text_of_one(byte, part);
    hex_digits_stand_for_byte(byte);
    reveal_strlit("\\x");
}

/// Bytes are escaped one behind the other: a visible ASCII character or a blank stays as it
/// is, any other byte becomes `\x` and its two digits, in lower case.
pub proof fn bytes_are_escaped_one_by_one(a: Seq<u8>, byte: u8, b: Seq<u8>)
    ensures
        escaped(a + seq![byte] + b) == escaped(a) + escaped(seq![byte]) + escaped(b),
        ' ' as u8 <= byte <= '~' as u8 || byte == '\n' as u8 || byte == '\t' as u8 || byte
            == '\r' as u8 ==> escaped(seq![byte]) == seq![byte as char],
        byte > '~' as u8 || byte < 9 || 13 < byte < 32 ==> {
            let text = escaped(seq![byte]);
            &&& text.len() == 4
            &&& text[0] == '\\'
            &&& text[1] == 'x'
            &&& hex_digit_value(text[2]) matches Some(high) && hex_digit_value(text[3])
                matches Some(low) && high * 16 + low == byte
            &&& !('A' <= text[2] <= 'F') && !('A' <= text[3] <= 'F')
        },
{
    let part = |byte: u8| escaped_byte(byte);
    concat_text_joins(a, seq![byte], part);
    concat_text_joins(a + seq![byte], b, part);
    concat_text_of_one(byte, part);
    hex_digits_stand_for_byte(byte);
}

/// A number is displayed in decimal, and a byte string of ASCII characters as they are,
/// between quotes behind a `b`.
pub proof fn plain_values_are_displayed(n: int, text: Seq<char>)
    requires
        vstd::utf8::is_ascii_chars(text),
    ensures
        signed_of_text(displayed(Benc::Int(n))) == Some(n),
        displayed(Benc::Bytes(encode_utf8(text))) == seq!['b', '"'] + text + seq!['"'],
{
    decimal_reads_back(n);
    ascii_shown_as_itself(text);
    reveal_strlit("b\"");
    reveal_strlit("\"");
    assert(displayed(Benc::Bytes(encode_utf8(text))) =~= seq!['b', '"'] + text + seq!['"']);
}

/// The items of a list are displayed between brackets, all of them and in their order, with
/// a comma between each two.
pub proof fn list_is_displayed_by_items(items: Seq<Benc>)
    ensures
        items.len() == 0 ==> displayed(Benc::List(items)) == seq!['[', ']'],
        items.len() > 0 ==> displayed(Benc::List(items)) == seq!['[', ' '] + displayed_items(items)
            + seq![' ', ']'],
        items.len() == 1 ==> displayed_items(items) == displayed(items[0]),
        forall|i: int|
            0 < i < items.len() ==> displayed_items(items) == #[trigger] displayed_items(
                items.take(i),
            ) + seq![',', ' '] + displayed_items(items.skip(i)),
{
    reveal_strlit("[]");
    reveal_strlit("[ ");
    reveal_strlit(" ]");
    assert(items.len() == 0 ==> displayed(Benc::List(items)) =~= seq!['[', ']']);
    assert("[ "@ =~= seq!['[', ' ']);
    assert(" ]"@ =~= seq![' ', ']']);
    assert forall|i: int| 0 < i < items.len() implies displayed_items(items)
        == #[trigger] displayed_items(items.take(i)) + seq![',', ' '] + displayed_items(
        items.skip(i),
    ) by {
        lemma_displayed_items_join(items.take(i), items.skip(i));
        assert(items.take(i) + items.skip(i) =~= items);
    }
}

proof fn lemma_displayed_items_join(a: Seq<Benc>, b: Seq<Benc>)
    requires
        a.len() > 0,
        b.len() > 0,
    ensures
        displayed_items(a + b) == displayed_items(a) + seq![',', ' '] + displayed_items(b),
    decreases b.len(),
{
    reveal_strlit(", ");
    assert(", "@ =~= seq![',', ' ']);
    let all = a + b;
    assert(all.drop_last() =~= a + b.drop_last());
    assert(all.last() == b.last());
    if b.len() == 1 {
        assert(all.drop_last() =~= a);
    } else {
        lemma_displayed_items_join(a, b.drop_last());
        assert(displayed_items(all) =~= displayed_items(a) + seq![',', ' '] + displayed_items(b));
    }
}

proof fn lemma_displayed_pairs_join(a: Seq<(Seq<u8>, Benc)>, b: Seq<(Seq<u8>, Benc)>)
    requires
        a.len() > 0,
        b.len() > 0,
    ensures
        displayed_pairs(a + b) == displayed_pairs(a) + seq![',', ' '] + displayed_pairs(b),
    decreases b.len(),
{
    reveal_strlit(", ");
    assert(", "@ =~= seq![',', ' ']);
    let all = a + b;
    assert(all.drop_last() =~= a + b.drop_last());
    assert(all.last() == b.last());
    if b.len() == 1 {
        assert(all.drop_last() =~= a);
    } else {
        lemma_displayed_pairs_join(a, b.drop_last());
        assert(displayed_pairs(all) =~= displayed_pairs(a) + seq![',', ' '] + displayed_pairs(b));
    }
}

/// The pairs of a dictionary are displayed between braces, all of them and in their order,
/// with a comma between each two; a pair is its key as a byte string, a colon, its value.
pub proof fn dictionary_is_displayed_by_pairs(pairs: Seq<(Seq<u8>, Benc)>)
    ensures
        pairs.len() == 0 ==> displayed(Benc::Dict(pairs)) == seq!['{', '}'],
        pairs.len() > 0 ==> displayed(Benc::Dict(pairs)) == seq!['{', ' '] + displayed_pairs(pairs)
            + seq![' ', '}'],
        pairs.len() == 1 ==> displayed_pairs(pairs) == displayed(Benc::Bytes(pairs[0].0)) + seq![
            ':',
            ' ',
        ] + displayed(pairs[0].1),
        forall|i: int|
            0 < i < pairs.len() ==> displayed_pairs(pairs) == #[trigger] displayed_pairs(
                pairs.take(i),
            ) + seq![',', ' '] + displayed_pairs(pairs.skip(i)),
{
    reveal_strlit("{}");
    reveal_strlit("{ ");
    reveal_strlit(" }");
    assert(pairs.len() == 0 ==> displayed(Benc::Dict(pairs)) =~= seq!['{', '}']);
    assert("{ "@ =~= seq!['{', ' ']);
    assert(" }"@ =~= seq![' ', '}']);
    if pairs.len() == 1 {
        reveal_strlit("b\"");
        reveal_strlit("\"");
        reveal_strlit("\": ");
        assert(displayed_pair(pairs[0]) =~= displayed(Benc::Bytes(pairs[0].0)) + seq![':', ' ']
            + displayed(pairs[0].1));
    }
    assert forall|i: int| 0 < i < pairs.len() implies displayed_pairs(pairs)
        == #[trigger] displayed_pairs(pairs.take(i)) + seq![',', ' '] + displayed_pairs(
        pairs.skip(i),
    ) by {
        lemma_displayed_pairs_join(pairs.take(i), pairs.skip(i));
        assert(pairs.take(i) + pairs.skip(i) =~= pairs);
    }
}

} // verus!
