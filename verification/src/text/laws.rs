//! What holds of numbers, digits and parts of text.

use vstd::prelude::*;

use crate::text::{
    concat_text, decimal_nat, decimal_nat_reads_back, find_char, hex_byte, hex_byte_upper,
    lemma_find_char, split_once_text, split_text,
};
use crate::util::hex_digit_value;

verus! {

/// A number is written without needless zeros.
pub proof fn decimal_has_no_leading_zero(n: nat)
    ensures
        decimal_nat(n).len() > 0,
        n > 0 ==> decimal_nat(n)[0] != '0',
        n < 10 ==> decimal_nat(n).len() == 1,
    decreases n,
{
    if n >= 10 {
        decimal_has_no_leading_zero(n / 10);
    }
}

/// Different numbers are written differently.
pub proof fn different_numbers_look_different(a: nat, b: nat)
    requires
        a != b,
    ensures
        decimal_nat(a) != decimal_nat(b),
{
    decimal_nat_reads_back(a);
    decimal_nat_reads_back(b);
}

/// The two digits of a byte stand for it, the sixteens first.
pub proof fn hex_digits_stand_for_byte(byte: u8)
    ensures
        hex_byte(byte).len() == 2,
        hex_digit_value(hex_byte(byte)[0]) matches Some(high) && hex_digit_value(hex_byte(byte)[1])
            matches Some(low) && high * 16 + low == byte,
        forall|i: int| 0 <= i < 2 ==> !('A' <= #[trigger] hex_byte(byte)[i] <= 'F'),
        hex_byte_upper(byte).len() == 2,
        hex_digit_value(hex_byte_upper(byte)[0]) matches Some(high) && hex_digit_value(
            hex_byte_upper(byte)[1],
        ) matches Some(low) && high * 16 + low == byte,
        forall|i: int| 0 <= i < 2 ==> !('a' <= #[trigger] hex_byte_upper(byte)[i] <= 'f'),
{
}

/// Text that bytes give part by part is that of the first bytes, then that of the others.
pub proof fn concat_text_joins(a: Seq<u8>, b: Seq<u8>, part: spec_fn(u8) -> Seq<char>)
    ensures
        concat_text(a + b, part) == concat_text(a, part) + concat_text(b, part),
    decreases b.len(),
{
    if b.len() == 0 {
        assert(a + b =~= a);
        assert(concat_text(a, part) + concat_text(b, part) =~= concat_text(a, part));
    } else {
        concat_text_joins(a, b.drop_last(), part);
        assert((a + b).drop_last() =~= a + b.drop_last());
        assert(concat_text(a + b, part) =~= concat_text(a, part) + concat_text(b, part));
    }
}

/// The text that one byte gives.
pub proof fn concat_text_of_one(byte: u8, part: spec_fn(u8) -> Seq<char>)
    ensures
        concat_text(seq![byte], part) == part(byte),
{
    assert(seq![byte].drop_last() =~= Seq::<u8>::empty());
    assert(concat_text(Seq::<u8>::empty(), part) == Seq::<char>::empty());
    assert(concat_text(seq![byte], part) =~= part(byte));
}

/// Parts of text with a separator between each two.
pub open spec fn joined_by(parts: Seq<Seq<char>>, separator: char) -> Seq<char>
    decreases parts.len(),
{
    if parts.len() == 0 {
        seq![]
    } else if parts.len() == 1 {
        parts[0]
    } else {
        parts[0] + seq![separator] + joined_by(parts.drop_first(), separator)
    }
}

/// Whether a character occurs in a text.
pub open spec fn has_char(text: Seq<char>, c: char) -> bool {
    exists|i: int| 0 <= i < text.len() && text[i] == c
}

/// The parts that a text is split into make up the text, with the separator between each
/// two; it occurs in none of them.
pub proof fn split_text_makes_up_text(text: Seq<char>, separator: char)
    ensures
        split_text(text, separator).len() > 0,
        joined_by(split_text(text, separator), separator) == text,
        forall|i: int|
            0 <= i < split_text(text, separator).len() ==> !has_char(
                #[trigger] split_text(text, separator)[i],
                separator,
            ),
    decreases text.len(),
{
    lemma_find_char(text, separator);
    let parts = split_text(text, separator);
    match find_char(text, separator) {
        None => {},
        Some(at) => {
            let rest = text.skip(at + 1);
            let others = split_text(rest, separator);
            split_text_makes_up_text(rest, separator);
            assert(parts.drop_first() =~= others);
            assert(text =~= text.take(at) + seq![separator] + rest);
            assert forall|i: int| 0 <= i < parts.len() implies !has_char(
                #[trigger] parts[i],
                separator,
            ) by {
                if i > 0 {
                    assert(parts[i] == others[i - 1]);
                }
            }
        },
    }
}

/// Parts without the separator are found again, all of them and in their order.
pub proof fn joined_parts_are_split(parts: Seq<Seq<char>>, separator: char)
    requires
        parts.len() > 0,
        forall|i: int| 0 <= i < parts.len() ==> !has_char(#[trigger] parts[i], separator),
    ensures
        split_text(joined_by(parts, separator), separator) == parts,
    decreases parts.len(),
{
    let text = joined_by(parts, separator);
    lemma_find_char(text, separator);
    assert(!has_char(parts[0], separator));
    if parts.len() == 1 {
        assert(text == parts[0]);
        if let Some(at) = find_char(text, separator) {
            assert(text[at] == separator);
        }
        assert(split_text(text, separator) =~= parts);
    } else {
        let rest = parts.drop_first();
        assert forall|i: int| 0 <= i < rest.len() implies !has_char(
            #[trigger] rest[i],
            separator,
        ) by {
            assert(rest[i] == parts[i + 1]);
        }
        joined_parts_are_split(rest, separator);
        let end = parts[0].len() as int;
        assert(text[end] == separator);
        let at = find_char(text, separator)->0;
        if at < end {
            assert(parts[0][at] == separator);
        }
        assert(at == end);
        assert(text.take(at) =~= parts[0]);
        assert(text.skip(at + 1) =~= joined_by(rest, separator));
        assert(split_text(text, separator) =~= parts);
    }
}

/// A text is split once at the first separator.
pub proof fn split_once_at_first(head: Seq<char>, tail: Seq<char>, separator: char)
    requires
        !has_char(head, separator),
    ensures
        split_once_text(head + seq![separator] + tail, separator) == Some((head, tail)),
        split_once_text(head, separator) is None,
{
    let text = head + seq![separator] + tail;
    lemma_find_char(text, separator);
    lemma_find_char(head, separator);
    assert(text[head.len() as int] == separator);
    let at = find_char(text, separator)->0;
    if at < head.len() {
        assert(head[at] == separator);
    }
    assert(text.take(at) =~= head);
    assert(text.skip(at + 1) =~= tail);
}

} // verus!
