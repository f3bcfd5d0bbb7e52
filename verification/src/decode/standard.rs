//! The bytes of JSON values are those that bencoding gives the same values, and both readers
//! read them.

use vstd::prelude::*;
use vstd::utf8::{decode_utf8, decode_utf8_encode_utf8, encode_utf8};

use crate::bencode::encode::{bencoded, bencoded_items, bencoded_members, bencoded_text};
use crate::bencode::standard::{
    standard, standard_all, standard_is_read, standard_pairs, standard_string, standardizable,
};
use crate::bencode::{ingested, Benc};
use crate::decode::laws::{consumed_bencoded, plain_string, readable};
use crate::decode::{consumed, listed, marked_text, text_of_bytes};
use crate::json::Json;
use crate::keymap::ascending;

use crate::text::{decimal, decimal_nat};
use crate::util::laws::lemma_encode_joins;

verus! {

/// A JSON value of numbers, texts, arrays and objects as a bencoded value.
pub open spec fn benc_of(value: Json) -> Benc
    decreases value,
{
    match value {
        Json::Number(n) => Benc::Int(n),
        Json::Text(text) => Benc::Bytes(encode_utf8(text)),
        Json::Array(items) => Benc::List(benc_items(items)),
        Json::Object(pairs) => Benc::Dict(benc_pairs(pairs)),
        _ => Benc::Null,
    }
}

pub open spec fn benc_items(items: Seq<Json>) -> Seq<Benc>
    decreases items,
{
    if items.len() == 0 {
        seq![]
    } else {
        seq![benc_of(items[0])] + benc_items(items.drop_first())
    }
}

pub open spec fn benc_pairs(pairs: Seq<(Seq<u8>, Json)>) -> Seq<(Seq<u8>, Benc)>
    decreases pairs,
{
    if pairs.len() == 0 {
        seq![]
    } else {
        seq![(pairs[0].0, benc_of(pairs[0].1))] + benc_pairs(pairs.drop_first())
    }
}

proof fn lemma_text(text: Seq<char>)
    requires
        plain_string(text),
    ensures
        bencoded_text(text) == Ok::<Seq<u8>, Seq<char>>(standard_string(encode_utf8(text))),
{
    let bytes = encode_utf8(text);
    let digits = decimal_nat(bytes.len());
    lemma_encode_joins(digits, ":"@);
    assert(encode_utf8(":"@) =~= seq![':' as u8]) by {
        reveal_strlit(":");
        crate::text::lemma_ascii(":"@);
        vstd::utf8::is_ascii_chars_encode_utf8(":"@);
    }
    assert(decimal(bytes.len() as int) == digits);
}

proof fn lemma_pairs_keep_keys(pairs: Seq<(Seq<u8>, Json)>)
    ensures
        benc_pairs(pairs).len() == pairs.len(),
        forall|i: int|
            0 <= i < pairs.len() ==> (#[trigger] benc_pairs(pairs)[i]) == (
                pairs[i].0,
                benc_of(pairs[i].1),
            ),
    decreases pairs.len(),
{
    if pairs.len() > 0 {
        let rest = pairs.drop_first();
        lemma_pairs_keep_keys(rest);
        assert forall|i: int| 0 <= i < pairs.len() implies (#[trigger] benc_pairs(pairs)[i]) == (
            pairs[i].0,
            benc_of(pairs[i].1),
        ) by {
            if i > 0 {
                assert(benc_pairs(pairs)[i] == benc_pairs(rest)[i - 1]);
                assert(rest[i - 1] == pairs[i]);
            }
        }
    }
}

proof fn lemma_items_keep(items: Seq<Json>)
    ensures
        benc_items(items).len() == items.len(),
        forall|i: int|
            0 <= i < items.len() ==> (#[trigger] benc_items(items)[i]) == benc_of(items[i]),
    decreases items.len(),
{
    if items.len() > 0 {
        let rest = items.drop_first();
        lemma_items_keep(rest);
        assert forall|i: int| 0 <= i < items.len() implies (#[trigger] benc_items(items)[i])
            == benc_of(items[i]) by {
            if i > 0 {
                assert(benc_items(items)[i] == benc_items(rest)[i - 1]);
                assert(rest[i - 1] == items[i]);
            }
        }
    }
}

proof fn lemma_standard(value: Json)
    requires
        readable(value),
    ensures
        standardizable(benc_of(value)),
        bencoded(value) == Ok::<Seq<u8>, Seq<char>>(standard(benc_of(value))),
    decreases value, 0int,
{
    match value {
        Json::Number(n) => {},
        Json::Text(text) => {
            lemma_text(text);
        },
        Json::Array(items) => {
            lemma_items_keep(items);
            lemma_items(items, items);
            assert forall|i: int| 0 <= i < items.len() implies standardizable(
                #[trigger] benc_items(items)[i],
            ) by {
                assert(readable(items[i]));
                lemma_standard(items[i]);
            }
        },
        Json::Object(pairs) => {
            lemma_pairs_keep_keys(pairs);
            lemma_pairs(pairs, pairs);
            let dict = benc_pairs(pairs);
            assert forall|i: int, j: int| 0 <= i < j < dict.len() implies crate::keymap::key_less(
                (#[trigger] dict[i]).0,
                (#[trigger] dict[j]).0,
            ) by {
                assert(crate::keymap::key_less(pairs[i].0, pairs[j].0));
            }
            assert(ascending(dict));
            assert forall|i: int| 0 <= i < dict.len() implies (#[trigger] dict[i]).0.len()
                <= usize::MAX && standardizable(dict[i].1) by {
                assert(vstd::utf8::valid_utf8(pairs[i].0));
                assert(readable(pairs[i].1));
                decode_utf8_encode_utf8(pairs[i].0);
                lemma_standard(pairs[i].1);
            }
        },
        _ => {},
    }
}

proof fn lemma_items(items: Seq<Json>, all: Seq<Json>)
    requires
        items.len() <= all.len(),
        forall|i: int| 0 <= i < items.len() ==> readable(#[trigger] items[i]),
        forall|i: int|
            0 <= i < items.len() ==> (#[trigger] items[i]) == all[i + all.len() - items.len()],
    ensures
        bencoded_items(items) == Ok::<Seq<u8>, Seq<char>>(standard_all(benc_items(items))),
    decreases all, items.len(),
{
    if items.len() > 0 {
        let rest = items.drop_first();
        assert(items[0] == all[all.len() - items.len()]);
        assert(readable(items[0]));
        lemma_standard(items[0]);
        assert forall|i: int| 0 <= i < rest.len() implies readable(#[trigger] rest[i]) by {
            assert(rest[i] == items[i + 1]);
        }
        assert forall|i: int| 0 <= i < rest.len() implies (#[trigger] rest[i]) == all[i + all.len()
            - rest.len()] by {
            assert(rest[i] == items[i + 1]);
        }
        lemma_items(rest, all);
        assert(benc_items(items).drop_first() =~= benc_items(rest));
    }
}

proof fn lemma_pairs(pairs: Seq<(Seq<u8>, Json)>, all: Seq<(Seq<u8>, Json)>)
    requires
        pairs.len() <= all.len(),
        forall|i: int|
            0 <= i < pairs.len() ==> {
                &&& vstd::utf8::valid_utf8((#[trigger] pairs[i]).0)
                &&& plain_string(decode_utf8(pairs[i].0))
                &&& readable(pairs[i].1)
            },
        forall|i: int|
            0 <= i < pairs.len() ==> (#[trigger] pairs[i]) == all[i + all.len() - pairs.len()],
    ensures
        bencoded_members(pairs) == Ok::<Seq<u8>, Seq<char>>(standard_pairs(benc_pairs(pairs))),
    decreases all, pairs.len(),
{
    if pairs.len() > 0 {
        let rest = pairs.drop_first();
        assert(pairs[0] == all[all.len() - pairs.len()]);
        assert(readable(pairs[0].1));
        lemma_standard(pairs[0].1);
        lemma_text(decode_utf8(pairs[0].0));
        decode_utf8_encode_utf8(pairs[0].0);
        assert forall|i: int| 0 <= i < rest.len() implies {
            &&& vstd::utf8::valid_utf8((#[trigger] rest[i]).0)
            &&& plain_string(decode_utf8(rest[i].0))
            &&& readable(rest[i].1)
        } by {
            assert(rest[i] == pairs[i + 1]);
        }
        assert forall|i: int| 0 <= i < rest.len() implies (#[trigger] rest[i]) == all[i + all.len()
            - rest.len()] by {
            assert(rest[i] == pairs[i + 1]);
        }
        lemma_pairs(rest, all);
        assert(benc_pairs(pairs).drop_first() =~= benc_pairs(rest));
    }
}

/// A JSON value is written in the standard form of bencoding, and both readers read it, each
/// to its own kind of value, whatever follows it.
pub proof fn readers_agree(value: Json, more: Seq<u8>)
    requires
        readable(value),
    ensures
        bencoded(value) == Ok::<Seq<u8>, Seq<char>>(standard(benc_of(value))),
        ingested(standard(benc_of(value)) + more) == (Ok::<Benc, Seq<char>>(benc_of(value)), more),
        consumed(standard(benc_of(value)) + more) == (Ok::<Json, Seq<char>>(value), more),
{
    lemma_standard(value);
    standard_is_read(benc_of(value), more);
    consumed_bencoded(value, more);
}

/// Bytes that are text stand for that text; others are marked, and so is text that would
/// pass for marked bytes where that matters.
pub proof fn text_stands_for_itself(text: Seq<char>)
    ensures
        text_of_bytes(encode_utf8(text)) == text,
        plain_string(text) ==> marked_text(encode_utf8(text)) == text,
{
    vstd::utf8::encode_utf8_valid_utf8(text);
    vstd::utf8::encode_utf8_decode_utf8(text);
}

/// Bytes that are no text begin with the mark when they are made text.
pub proof fn other_bytes_are_marked(bytes: Seq<u8>)
    requires
        !vstd::utf8::valid_utf8(bytes),
    ensures
        crate::bencode::encode::is_b64(text_of_bytes(bytes)),
        crate::bencode::encode::is_b64(marked_text(bytes)),
{
    let text = text_of_bytes(bytes);
    assert(text.take("base64:"@.len() as int) =~= "base64:"@);
    assert(marked_text(bytes) =~= text);
}

/// Bytes are listed as numbers, all of them and in their order.
pub proof fn bytes_are_listed(a: Seq<u8>, b: Seq<u8>)
    requires
        a.len() > 0,
        b.len() > 0,
    ensures
        listed(a + b) == listed(a) + seq![',', ' '] + listed(b),
        a.len() == 1 ==> listed(a) == decimal_nat(a[0] as nat),
    decreases b.len(),
{
    reveal_strlit(", ");
    assert(", "@ =~= seq![',', ' ']);
    let all = a + b;
    assert(all.drop_last() =~= a + b.drop_last());
    assert(all.last() == b.last());
    if b.len() == 1 {
        assert(all.drop_last() =~= a);
    } else {
        bytes_are_listed(a, b.drop_last());
        assert(listed(all) =~= listed(a) + seq![',', ' '] + listed(b));
    }
}

} // verus!
