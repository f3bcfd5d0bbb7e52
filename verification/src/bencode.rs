//! Bencoding.

use vstd::prelude::*;
use vstd::slice::slice_subrange;
use vstd::utf8::encode_utf8;

use crate::bytes::Bytes;
use crate::error::{bterror, BitTorrentError};
use crate::keymap::{ascending, dict_of, lookup, with_entry, KeyMap};
use crate::types::{shown, shown_text};
use crate::text::{
    bytes_to_vec, decimal, decimal_string, i64_of_bytes, lemma_usize_of_text, parse_i64,
    parse_usize, string_from_utf8, usize_of_bytes,
};

pub mod encode;
pub mod laws;
pub mod standard;
pub mod written;

verus! {

pub type Number = i64;

pub type Dict = KeyMap<Bytes, BencodedValue>;

/// A bencoded value; `Null` stands for an entry that is left out when a dictionary
/// is written.
#[derive(Debug)]
pub enum BencodedValue {
    Bytes(Bytes),
    Int(Number),
    List(Vec<BencodedValue>),
    Dict(Dict),
    Null,
}

/// A bencoded value as a mathematical object: a dictionary is its pairs in ascending
/// order of their keys.
pub enum Benc {
    Bytes(Seq<u8>),
    Int(int),
    List(Seq<Benc>),
    Dict(Seq<(Seq<u8>, Benc)>),
    Null,
}

impl View for BencodedValue {
    type V = Benc;

    open spec fn view(&self) -> Benc
        decreases self,
    {
        match self {
            BencodedValue::Bytes(bytes) => Benc::Bytes(bytes@),
            BencodedValue::Int(value) => Benc::Int(*value as int),
            BencodedValue::List(list) => Benc::List(list_view(list@)),
            BencodedValue::Dict(dict) => Benc::Dict(dict_view(*dict)),
            BencodedValue::Null => Benc::Null,
        }
    }
}

/// The values of a list.
pub open spec fn list_view(list: Seq<BencodedValue>) -> Seq<Benc>
    decreases list,
{
    Seq::new(
        list.len(),
        |i: int|
            if 0 <= i < list.len() {
                list[i].view()
            } else {
                Benc::Null
            },
    )
}

/// The pairs of a dictionary.
pub closed spec fn dict_view(dict: Dict) -> Seq<(Seq<u8>, Benc)>
    decreases dict,
{
    Seq::new(
        dict.entries@.len(),
        |i: int|
            if 0 <= i < dict.entries@.len() {
                (dict.entries@[i].0@, dict.entries@[i].1.view())
            } else {
                (seq![], Benc::Null)
            },
    )
}

/// Pairs with their values replaced by what they stand for.
pub open spec fn pairs_view(pairs: Seq<(Seq<u8>, BencodedValue)>) -> Seq<(Seq<u8>, Benc)> {
    Seq::new(pairs.len(), |i: int| (pairs[i].0, pairs[i].1@))
}

/// A dictionary's pairs are those of the map that holds it.
pub proof fn lemma_dict_view(dict: Dict)
    ensures
        dict_view(dict) == pairs_view(dict@),
{
    dict.lemma_view();
    assert(dict_view(dict) =~= pairs_view(dict@));
}

/// The first position of a byte.
pub open spec fn find_byte(bytes: Seq<u8>, byte: u8) -> Option<int>
    decreases bytes.len(),
{
    if bytes.len() == 0 {
        None
    } else if bytes[0] == byte {
        Some(0)
    } else {
        match find_byte(bytes.drop_first(), byte) {
            Some(at) => Some(at + 1),
            None => None,
        }
    }
}

pub proof fn lemma_find_byte(bytes: Seq<u8>, byte: u8)
    ensures
        match find_byte(bytes, byte) {
            Some(at) => 0 <= at < bytes.len() && bytes[at] == byte && forall|i: int|
                0 <= i < at ==> bytes[i] != byte,
            None => forall|i: int| 0 <= i < bytes.len() ==> bytes[i] != byte,
        },
    decreases bytes.len(),
{
    if bytes.len() > 0 && bytes[0] != byte {
        let rest = bytes.drop_first();
        lemma_find_byte(rest, byte);
        assert(forall|i: int| 0 < i < bytes.len() ==> bytes[i] == rest[i - 1]);
    }
}

pub proof fn lemma_find_byte_is(bytes: Seq<u8>, byte: u8, at: int)
    requires
        0 <= at < bytes.len(),
        bytes[at] == byte,
        forall|i: int| 0 <= i < at ==> bytes[i] != byte,
    ensures
        find_byte(bytes, byte) == Some(at),
{
    lemma_find_byte(bytes, byte);
}

/// The first position of a byte.
pub fn position_of(bytes: &[u8], byte: u8) -> (at: Option<usize>)
    ensures
        match at {
            Some(at) => find_byte(bytes@, byte) == Some(at as int) && at < bytes@.len(),
            None => find_byte(bytes@, byte) is None,
        },
{
    let mut i: usize = 0;
    while i < bytes.len()
        invariant
            0 <= i <= bytes.len(),
            forall|j: int| 0 <= j < i ==> bytes@[j] != byte,
        decreases bytes.len() - i,
    {
        if bytes[i] == byte {
            proof {
                lemma_find_byte_is(bytes@, byte, i as int);
            }
            return Some(i);
        }
        i = i + 1;
    }
    proof {
        lemma_find_byte(bytes@, byte);
    }
    None
}

pub open spec fn is_digit_byte(byte: u8) -> bool {
    '0' as u8 <= byte <= '9' as u8
}

/// What reading one value off the front of some bytes gives: the value, or a
/// description of what is wrong; and the bytes that are left.
pub open spec fn ingested(bytes: Seq<u8>) -> (Result<Benc, Seq<char>>, Seq<u8>)
    decreases bytes.len(), 0int,
{
    if bytes.len() == 0 {
        (Err("No data"@), bytes)
    } else if bytes[0] == 'i' as u8 {
        let rest = bytes.skip(1);
        match find_byte(rest, 'e' as u8) {
            None => (Err("Missing integer end token"@), bytes),
            Some(end) => match i64_of_bytes(rest.take(end)) {
                Ok(value) => (Ok(Benc::Int(value)), rest.skip(end + 1)),
                Err(complaint) => (Err(complaint), rest.skip(end + 1)),
            },
        }
    } else if bytes[0] == 'l' as u8 {
        match ingested_items(bytes, bytes.skip(1), seq![]) {
            (Ok(items), left) => (Ok(Benc::List(items)), left),
            (Err(complaint), left) => (Err(complaint), left),
        }
    } else if bytes[0] == 'd' as u8 {
        match ingested_pairs(bytes, bytes.skip(1), seq![]) {
            (Ok(pairs), left) => (Ok(Benc::Dict(pairs)), left),
            (Err(complaint), left) => (Err(complaint), left),
        }
    } else if is_digit_byte(bytes[0]) {
        match find_byte(bytes, ':' as u8) {
            None => (Err("Missing string length end token"@), bytes),
            Some(end) => match usize_of_bytes(bytes.take(end)) {
                Err(complaint) => (Err(complaint), bytes),
                Ok(length) => if end + 1 + length <= bytes.len() {
                    (
                        Ok(Benc::Bytes(bytes.subrange(end + 1, end + 1 + length))),
                        bytes.skip(end + 1 + length),
                    )
                } else {
                    (Err("Insufficient characters remaining"@), bytes)
                },
            },
        }
    } else {
        (Err("Invalid bencoded value"@), bytes)
    }
}

/// The same for the items of a list up to its end: `at` is what is left if the list
/// breaks off, `rest` is still to be read, `items` has been read.
pub open spec fn ingested_items(at: Seq<u8>, rest: Seq<u8>, items: Seq<Benc>) -> (
    Result<Seq<Benc>, Seq<char>>,
    Seq<u8>,
)
    decreases rest.len(), 1int,
{
    if rest.len() == 0 {
        (Err("Missing list end token"@), at)
    } else if rest[0] == 'e' as u8 {
        (Ok(items), rest.skip(1))
    } else {
        match ingested(rest) {
            (Err(complaint), left) => (Err(complaint), left),
            (Ok(value), left) => if left.len() < rest.len() {
                ingested_items(left, left, items.push(value))
            } else {
                (Err(seq![]), left)
            },
        }
    }
}

/// The same for the pairs of a dictionary up to its end.
pub open spec fn ingested_pairs(at: Seq<u8>, rest: Seq<u8>, pairs: Seq<(Seq<u8>, Benc)>) -> (
    Result<Seq<(Seq<u8>, Benc)>, Seq<char>>,
    Seq<u8>,
)
    decreases rest.len(), 1int,
{
    if rest.len() == 0 {
        (Err("Missing dict end token"@), at)
    } else if rest[0] == 'e' as u8 {
        (Ok(pairs), rest.skip(1))
    } else {
        match ingested(rest) {
            (Err(complaint), left) => (Err(complaint), left),
            (Ok(key), left) => match key {
                Benc::Bytes(key) => if left.len() < rest.len() {
                    match ingested(left) {
                        (Err(complaint), left) => (Err(complaint), left),
                        (Ok(value), left) => if left.len() < rest.len() {
                            ingested_pairs(left, left, with_entry(pairs, key, value))
                        } else {
                            (Err(seq![]), left)
                        },
                    }
                } else {
                    (Err(seq![]), left)
                },
                _ => (Err("Invalid dict key"@), left),
            },
        }
    }
}

/// Whether `tail` is what is left of `bytes` after some of them are read.
pub open spec fn is_tail(tail: Seq<u8>, bytes: Seq<u8>) -> bool {
    tail.len() <= bytes.len() && tail == bytes.skip(bytes.len() - tail.len())
}

pub proof fn lemma_tail_of_tail(a: Seq<u8>, b: Seq<u8>, c: Seq<u8>)
    requires
        is_tail(a, b),
        is_tail(b, c),
    ensures
        is_tail(a, c),
{
    assert(a =~= c.skip(c.len() - a.len()));
}

/// Reading leaves a tail of the bytes, whether it succeeds or not; a value that is
/// read takes at least one byte.
pub proof fn ingested_leaves_tail(bytes: Seq<u8>)
    ensures
        is_tail(ingested(bytes).1, bytes),
        ingested(bytes).0 is Ok ==> ingested(bytes).1.len() < bytes.len(),
    decreases bytes.len(), 0int,
{
    assert(is_tail(bytes, bytes)) by {
        assert(bytes =~= bytes.skip(0));
    }
    if bytes.len() > 0 {
        let rest = bytes.skip(1);
        assert(is_tail(rest, bytes));
        if bytes[0] == 'i' as u8 {
            lemma_find_byte(rest, 'e' as u8);
            if let Some(end) = find_byte(rest, 'e' as u8) {
                assert(is_tail(rest.skip(end + 1), bytes)) by {
                    assert(rest.skip(end + 1) =~= bytes.skip(end + 2));
                }
            }
        } else if bytes[0] == 'l' as u8 {
            lemma_items_leave_tail(bytes, rest, seq![]);
        } else if bytes[0] == 'd' as u8 {
            lemma_pairs_leave_tail(bytes, rest, seq![]);
        } else if is_digit_byte(bytes[0]) {
            lemma_find_byte(bytes, ':' as u8);
            if let Some(end) = find_byte(bytes, ':' as u8) {
                if let Ok(length) = usize_of_bytes(bytes.take(end)) {
                    lemma_usize_not_negative(bytes.take(end));
                }
            }
        }
    }
}

proof fn lemma_usize_not_negative(bytes: Seq<u8>)
    ensures
        usize_of_bytes(bytes) matches Ok(length) ==> 0 <= length <= usize::MAX,
{
    lemma_usize_of_text(vstd::utf8::decode_utf8(bytes));
}

proof fn lemma_items_leave_tail(at: Seq<u8>, rest: Seq<u8>, items: Seq<Benc>)
    requires
        is_tail(rest, at),
    ensures
        is_tail(ingested_items(at, rest, items).1, at),
        ingested_items(at, rest, items).0 is Ok ==> ingested_items(at, rest, items).1.len()
            < rest.len(),
    decreases rest.len(), 1int,
{
    assert(is_tail(at, at)) by {
        assert(at =~= at.skip(0));
    }
    if rest.len() > 0 {
        if rest[0] == 'e' as u8 {
            assert(is_tail(rest.skip(1), rest));
            lemma_tail_of_tail(rest.skip(1), rest, at);
        } else {
            ingested_leaves_tail(rest);
            let left = ingested(rest).1;
            lemma_tail_of_tail(left, rest, at);
            if let Ok(value) = ingested(rest).0 {
                assert(left =~= left.skip(0));
                lemma_items_leave_tail(left, left, items.push(value));
                lemma_tail_of_tail(ingested_items(left, left, items.push(value)).1, left, at);
            }
        }
    }
}

proof fn lemma_pairs_leave_tail(at: Seq<u8>, rest: Seq<u8>, pairs: Seq<(Seq<u8>, Benc)>)
    requires
        is_tail(rest, at),
    ensures
        is_tail(ingested_pairs(at, rest, pairs).1, at),
        ingested_pairs(at, rest, pairs).0 is Ok ==> ingested_pairs(at, rest, pairs).1.len()
            < rest.len(),
    decreases rest.len(), 1int,
{
    assert(is_tail(at, at)) by {
        assert(at =~= at.skip(0));
    }
    if rest.len() > 0 {
        if rest[0] == 'e' as u8 {
            assert(is_tail(rest.skip(1), rest));
            lemma_tail_of_tail(rest.skip(1), rest, at);
        } else {
            ingested_leaves_tail(rest);
            let left = ingested(rest).1;
            lemma_tail_of_tail(left, rest, at);
            if let Ok(Benc::Bytes(key)) = ingested(rest).0 {
                ingested_leaves_tail(left);
                let left2 = ingested(left).1;
                lemma_tail_of_tail(left2, left, at);
                if let Ok(value) = ingested(left).0 {
                    let more = with_entry(pairs, key, value);
                    assert(left2 =~= left2.skip(0));
                    lemma_pairs_leave_tail(left2, left2, more);
                    lemma_tail_of_tail(ingested_pairs(left2, left2, more).1, left2, at);
                }
            }
        }
    }
}

proof fn lemma_list_view_push(list: Seq<BencodedValue>, value: BencodedValue)
    ensures
        list_view(list.push(value)) == list_view(list).push(value@),
{
    assert(list_view(list.push(value)) =~= list_view(list).push(value@));
}

proof fn lemma_pairs_view_with_entry(
    pairs: Seq<(Seq<u8>, BencodedValue)>,
    key: Seq<u8>,
    value: BencodedValue,
)
    ensures
        pairs_view(with_entry(pairs, key, value)) == with_entry(pairs_view(pairs), key, value@),
{
    lemma_pairs_view_rank(pairs, key);
    crate::keymap::lemma_rank(pairs, key);
    assert(pairs_view(with_entry(pairs, key, value)) =~= with_entry(
        pairs_view(pairs),
        key,
        value@,
    ));
}

/// Looking a key up commutes with taking the values for what they stand for.
pub proof fn lemma_pairs_view_rank(pairs: Seq<(Seq<u8>, BencodedValue)>, key: Seq<u8>)
    ensures
        crate::keymap::rank(pairs_view(pairs), key) == crate::keymap::rank(pairs, key),
        crate::keymap::has_key(pairs_view(pairs), key) == crate::keymap::has_key(pairs, key),
        crate::keymap::lookup(pairs_view(pairs), key) == match crate::keymap::lookup(pairs, key) {
            Some(value) => Some(value@),
            None => None,
        },
        pairs_view(crate::keymap::without_entry(pairs, key)) == crate::keymap::without_entry(
            pairs_view(pairs),
            key,
        ),
{
    crate::keymap::lemma_rank(pairs, key);
    let view = pairs_view(pairs);
    let r = crate::keymap::rank(pairs, key);
    assert forall|i: int| 0 <= i < r implies crate::keymap::key_less((#[trigger] view[i]).0, key) by {
        assert(crate::keymap::key_less(pairs[i].0, key));
    }
    crate::keymap::lemma_rank_is(view, key, r);
    assert(pairs_view(crate::keymap::without_entry(pairs, key)) =~= crate::keymap::without_entry(
        view,
        key,
    ));
}

/// The value under a key that is written as text.
pub open spec fn entry(pairs: Seq<(Seq<u8>, Benc)>, key: Seq<char>) -> Option<Benc> {
    lookup(pairs, encode_utf8(key))
}

/// The value under a key that is written as text.
pub fn entry_of<'a>(dict: &'a Dict, key: &str) -> (value: Option<&'a BencodedValue>)
    ensures
        match value {
            Some(value) => entry(dict_view(*dict), key@) == Some(value@),
            None => entry(dict_view(*dict), key@) is None,
        },
{
    proof {
        lemma_dict_view(*dict);
        lemma_pairs_view_rank(dict@, encode_utf8(key@));
    }
    dict.get(key.as_bytes())
}

/// What entries stand for.
pub open spec fn entry_views(entries: Seq<(&str, BencodedValue)>) -> Seq<(Seq<char>, Benc)> {
    Seq::new(entries.len(), |i: int| (entries[i].0@, entries[i].1@))
}

/// The dictionary of some entries, of which a later one replaces an earlier one with
/// the same key.
pub fn dict(entries: Vec<(&str, BencodedValue)>) -> (value: BencodedValue)
    ensures
        value@ == Benc::Dict(dict_of(entry_views(entries@))),
{
    let ghost all = entries@;
    let ghost views = entry_views(entries@);
    let mut rest = entries;
    let mut dict: Dict = KeyMap::new();
    proof {
        lemma_dict_view(dict);
        assert(dict_view(dict) =~= dict_of(views.take(0)));
    }
    let ghost mut n: int = 0;
    while rest.len() > 0
        invariant
            0 <= n <= all.len(),
            views == entry_views(all),
            rest@ == all.skip(n),
            dict_view(dict) == dict_of(views.take(n)),
        decreases rest.len(),
    {
        let (key, value) = rest.remove(0);
        proof {
            lemma_dict_view(dict);
            lemma_pairs_view_with_entry(dict@, encode_utf8(key@), value);
            assert(views[n] == (key@, value@));
            assert(views.take(n + 1).drop_last() =~= views.take(n));
            assert(all.skip(n).remove(0) =~= all.skip(n + 1));
            n = n + 1;
        }
        dict.insert(Bytes::from_text(key), value);
        proof {
            lemma_dict_view(dict);
        }
    }
    assert(views.take(n) =~= views);
    BencodedValue::Dict(dict)
}

/// A list of values.
pub fn list_value(values: Vec<BencodedValue>) -> (value: BencodedValue)
    ensures
        value@ == Benc::List(list_view(values@)),
{
    BencodedValue::List(values)
}

impl BencodedValue {
    /// Read one value off the front of `bytes`, leaving there what follows it.
    pub fn ingest(bytes: &mut &[u8]) -> (result: Result<Self, BitTorrentError>)
        ensures
            final(bytes)@ == ingested(old(bytes)@).1,
            match result {
                Ok(value) => ingested(old(bytes)@).0 == Ok::<Benc, Seq<char>>(value@),
                Err(error) => ingested(old(bytes)@).0 == Err::<Benc, Seq<char>>(error@),
            },
        decreases old(bytes)@.len(),
    {
        let data: &[u8] = *bytes;
        if data.len() == 0 {
            return Err(bterror("No data"));
        }
        let first: u8 = data[0];
        if first == 'i' as u8 {
            let rest = slice_subrange(data, 1, data.len());
            let end: usize = match position_of(rest, 'e' as u8) {
                Some(end) => end,
                None => return Err(bterror("Missing integer end token")),
            };
            *bytes = slice_subrange(rest, end + 1, rest.len());
            let text = match string_from_utf8(bytes_to_vec(slice_subrange(rest, 0, end))) {
                Ok(text) => text,
                Err(complaint) => return Err(BitTorrentError::new(complaint)),
            };
            match parse_i64(text.as_str()) {
                Ok(value) => Ok(BencodedValue::Int(value)),
                Err(complaint) => Err(BitTorrentError::new(complaint)),
            }
        } else if first == 'l' as u8 {
            let mut rest: &[u8] = slice_subrange(data, 1, data.len());
            let mut items: Vec<BencodedValue> = Vec::new();
            assert(list_view(items@) =~= Seq::<Benc>::empty());
            assert(rest@ =~= data@.skip(1));
            loop
                invariant
                    data@.len() > 0,
                    data@ == old(bytes)@,
                    data@[0] == 'l' as u8,
                    rest@.len() < data@.len(),
                    ingested_items(data@, data@.skip(1), seq![]) == ingested_items(
                        bytes@,
                        rest@,
                        list_view(items@),
                    ),
                decreases rest@.len(),
            {
                if rest.len() == 0 {
                    return Err(bterror("Missing list end token"));
                }
                if rest[0] == 'e' as u8 {
                    *bytes = slice_subrange(rest, 1, rest.len());
                    assert(bytes@ =~= rest@.skip(1));
                    return Ok(BencodedValue::List(items));
                }
                *bytes = rest;
                let value = match Self::ingest(bytes) {
                    Ok(value) => value,
                    Err(error) => return Err(error),
                };
                proof {
                    ingested_leaves_tail(rest@);
                    lemma_list_view_push(items@, value);
                }
                items.push(value);
                rest = *bytes;
            }
        } else if first == 'd' as u8 {
            let mut rest: &[u8] = slice_subrange(data, 1, data.len());
            let mut map: Dict = KeyMap::new();
            assert(pairs_view(map@) =~= Seq::<(Seq<u8>, Benc)>::empty());
            assert(rest@ =~= data@.skip(1));
            loop
                invariant
                    data@.len() > 0,
                    data@ == old(bytes)@,
                    data@[0] == 'd' as u8,
                    rest@.len() < data@.len(),
                    ingested_pairs(data@, data@.skip(1), seq![]) == ingested_pairs(
                        bytes@,
                        rest@,
                        pairs_view(map@),
                    ),
                decreases rest@.len(),
            {
                if rest.len() == 0 {
                    return Err(bterror("Missing dict end token"));
                }
                if rest[0] == 'e' as u8 {
                    *bytes = slice_subrange(rest, 1, rest.len());
                    assert(bytes@ =~= rest@.skip(1));
                    proof {
                        lemma_dict_view(map);
                    }
                    return Ok(BencodedValue::Dict(map));
                }
                *bytes = rest;
                let key = match Self::ingest(bytes) {
                    Ok(BencodedValue::Bytes(key)) => key,
                    Ok(_) => return Err(bterror("Invalid dict key")),
                    Err(error) => return Err(error),
                };
                proof {
                    ingested_leaves_tail(rest@);
                    ingested_leaves_tail(bytes@);
                }
                let value = match Self::ingest(bytes) {
                    Ok(value) => value,
                    Err(error) => return Err(error),
                };
                proof {
                    lemma_pairs_view_with_entry(map@, key@, value);
                }
                map.insert(key, value);
                rest = *bytes;
            }
        } else if first >= '0' as u8 && first <= '9' as u8 {
            let end: usize = match position_of(data, ':' as u8) {
                Some(end) => end,
                None => return Err(bterror("Missing string length end token")),
            };
            let text = match string_from_utf8(bytes_to_vec(slice_subrange(data, 0, end))) {
                Ok(text) => text,
                Err(complaint) => return Err(BitTorrentError::new(complaint)),
            };
            let length: usize = match parse_usize(text.as_str()) {
                Ok(length) => length,
                Err(complaint) => return Err(BitTorrentError::new(complaint)),
            };
            let start: usize = end + 1;
            if length <= data.len() - start {
                *bytes = slice_subrange(data, start + length, data.len());
                Ok(
                    BencodedValue::Bytes(
                        Bytes(bytes_to_vec(slice_subrange(data, start, start + length))),
                    ),
                )
            } else {
                Err(bterror("Insufficient characters remaining"))
            }
        } else {
            Err(bterror("Invalid bencoded value"))
        }
    }

    /// Write the value out.
    pub fn encode(self) -> (result: Result<Vec<u8>, BitTorrentError>)
        ensures
            result matches Ok(bytes) && bytes@ == encoded(self@),
    {
        let mut out: Vec<u8> = Vec::new();
        self.encode_into(&mut out);
        Ok(out)
    }

    fn encode_into(&self, out: &mut Vec<u8>)
        ensures
            final(out)@ == old(out)@ + encoded(self@),
        decreases self,
    {
        match self {
            BencodedValue::Bytes(bytes) => {
                out.extend_from_slice(bytes.0.as_slice());
            },
            BencodedValue::Int(value) => {
                out.push('i' as u8);
                out.extend_from_slice(decimal_string(*value).as_str().as_bytes());
                out.push('e' as u8);
                assert(out@ =~= old(out)@ + encoded(self@));
            },
            BencodedValue::List(list) => {
                out.push('l' as u8);
                let ghost start = out@;
                let mut i: usize = 0;
                assert(list_view(list@).skip(0) =~= list_view(list@));
                assert(start =~= start + Seq::<u8>::empty());
                while i < list.len()
                    invariant
                        self matches BencodedValue::List(l) && l == list,
                        0 <= i <= list.len(),
                        out@ + encoded_all(list_view(list@).skip(i as int)) == start + encoded_all(
                            list_view(list@),
                        ),
                    decreases list.len() - i,
                {
                    let ghost before = out@;
                    list[i].encode_into(out);
                    proof {
                        let left = list_view(list@).skip(i as int);
                        assert(left[0] == list@[i as int]@);
                        assert(left.drop_first() =~= list_view(list@).skip(i + 1));
                        assert(before + (encoded(left[0]) + encoded_all(left.drop_first())) =~= (
                        before + encoded(left[0])) + encoded_all(left.drop_first()));
                    }
                    i = i + 1;
                }
                assert(list_view(list@).skip(i as int) =~= Seq::<Benc>::empty());
                out.push('e' as u8);
                assert(out@ =~= old(out)@ + encoded(self@));
            },
            BencodedValue::Dict(dict) => {
                out.push('d' as u8);
                let ghost start = out@;
                let ghost pairs = dict_view(*dict);
                let mut i: usize = 0;
                assert(pairs.skip(0) =~= pairs);
                while i < dict.entries.len()
                    invariant
                        self matches BencodedValue::Dict(d) && d == dict,
                        pairs == dict_view(*dict),
                        pairs.len() == dict.entries@.len(),
                        0 <= i <= dict.entries.len(),
                        out@ + encoded_pairs(pairs.skip(i as int)) == start + encoded_pairs(pairs),
                    decreases dict.entries.len() - i,
                {
                    let ghost before = out@;
                    let entry = &dict.entries[i];
                    let ghost left = pairs.skip(i as int);
                    proof {
                        assert(left[0] == (entry.0@, entry.1@));
                        assert(left.drop_first() =~= pairs.skip(i + 1));
                    }
                    match &entry.1 {
                        BencodedValue::Null => {},
                        value => {
                            out.extend_from_slice(entry.0.0.as_slice());
                            value.encode_into(out);
                            assert(before + (left[0].0 + encoded(left[0].1) + encoded_pairs(
                                left.drop_first(),
                            )) =~= out@ + encoded_pairs(left.drop_first()));
                        },
                    }
                    i = i + 1;
                }
                assert(pairs.skip(i as int) =~= Seq::<(Seq<u8>, Benc)>::empty());
                out.push('e' as u8);
                assert(out@ =~= old(out)@ + encoded(self@));
            },
            BencodedValue::Null => {},
        }
    }

    pub fn as_bytes(&self) -> (result: Option<&Bytes>)
        ensures
            result == match self {
                BencodedValue::Bytes(bytes) => Some(bytes),
                _ => None,
            },
    {
        if let BencodedValue::Bytes(bytes) = self {
            Some(bytes)
        } else {
            None
        }
    }

    pub fn into_bytes(self) -> (result: Option<Bytes>)
        ensures
            result == match self {
                BencodedValue::Bytes(bytes) => Some(bytes),
                _ => None,
            },
    {
        if let BencodedValue::Bytes(bytes) = self {
            Some(bytes)
        } else {
            None
        }
    }

    pub fn as_int(&self) -> (result: Option<&Number>)
        ensures
            result == match self {
                BencodedValue::Int(value) => Some(value),
                _ => None,
            },
    {
        if let BencodedValue::Int(value) = self {
            Some(value)
        } else {
            None
        }
    }

    pub fn into_int(self) -> (result: Option<Number>)
        ensures
            result == match self {
                BencodedValue::Int(value) => Some(value),
                _ => None,
            },
    {
        if let BencodedValue::Int(value) = self {
            Some(value)
        } else {
            None
        }
    }

    pub fn as_list(&self) -> (result: Option<&Vec<BencodedValue>>)
        ensures
            result == match self {
                BencodedValue::List(list) => Some(list),
                _ => None,
            },
    {
        if let BencodedValue::List(list) = self {
            Some(list)
        } else {
            None
        }
    }

    pub fn into_list(self) -> (result: Option<Vec<BencodedValue>>)
        ensures
            result == match self {
                BencodedValue::List(list) => Some(list),
                _ => None,
            },
    {
        if let BencodedValue::List(list) = self {
            Some(list)
        } else {
            None
        }
    }

    pub fn as_dict(&self) -> (result: Option<&Dict>)
        ensures
            result == match self {
                BencodedValue::Dict(dict) => Some(dict),
                _ => None,
            },
    {
        if let BencodedValue::Dict(dict) = self {
            Some(dict)
        } else {
            None
        }
    }

    pub fn into_dict(self) -> (result: Option<Dict>)
        ensures
            result == match self {
                BencodedValue::Dict(dict) => Some(dict),
                _ => None,
            },
    {
        if let BencodedValue::Dict(dict) = self {
            Some(dict)
        } else {
            None
        }
    }

    /// The value as it is shown to a user.
    pub fn display(&self) -> (text: String)
        ensures
            text@ == displayed(self@),
    {
        let mut text = String::new();
        self.display_into(&mut text);
        text
    }

    fn display_into(&self, out: &mut String)
        ensures
            final(out)@ == old(out)@ + displayed(self@),
        decreases self,
    {
        match self {
            BencodedValue::Bytes(bytes) => {
                out.append("b\"");
                out.append(shown_text(bytes.0.as_slice()).as_str());
                out.append("\"");
                assert(out@ =~= old(out)@ + displayed(self@));
            },
            BencodedValue::Int(value) => {
                out.append(decimal_string(*value).as_str());
            },
            BencodedValue::List(list) => {
                if list.len() == 0 {
                    out.append("[]");
                } else {
                    out.append("[ ");
                    let ghost start = out@;
                    let ghost items = list_view(list@);
                    let mut i: usize = 0;
                    assert(start =~= start + displayed_items(items.take(0)));
                    while i < list.len()
                        invariant
                            self matches BencodedValue::List(l) && l == list,
                            items == list_view(list@),
                            0 <= i <= list.len(),
                            out@ == start + displayed_items(items.take(i as int)),
                        decreases list.len() - i,
                    {
                        let ghost before = items.take(i as int);
                        let ghost more = items.take(i + 1);
                        assert(more.drop_last() =~= before);
                        assert(more.last() == list@[i as int]@);
                        if i > 0 {
                            out.append(", ");
                        }
                        list[i].display_into(out);
                        assert(out@ =~= start + displayed_items(more));
                        i = i + 1;
                    }
                    assert(items.take(i as int) =~= items);
                    out.append(" ]");
                    assert(out@ =~= old(out)@ + displayed(self@));
                }
            },
            BencodedValue::Dict(dict) => {
                if dict.entries.len() == 0 {
                    out.append("{}");
                    assert(dict_view(*dict).len() == 0);
                } else {
                    out.append("{ ");
                    let ghost start = out@;
                    let ghost pairs = dict_view(*dict);
                    let mut i: usize = 0;
                    assert(start =~= start + displayed_pairs(pairs.take(0)));
                    while i < dict.entries.len()
                        invariant
                            self matches BencodedValue::Dict(d) && d == dict,
                            pairs == dict_view(*dict),
                            pairs.len() == dict.entries@.len(),
                            0 <= i <= dict.entries.len(),
                            out@ == start + displayed_pairs(pairs.take(i as int)),
                        decreases dict.entries.len() - i,
                    {
                        let entry = &dict.entries[i];
                        let ghost before = pairs.take(i as int);
                        let ghost more = pairs.take(i + 1);
                        assert(more.drop_last() =~= before);
                        assert(more.last() == (entry.0@, entry.1@));
                        if i > 0 {
                            out.append(", ");
                        }
                        out.append("b\"");
                        out.append(shown_text(entry.0.0.as_slice()).as_str());
                        out.append("\": ");
                        entry.1.display_into(out);
                        assert(displayed_pair(more.last()) == "b\""@ + shown(entry.0@) + "\": "@
                            + displayed(entry.1@));
                        assert(i == 0 ==> displayed_pairs(more) == displayed_pair(more.last()));
                        assert(out@ =~= start + displayed_pairs(more));
                        i = i + 1;
                    }
                    assert(pairs.take(i as int) =~= pairs);
                    out.append(" }");
                    assert(out@ =~= old(out)@ + displayed(self@));
                }
            },
            BencodedValue::Null => {
                out.append("null");
            },
        }
    }
}

impl Clone for BencodedValue {
    fn clone(&self) -> (copy: Self)
        ensures
            copy@ == self@,
        decreases self,
    {
        match self {
            BencodedValue::Bytes(bytes) => BencodedValue::Bytes(bytes.clone()),
            BencodedValue::Int(value) => BencodedValue::Int(*value),
            BencodedValue::List(list) => {
                let mut items: Vec<BencodedValue> = Vec::new();
                let mut i: usize = 0;
                while i < list.len()
                    invariant
                        self matches BencodedValue::List(l) && l == list,
                        0 <= i <= list.len(),
                        items@.len() == i,
                        forall|j: int| 0 <= j < i ==> (#[trigger] items@[j])@ == list@[j]@,
                    decreases list.len() - i,
                {
                    items.push(list[i].clone());
                    i = i + 1;
                }
                assert(list_view(items@) =~= list_view(list@));
                BencodedValue::List(items)
            },
            BencodedValue::Dict(dict) => {
                let mut entries: Vec<(Bytes, BencodedValue)> = Vec::new();
                let mut i: usize = 0;
                while i < dict.entries.len()
                    invariant
                        self matches BencodedValue::Dict(d) && d == dict,
                        0 <= i <= dict.entries.len(),
                        entries@.len() == i,
                        forall|j: int|
                            0 <= j < i ==> (#[trigger] entries@[j]).0@ == dict.entries@[j].0@
                                && entries@[j].1@ == dict.entries@[j].1@,
                    decreases dict.entries.len() - i,
                {
                    entries.push((dict.entries[i].0.clone(), dict.entries[i].1.clone()));
                    i = i + 1;
                }
                dict.check_ascending();
                proof {
                    dict.lemma_view();
                    let pairs = crate::keymap::pairs_of(entries@);
                    assert forall|a: int, b: int| 0 <= a < b < pairs.len() implies crate::keymap::key_less(
                        (#[trigger] pairs[a]).0,
                        (#[trigger] pairs[b]).0,
                    ) by {
                        assert(dict@[a].0 == pairs[a].0 && dict@[b].0 == pairs[b].0);
                    }
                }
                let copy = KeyMap::from_ascending(entries);
                proof {
                    lemma_dict_view(copy);
                    lemma_dict_view(*dict);
                    dict.lemma_view();
                    assert(pairs_view(copy@) =~= pairs_view(dict@));
                }
                BencodedValue::Dict(copy)
            },
            BencodedValue::Null => BencodedValue::Null,
        }
    }
}

/// A value written out. A byte string is written as its bytes alone; the entries of a
/// dictionary stand in ascending order of their keys, and those that are `Null` are
/// left out.
pub open spec fn encoded(value: Benc) -> Seq<u8>
    decreases value,
{
    match value {
        Benc::Bytes(bytes) => bytes,
        Benc::Int(value) => seq!['i' as u8] + encode_utf8(decimal(value)) + seq!['e' as u8],
        Benc::List(items) => seq!['l' as u8] + encoded_all(items) + seq!['e' as u8],
        Benc::Dict(pairs) => seq!['d' as u8] + encoded_pairs(pairs) + seq!['e' as u8],
        Benc::Null => seq![],
    }
}

/// Values written out one after the other.
pub open spec fn encoded_all(items: Seq<Benc>) -> Seq<u8>
    decreases items,
{
    if items.len() == 0 {
        seq![]
    } else {
        encoded(items[0]) + encoded_all(items.drop_first())
    }
}

/// Keys and values written out one after the other.
pub open spec fn encoded_pairs(pairs: Seq<(Seq<u8>, Benc)>) -> Seq<u8>
    decreases pairs,
{
    if pairs.len() == 0 {
        seq![]
    } else if pairs[0].1 is Null {
        encoded_pairs(pairs.drop_first())
    } else {
        pairs[0].0 + encoded(pairs[0].1) + encoded_pairs(pairs.drop_first())
    }
}

/// A value as it is shown to a user.
pub open spec fn displayed(value: Benc) -> Seq<char>
    decreases value,
{
    match value {
        Benc::Bytes(bytes) => "b\""@ + shown(bytes) + "\""@,
        Benc::Int(value) => decimal(value),
        Benc::List(items) => if items.len() == 0 {
            "[]"@
        } else {
            "[ "@ + displayed_items(items) + " ]"@
        },
        Benc::Dict(pairs) => if pairs.len() == 0 {
            "{}"@
        } else {
            "{ "@ + displayed_pairs(pairs) + " }"@
        },
        Benc::Null => "null"@,
    }
}

/// Values as they are shown, separated by commas.
pub open spec fn displayed_items(items: Seq<Benc>) -> Seq<char>
    decreases items,
{
    if items.len() == 0 {
        seq![]
    } else if items.len() == 1 {
        displayed(items[0])
    } else {
        displayed_items(items.drop_last()) + ", "@ + displayed(items.last())
    }
}

pub open spec fn displayed_pair(pair: (Seq<u8>, Benc)) -> Seq<char>
    decreases pair,
{
    "b\""@ + shown(pair.0) + "\": "@ + displayed(pair.1)
}

/// Keys and values as they are shown, separated by commas.
pub open spec fn displayed_pairs(pairs: Seq<(Seq<u8>, Benc)>) -> Seq<char>
    decreases pairs,
{
    if pairs.len() == 0 {
        seq![]
    } else if pairs.len() == 1 {
        displayed_pair(pairs[0])
    } else {
        displayed_pairs(pairs.drop_last()) + ", "@ + displayed_pair(pairs.last())
    }
}

} // verus!
