//! The values that bencoded data stands for when it is handed on as text: numbers,
//! strings, arrays and objects.

use vstd::prelude::*;
use vstd::utf8::encode_utf8;

use crate::keymap::{ascending, dict_of, lemma_appended, lookup, with_entry, KeyMap};

pub mod fields;

verus! {

/// A whole number.
#[derive(Debug, Clone, Copy)]
pub enum Number {
    PosInt(u64),
    NegInt(i64),
}

impl View for Number {
    type V = int;

    open spec fn view(&self) -> int {
        match self {
            Number::PosInt(n) => *n as int,
            Number::NegInt(n) => *n as int,
        }
    }
}

impl Number {
    pub fn from_i64(n: i64) -> (number: Self)
        ensures
            number@ == n,
    {
        if n >= 0 {
            Number::PosInt(n as u64)
        } else {
            Number::NegInt(n)
        }
    }

    pub fn from_u64(n: u64) -> (number: Self)
        ensures
            number@ == n,
    {
        Number::PosInt(n)
    }

    /// The number as a `u64`, if it is one.
    pub fn as_u64(&self) -> (n: Option<u64>)
        ensures
            match n {
                Some(n) => n == self@,
                None => !(0 <= self@ <= u64::MAX),
            },
    {
        match self {
            Number::PosInt(n) => Some(*n),
            Number::NegInt(n) => if *n >= 0 {
                Some(*n as u64)
            } else {
                None
            },
        }
    }
}

pub type Object = KeyMap<String, Value>;

/// A value.
#[derive(Debug)]
pub enum Value {
    Null,
    Bool(bool),
    Number(Number),
    Text(String),
    Array(Vec<Value>),
    Object(Object),
}

/// A value as a mathematical object: an object is its pairs in ascending order of
/// the bytes of their keys.
pub enum Json {
    Null,
    Bool(bool),
    Number(int),
    Text(Seq<char>),
    Array(Seq<Json>),
    Object(Seq<(Seq<u8>, Json)>),
}

impl View for Value {
    type V = Json;

    open spec fn view(&self) -> Json
        decreases self,
    {
        match self {
            Value::Null => Json::Null,
            Value::Bool(b) => Json::Bool(*b),
            Value::Number(n) => Json::Number(n@),
            Value::Text(text) => Json::Text(text@),
            Value::Array(list) => Json::Array(array_view(list@)),
            Value::Object(object) => Json::Object(object_view(*object)),
        }
    }
}

/// The values of an array.
pub open spec fn array_view(list: Seq<Value>) -> Seq<Json>
    decreases list,
{
    Seq::new(
        list.len(),
        |i: int|
            if 0 <= i < list.len() {
                list[i].view()
            } else {
                Json::Null
            },
    )
}

/// The pairs of an object.
pub closed spec fn object_view(object: Object) -> Seq<(Seq<u8>, Json)>
    decreases object,
{
    Seq::new(
        object.entries@.len(),
        |i: int|
            if 0 <= i < object.entries@.len() {
                (encode_utf8(object.entries@[i].0@), object.entries@[i].1.view())
            } else {
                (seq![], Json::Null)
            },
    )
}

/// Pairs with their values replaced by what they stand for.
pub open spec fn members_view(pairs: Seq<(Seq<u8>, Value)>) -> Seq<(Seq<u8>, Json)> {
    Seq::new(pairs.len(), |i: int| (pairs[i].0, pairs[i].1@))
}

/// An object's pairs are those of the map that holds it.
pub proof fn lemma_object_view(object: Object)
    ensures
        object_view(object) == members_view(object@),
{
    object.lemma_view();
    assert(object_view(object) =~= members_view(object@));
}

/// The pairs of an object, one by one.
pub(crate) proof fn lemma_object_entries(object: Object)
    ensures
        object_view(object).len() == object.entries@.len(),
        forall|i: int|
            0 <= i < object.entries@.len() ==> #[trigger] object_view(object)[i] == (
                encode_utf8(object.entries@[i].0@),
                object.entries@[i].1@,
            ),
{
}

/// Looking a key up, and putting a value under one, commute with taking the values for
/// what they stand for.
pub proof fn lemma_members_view(pairs: Seq<(Seq<u8>, Value)>, key: Seq<u8>, value: Value)
    ensures
        lookup(members_view(pairs), key) == match lookup(pairs, key) {
            Some(found) => Some(found@),
            None => None,
        },
        members_view(with_entry(pairs, key, value)) == with_entry(
            members_view(pairs),
            key,
            value@,
        ),
{
    crate::keymap::lemma_rank(pairs, key);
    let view = members_view(pairs);
    let r = crate::keymap::rank(pairs, key);
    assert forall|i: int| 0 <= i < r implies crate::keymap::key_less((#[trigger] view[i]).0, key) by {
        assert(crate::keymap::key_less(pairs[i].0, key));
    }
    crate::keymap::lemma_rank_is(view, key, r);
    assert(members_view(with_entry(pairs, key, value)) =~= with_entry(view, key, value@));
}

/// The value of the member that a text names.
pub open spec fn member(pairs: Seq<(Seq<u8>, Json)>, key: Seq<char>) -> Option<Json> {
    lookup(pairs, encode_utf8(key))
}

/// The value of the member that a text names.
pub fn member_of<'a>(object: &'a Object, key: &str) -> (value: Option<&'a Value>)
    ensures
        match value {
            Some(value) => member(object_view(*object), key@) == Some(value@),
            None => member(object_view(*object), key@) is None,
        },
{
    proof {
        lemma_object_view(*object);
        lemma_members_view(object@, encode_utf8(key@), Value::Null);
    }
    object.get(key.as_bytes())
}

/// Give an object a member, in place of any with the same name.
pub fn set_member(object: &mut Object, key: String, value: Value)
    ensures
        object_view(*final(object)) == with_entry(
            object_view(*old(object)),
            encode_utf8(key@),
            value@,
        ),
{
    proof {
        lemma_object_view(*object);
        lemma_members_view(object@, encode_utf8(key@), value);
    }
    object.insert(key, value);
    proof {
        lemma_object_view(*object);
    }
}

/// What members stand for.
pub open spec fn member_views(members: Seq<(&str, Value)>) -> Seq<(Seq<char>, Json)> {
    Seq::new(members.len(), |i: int| (members[i].0@, members[i].1@))
}

/// The object of some members, of which a later one replaces an earlier one with the
/// same name.
pub fn object(members: Vec<(&str, Value)>) -> (value: Value)
    ensures
        value@ == Json::Object(dict_of(member_views(members@))),
{
    let ghost all = members@;
    let ghost views = member_views(members@);
    let mut rest = members;
    let mut object: Object = KeyMap::new();
    proof {
        lemma_object_view(object);
        assert(object_view(object) =~= dict_of(views.take(0)));
    }
    let ghost mut n: int = 0;
    while rest.len() > 0
        invariant
            0 <= n <= all.len(),
            views == member_views(all),
            rest@ == all.skip(n),
            object_view(object) == dict_of(views.take(n)),
        decreases rest.len(),
    {
        let (key, value) = rest.remove(0);
        proof {
            assert(views[n] == (key@, value@));
            assert(views.take(n + 1).drop_last() =~= views.take(n));
            assert(all.skip(n).remove(0) =~= all.skip(n + 1));
            n = n + 1;
        }
        set_member(&mut object, key.to_string(), value);
    }
    assert(views.take(n) =~= views);
    Value::Object(object)
}

/// A copy of an object, as a value.
pub fn copy_of_object(object: &Object) -> (value: Value)
    ensures
        value@ == Json::Object(object_view(*object)),
    decreases object,
{
    let mut copy: Object = KeyMap::new();
    let ghost pairs = object_view(*object);
    let mut i: usize = 0;
    object.check_ascending();
    proof {
        lemma_object_view(*object);
        lemma_object_view(copy);
        assert(object_view(copy) =~= pairs.take(0));
        assert(ascending(pairs));
    }
    while i < object.entries.len()
        invariant
            pairs == object_view(*object),
            ascending(pairs),
            0 <= i <= object.entries.len(),
            object_view(copy) == pairs.take(i as int),
        decreases object.entries.len() - i,
    {
        proof {
            lemma_object_entries(*object);
            lemma_appended(pairs, i as int);
        }
        let entry = &object.entries[i];
        set_member(&mut copy, entry.0.clone(), entry.1.clone());
        i = i + 1;
    }
    proof {
        lemma_object_entries(*object);
        assert(pairs.take(i as int) =~= pairs);
    }
    Value::Object(copy)
}

impl Clone for Value {
    fn clone(&self) -> (copy: Self)
        ensures
            copy@ == self@,
        decreases self,
    {
        match self {
            Value::Null => Value::Null,
            Value::Bool(b) => Value::Bool(*b),
            Value::Number(n) => Value::Number(*n),
            Value::Text(text) => Value::Text(text.clone()),
            Value::Array(list) => {
                let mut copy: Vec<Value> = Vec::new();
                let mut i: usize = 0;
                while i < list.len()
                    invariant
                        self matches Value::Array(l) && l == list,
                        0 <= i <= list.len(),
                        copy@.len() == i,
                        forall|j: int| 0 <= j < i ==> (#[trigger] copy@[j])@ == list@[j]@,
                    decreases list.len() - i,
                {
                    copy.push(list[i].clone());
                    i = i + 1;
                }
                assert(array_view(copy@) =~= array_view(list@));
                Value::Array(copy)
            },
            Value::Object(object) => copy_of_object(object),
        }
    }
}

} // verus!
