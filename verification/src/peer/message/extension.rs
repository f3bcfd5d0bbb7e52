//! Messages of the extension protocol.

use vstd::prelude::*;
use vstd::slice::slice_subrange;

use crate::bencode::encode::{bencode_value, bencoded, joined, written};
use crate::decode::{consumed, Decoder};
use crate::error::{bterror, bterror_with, outcome, BitTorrentError};
use crate::json::fields::{
    any_number_complaint, earlier, field_view, item, item_complaint, length_error, missing_error,
    missing_field, number_complaint, number_field, object_complaint, object_in, read_any_number,
    read_item, read_number, read_some_number, read_some_object, read_some_text, some_number,
    text_complaint, text_in, type_error, wrong_length, wrong_type,
};
use crate::json::{
    array_view, copy_of_object, member, member_of, member_views, object, object_view, Json, Number,
    Object, Value,
};
use crate::keymap::dict_of;
use crate::text::{decimal_nat, decimal_string_u64, same_text, some_text};

verus! {

#[derive(Debug)]
pub enum ExtensionMessage {
    Handshake(ExtensionHandshake),
    Metadata(ExtensionMetadata, Option<Vec<u8>>),
}

#[derive(Debug)]
pub struct ExtensionHandshake {
    /// `m`: the extensions that are supported, with their codes.
    pub messages: Option<Object>,
    /// `p`
    pub port: Option<u16>,
    /// `v`
    pub version: Option<String>,
    pub yourip: Option<String>,
    pub ipv6: Option<String>,
    pub ipv4: Option<String>,
    pub reqq: Option<Number>,
    pub metadata_size: Option<Number>,
}

#[derive(Debug, Clone, Copy)]
pub struct ExtensionMetadata {
    pub msg_type: usize,
    pub piece: usize,
    pub total_size: Option<usize>,
}

/// What an `ExtensionMessage` says.
pub enum ExtensionView {
    Handshake(ExtensionHandshakeView),
    Metadata(ExtensionMetadata, Option<Seq<u8>>),
}

/// What an `ExtensionHandshake` says.
pub struct ExtensionHandshakeView {
    pub messages: Option<Seq<(Seq<u8>, Json)>>,
    pub port: Option<int>,
    pub version: Option<Seq<char>>,
    pub yourip: Option<Seq<char>>,
    pub ipv6: Option<Seq<char>>,
    pub ipv4: Option<Seq<char>>,
    pub reqq: Option<int>,
    pub metadata_size: Option<int>,
}

impl View for ExtensionMetadata {
    type V = ExtensionMetadata;

    open spec fn view(&self) -> ExtensionMetadata {
        *self
    }
}

impl View for ExtensionHandshake {
    type V = ExtensionHandshakeView;

    open spec fn view(&self) -> ExtensionHandshakeView {
        ExtensionHandshakeView {
            messages: match self.messages {
                Some(object) => Some(object_view(object)),
                None => None,
            },
            port: match self.port {
                Some(port) => Some(port as int),
                None => None,
            },
            version: some_text(self.version),
            yourip: some_text(self.yourip),
            ipv6: some_text(self.ipv6),
            ipv4: some_text(self.ipv4),
            reqq: match self.reqq {
                Some(n) => Some(n@),
                None => None,
            },
            metadata_size: match self.metadata_size {
                Some(n) => Some(n@),
                None => None,
            },
        }
    }
}

impl View for ExtensionMessage {
    type V = ExtensionView;

    open spec fn view(&self) -> ExtensionView {
        match self {
            ExtensionMessage::Handshake(handshake) => ExtensionView::Handshake(handshake@),
            ExtensionMessage::Metadata(metadata, data) => ExtensionView::Metadata(
                *metadata,
                match data {
                    Some(data) => Some(data@),
                    None => None,
                },
            ),
        }
    }
}

impl Default for ExtensionHandshake {
    /// A handshake that says nothing.
    fn default() -> (handshake: Self)
        ensures
            handshake@ == (ExtensionHandshakeView {
                messages: None,
                port: None,
                version: None,
                yourip: None,
                ipv6: None,
                ipv4: None,
                reqq: None,
                metadata_size: None,
            }),
    {
        ExtensionHandshake {
            messages: None,
            port: None,
            version: None,
            yourip: None,
            ipv6: None,
            ipv4: None,
            reqq: None,
            metadata_size: None,
        }
    }
}

/// The name of an extension message.
pub open spec fn extension_name(message: ExtensionView) -> Seq<char> {
    match message {
        ExtensionView::Handshake(_) => "handshake"@,
        ExtensionView::Metadata(_, _) => "ut_metadata"@,
    }
}

impl ExtensionMessage {
    pub fn name(&self) -> (name: &str)
        ensures
            name@ == extension_name(self@),
    {
        match self {
            ExtensionMessage::Handshake(_) => "handshake",
            ExtensionMessage::Metadata(_, _) => "ut_metadata",
        }
    }
}

pub open spec fn text_json(text: Option<Seq<char>>) -> Json {
    match text {
        Some(text) => Json::Text(text),
        None => Json::Null,
    }
}

pub open spec fn number_json(n: Option<int>) -> Json {
    match n {
        Some(n) => Json::Number(n),
        None => Json::Null,
    }
}

pub open spec fn object_json(pairs: Option<Seq<(Seq<u8>, Json)>>) -> Json {
    match pairs {
        Some(pairs) => Json::Object(pairs),
        None => Json::Null,
    }
}

/// The members of the object that stands for a handshake.
pub open spec fn handshake_members(handshake: ExtensionHandshakeView) -> Seq<(Seq<char>, Json)> {
    seq![
        ("m"@, object_json(handshake.messages)),
        ("p"@, number_json(handshake.port)),
        ("v"@, text_json(handshake.version)),
        ("yourip"@, text_json(handshake.yourip)),
        ("ipv6"@, text_json(handshake.ipv6)),
        ("ipv4"@, text_json(handshake.ipv4)),
        ("reqq"@, number_json(handshake.reqq)),
        ("metadata_size"@, number_json(handshake.metadata_size)),
    ]
}

/// The members of the object that stands for a metadata message.
pub open spec fn metadata_members(metadata: ExtensionMetadata) -> Seq<(Seq<char>, Json)> {
    seq![
        ("msg_type"@, Json::Number(metadata.msg_type as int)),
        ("piece"@, Json::Number(metadata.piece as int)),
        (
            "total_size"@,
            match metadata.total_size {
                Some(size) => Json::Number(size as int),
                None => Json::Null,
            },
        ),
    ]
}

/// The handshake that a value stands for: an object with a member for each field that
/// is there, or an array of all fields.
pub open spec fn handshake_of(value: Json) -> Result<ExtensionHandshakeView, Seq<char>> {
    match value {
        Json::Object(pairs) => match earlier(
            text_complaint(member(pairs, "ipv4"@)),
            earlier(
                text_complaint(member(pairs, "ipv6"@)),
                earlier(
                    object_complaint(member(pairs, "m"@)),
                    earlier(
                        any_number_complaint(member(pairs, "metadata_size"@)),
                        earlier(
                            number_complaint(member(pairs, "p"@), u16::MAX as int, "u16"@),
                            earlier(
                                any_number_complaint(member(pairs, "reqq"@)),
                                earlier(
                                    text_complaint(member(pairs, "v"@)),
                                    text_complaint(member(pairs, "yourip"@)),
                                ),
                            ),
                        ),
                    ),
                ),
            ),
        ) {
            Some(complaint) => Err(complaint),
            None => Ok(
                ExtensionHandshakeView {
                    messages: object_in(member(pairs, "m"@)),
                    port: some_number(member(pairs, "p"@)),
                    version: text_in(member(pairs, "v"@)),
                    yourip: text_in(member(pairs, "yourip"@)),
                    ipv6: text_in(member(pairs, "ipv6"@)),
                    ipv4: text_in(member(pairs, "ipv4"@)),
                    reqq: some_number(member(pairs, "reqq"@)),
                    metadata_size: some_number(member(pairs, "metadata_size"@)),
                },
            ),
        },
        Json::Array(items) => {
            let all = "struct ExtensionHandshake with 8 elements"@;
            match earlier(
                earlier(item_complaint(items, 0, all), object_complaint(item(items, 0))),
                earlier(
                    earlier(
                        item_complaint(items, 1, all),
                        number_complaint(item(items, 1), u16::MAX as int, "u16"@),
                    ),
                    earlier(
                        earlier(item_complaint(items, 2, all), text_complaint(item(items, 2))),
                        earlier(
                            earlier(item_complaint(items, 3, all), text_complaint(item(items, 3))),
                            earlier(
                                earlier(
                                    item_complaint(items, 4, all),
                                    text_complaint(item(items, 4)),
                                ),
                                earlier(
                                    earlier(
                                        item_complaint(items, 5, all),
                                        text_complaint(item(items, 5)),
                                    ),
                                    earlier(
                                        earlier(
                                            item_complaint(items, 6, all),
                                            any_number_complaint(item(items, 6)),
                                        ),
                                        earlier(
                                            earlier(
                                                item_complaint(items, 7, all),
                                                any_number_complaint(item(items, 7)),
                                            ),
                                            if items.len() > 8 {
                                                Some(
                                                    wrong_length(
                                                        items.len(),
                                                        "fewer elements in array"@,
                                                    ),
                                                )
                                            } else {
                                                None
                                            },
                                        ),
                                    ),
                                ),
                            ),
                        ),
                    ),
                ),
            ) {
                Some(complaint) => Err(complaint),
                None => Ok(
                    ExtensionHandshakeView {
                        messages: object_in(item(items, 0)),
                        port: some_number(item(items, 1)),
                        version: text_in(item(items, 2)),
                        yourip: text_in(item(items, 3)),
                        ipv6: text_in(item(items, 4)),
                        ipv4: text_in(item(items, 5)),
                        reqq: some_number(item(items, 6)),
                        metadata_size: some_number(item(items, 7)),
                    },
                ),
            }
        },
        _ => Err(wrong_type(value, "struct ExtensionHandshake"@)),
    }
}

/// The complaint about a member that should hold a `usize`, if it is there.
pub open spec fn usize_complaint(field: Option<Json>) -> Option<Seq<char>> {
    match field {
        None => None,
        Some(value) => match number_field(value, usize::MAX as int, "usize"@) {
            Ok(_) => None,
            Err(complaint) => Some(complaint),
        },
    }
}

/// The complaint about a member that has to be there.
pub open spec fn missing_complaint(field: Option<Json>, name: Seq<char>) -> Option<Seq<char>> {
    match field {
        None => Some(missing_field(name)),
        Some(_) => None,
    }
}

/// What a metadata message says, given its fields.
pub open spec fn metadata_from(
    msg_type: Option<Json>,
    piece: Option<Json>,
    total_size: Option<Json>,
) -> ExtensionMetadata {
    ExtensionMetadata {
        msg_type: some_number(msg_type)->0 as usize,
        piece: some_number(piece)->0 as usize,
        total_size: match some_number(total_size) {
            Some(n) => Some(n as usize),
            None => None,
        },
    }
}

/// The metadata message that a value stands for: an object with its fields, or an
/// array of all of them.
pub open spec fn metadata_of(value: Json) -> Result<ExtensionMetadata, Seq<char>> {
    match value {
        Json::Object(pairs) => {
            let msg_type = member(pairs, "msg_type"@);
            let piece = member(pairs, "piece"@);
            let total_size = member(pairs, "total_size"@);
            match earlier(
                usize_complaint(msg_type),
                earlier(
                    usize_complaint(piece),
                    earlier(
                        number_complaint(total_size, usize::MAX as int, "usize"@),
                        earlier(
                            missing_complaint(msg_type, "msg_type"@),
                            missing_complaint(piece, "piece"@),
                        ),
                    ),
                ),
            ) {
                Some(complaint) => Err(complaint),
                None => Ok(metadata_from(msg_type, piece, total_size)),
            }
        },
        Json::Array(items) => {
            let all = "struct ExtensionMetadata with 3 elements"@;
            match earlier(
                earlier(item_complaint(items, 0, all), usize_complaint(item(items, 0))),
                earlier(
                    earlier(item_complaint(items, 1, all), usize_complaint(item(items, 1))),
                    earlier(
                        earlier(
                            item_complaint(items, 2, all),
                            number_complaint(item(items, 2), usize::MAX as int, "usize"@),
                        ),
                        if items.len() > 3 {
                            Some(wrong_length(items.len(), "fewer elements in array"@))
                        } else {
                            None
                        },
                    ),
                ),
            ) {
                Some(complaint) => Err(complaint),
                None => Ok(metadata_from(item(items, 0), item(items, 1), item(items, 2))),
            }
        },
        _ => Err(wrong_type(value, "struct ExtensionMetadata"@)),
    }
}

fn text_value(text: &Option<String>) -> (value: Value)
    ensures
        value@ == text_json(some_text(*text)),
{
    match text {
        Some(text) => Value::Text(text.clone()),
        None => Value::Null,
    }
}

impl ExtensionHandshake {
    /// The value that stands for a handshake.
    pub fn to_value(&self) -> (value: Value)
        ensures
            value@ == Json::Object(dict_of(handshake_members(self@))),
    {
        let messages = match &self.messages {
            Some(object) => copy_of_object(object),
            None => Value::Null,
        };
        let port = match self.port {
            Some(port) => Value::Number(Number::from_u64(port as u64)),
            None => Value::Null,
        };
        let reqq = match self.reqq {
            Some(n) => Value::Number(n),
            None => Value::Null,
        };
        let metadata_size = match self.metadata_size {
            Some(n) => Value::Number(n),
            None => Value::Null,
        };
        let members = vec![
            ("m", messages),
            ("p", port),
            ("v", text_value(&self.version)),
            ("yourip", text_value(&self.yourip)),
            ("ipv6", text_value(&self.ipv6)),
            ("ipv4", text_value(&self.ipv4)),
            ("reqq", reqq),
            ("metadata_size", metadata_size),
        ];
        assert(member_views(members@) =~= handshake_members(self@));
        object(members)
    }

    /// The handshake that a value stands for.
    pub fn from_value(value: &Value) -> (result: Result<Self, BitTorrentError>)
        ensures
            outcome(result) == handshake_of(value@),
    {
        match value {
            Value::Object(object) => {
                let ipv4 = match read_some_text(member_of(object, "ipv4")) {
                    Ok(field) => field,
                    Err(error) => return Err(error),
                };
                let ipv6 = match read_some_text(member_of(object, "ipv6")) {
                    Ok(field) => field,
                    Err(error) => return Err(error),
                };
                let messages = match read_some_object(member_of(object, "m")) {
                    Ok(field) => field,
                    Err(error) => return Err(error),
                };
                let metadata_size = match read_any_number(member_of(object, "metadata_size")) {
                    Ok(field) => field,
                    Err(error) => return Err(error),
                };
                let port = match read_port(member_of(object, "p")) {
                    Ok(field) => field,
                    Err(error) => return Err(error),
                };
                let reqq = match read_any_number(member_of(object, "reqq")) {
                    Ok(field) => field,
                    Err(error) => return Err(error),
                };
                let version = match read_some_text(member_of(object, "v")) {
                    Ok(field) => field,
                    Err(error) => return Err(error),
                };
                let yourip = match read_some_text(member_of(object, "yourip")) {
                    Ok(field) => field,
                    Err(error) => return Err(error),
                };
                Ok(
                    ExtensionHandshake {
                        messages,
                        port,
                        version,
                        yourip,
                        ipv6,
                        ipv4,
                        reqq,
                        metadata_size,
                    },
                )
            },
            Value::Array(list) => Self::from_list(list),
            _ => Err(type_error(value, "struct ExtensionHandshake")),
        }
    }

    /// The handshake that an array stands for.
    fn from_list(list: &Vec<Value>) -> (result: Result<Self, BitTorrentError>)
        ensures
            outcome(result) == handshake_of(Json::Array(array_view(list@))),
    {
        let all = "struct ExtensionHandshake with 8 elements";
        let messages = match read_item(list, 0, all) {
            Ok(field) => match read_some_object(field) {
                Ok(field) => field,
                Err(error) => return Err(error),
            },
            Err(error) => return Err(error),
        };
        let port = match read_item(list, 1, all) {
            Ok(field) => match read_port(field) {
                Ok(field) => field,
                Err(error) => return Err(error),
            },
            Err(error) => return Err(error),
        };
        let version = match read_item(list, 2, all) {
            Ok(field) => match read_some_text(field) {
                Ok(field) => field,
                Err(error) => return Err(error),
            },
            Err(error) => return Err(error),
        };
        let yourip = match read_item(list, 3, all) {
            Ok(field) => match read_some_text(field) {
                Ok(field) => field,
                Err(error) => return Err(error),
            },
            Err(error) => return Err(error),
        };
        let ipv6 = match read_item(list, 4, all) {
            Ok(field) => match read_some_text(field) {
                Ok(field) => field,
                Err(error) => return Err(error),
            },
            Err(error) => return Err(error),
        };
        let ipv4 = match read_item(list, 5, all) {
            Ok(field) => match read_some_text(field) {
                Ok(field) => field,
                Err(error) => return Err(error),
            },
            Err(error) => return Err(error),
        };
        let reqq = match read_item(list, 6, all) {
            Ok(field) => match read_any_number(field) {
                Ok(field) => field,
                Err(error) => return Err(error),
            },
            Err(error) => return Err(error),
        };
        let metadata_size = match read_item(list, 7, all) {
            Ok(field) => match read_any_number(field) {
                Ok(field) => field,
                Err(error) => return Err(error),
            },
            Err(error) => return Err(error),
        };
        if list.len() > 8 {
            return Err(length_error(list.len(), "fewer elements in array"));
        }
        Ok(
            ExtensionHandshake {
                messages,
                port,
                version,
                yourip,
                ipv6,
                ipv4,
                reqq,
                metadata_size,
            },
        )
    }
}

fn read_port(field: Option<&Value>) -> (result: Result<Option<u16>, BitTorrentError>)
    ensures
        match result {
            Ok(n) => {
                &&& number_complaint(field_view(field), u16::MAX as int, "u16"@) is None
                &&& match n {
                    Some(n) => some_number(field_view(field)) == Some(n as int),
                    None => some_number(field_view(field)) is None,
                }
            },
            Err(error) => number_complaint(field_view(field), u16::MAX as int, "u16"@) == Some(
                error@,
            ),
        },
{
    match read_some_number(field, 65535, "u16") {
        Ok(Some(n)) => Ok(Some(n as u16)),
        Ok(None) => Ok(None),
        Err(error) => Err(error),
    }
}

/// A number of the range of `usize`, or nothing if the field is not there.
fn read_usize(field: Option<&Value>) -> (result: Result<Option<usize>, BitTorrentError>)
    ensures
        match result {
            Ok(n) => {
                &&& usize_complaint(field_view(field)) is None
                &&& match n {
                    Some(n) => some_number(field_view(field)) == Some(n as int),
                    None => field is None,
                }
            },
            Err(error) => usize_complaint(field_view(field)) == Some(error@),
        },
{
    match field {
        Some(value) => match read_number(value, usize::MAX as u64, "usize") {
            Ok(n) => Ok(Some(n as usize)),
            Err(error) => Err(error),
        },
        None => Ok(None),
    }
}

fn read_some_usize(field: Option<&Value>) -> (result: Result<Option<usize>, BitTorrentError>)
    ensures
        match result {
            Ok(n) => {
                &&& number_complaint(field_view(field), usize::MAX as int, "usize"@) is None
                &&& match n {
                    Some(n) => some_number(field_view(field)) == Some(n as int),
                    None => some_number(field_view(field)) is None,
                }
            },
            Err(error) => number_complaint(field_view(field), usize::MAX as int, "usize"@) == Some(
                error@,
            ),
        },
{
    match read_some_number(field, usize::MAX as u64, "usize") {
        Ok(Some(n)) => Ok(Some(n as usize)),
        Ok(None) => Ok(None),
        Err(error) => Err(error),
    }
}

impl ExtensionMetadata {
    /// The value that stands for a metadata message.
    pub fn to_value(&self) -> (value: Value)
        ensures
            value@ == Json::Object(dict_of(metadata_members(*self))),
    {
        let total_size = match self.total_size {
            Some(size) => Value::Number(Number::from_u64(size as u64)),
            None => Value::Null,
        };
        let members = vec![
            ("msg_type", Value::Number(Number::from_u64(self.msg_type as u64))),
            ("piece", Value::Number(Number::from_u64(self.piece as u64))),
            ("total_size", total_size),
        ];
        assert(member_views(members@) =~= metadata_members(*self));
        object(members)
    }

    /// The metadata message that a value stands for.
    pub fn from_value(value: &Value) -> (result: Result<Self, BitTorrentError>)
        ensures
            outcome(result) == metadata_of(value@),
    {
        match value {
            Value::Object(object) => {
                let msg_type = match read_usize(member_of(object, "msg_type")) {
                    Ok(field) => field,
                    Err(error) => return Err(error),
                };
                let piece = match read_usize(member_of(object, "piece")) {
                    Ok(field) => field,
                    Err(error) => return Err(error),
                };
                let total_size = match read_some_usize(member_of(object, "total_size")) {
                    Ok(field) => field,
                    Err(error) => return Err(error),
                };
                match (msg_type, piece) {
                    (Some(msg_type), Some(piece)) => Ok(
                        ExtensionMetadata { msg_type, piece, total_size },
                    ),
                    (None, _) => Err(missing_error("msg_type")),
                    (_, None) => Err(missing_error("piece")),
                }
            },
            Value::Array(list) => {
                let all = "struct ExtensionMetadata with 3 elements";
                let msg_type = match read_item(list, 0, all) {
                    Ok(field) => match read_usize(field) {
                        Ok(field) => field,
                        Err(error) => return Err(error),
                    },
                    Err(error) => return Err(error),
                };
                let piece = match read_item(list, 1, all) {
                    Ok(field) => match read_usize(field) {
                        Ok(field) => field,
                        Err(error) => return Err(error),
                    },
                    Err(error) => return Err(error),
                };
                let total_size = match read_item(list, 2, all) {
                    Ok(field) => match read_some_usize(field) {
                        Ok(field) => field,
                        Err(error) => return Err(error),
                    },
                    Err(error) => return Err(error),
                };
                if list.len() > 3 {
                    return Err(length_error(list.len(), "fewer elements in array"));
                }
                match (msg_type, piece) {
                    (Some(msg_type), Some(piece)) => Ok(
                        ExtensionMetadata { msg_type, piece, total_size },
                    ),
                    _ => Err(length_error(list.len(), all)),
                }
            },
            _ => Err(type_error(value, "struct ExtensionMetadata")),
        }
    }
}

/// Names of extensions with their codes.
pub open spec fn name_codes(map: Seq<(String, u8)>) -> Seq<(Seq<char>, u8)> {
    map.map_values(|pair: (String, u8)| (pair.0@, pair.1))
}

/// The first code of a name.
pub open spec fn code_of(names: Seq<(Seq<char>, u8)>, name: Seq<char>) -> Option<u8>
    decreases names.len(),
{
    if names.len() == 0 {
        None
    } else if names[0].0 == name {
        Some(names[0].1)
    } else {
        code_of(names.drop_first(), name)
    }
}

/// The first name of a code.
pub open spec fn name_of(names: Seq<(Seq<char>, u8)>, code: u8) -> Option<Seq<char>>
    decreases names.len(),
{
    if names.len() == 0 {
        None
    } else if names[0].1 == code {
        Some(names[0].0)
    } else {
        name_of(names.drop_first(), code)
    }
}

/// The value that stands for an extension message.
pub open spec fn extension_json(message: ExtensionView) -> Json {
    match message {
        ExtensionView::Handshake(handshake) => Json::Object(dict_of(handshake_members(handshake))),
        ExtensionView::Metadata(metadata, _) => Json::Object(dict_of(metadata_members(metadata))),
    }
}

/// What follows the value that stands for an extension message.
pub open spec fn extension_data(message: ExtensionView) -> Seq<u8> {
    match message {
        ExtensionView::Metadata(_, Some(data)) => data,
        _ => seq![],
    }
}

/// An extension message in bytes.
pub open spec fn extension_bytes(
    names: Seq<(Seq<char>, u8)>,
    message: ExtensionView,
) -> Result<Seq<u8>, Seq<char>> {
    match code_of(names, extension_name(message)) {
        None => Err("Extension '"@ + extension_name(message) + "' is unsupported by peer"@),
        Some(code) => joined(
            joined(written(seq![code]), bencoded(extension_json(message))),
            written(extension_data(message)),
        ),
    }
}

/// The extension message that bytes hold.
pub open spec fn extension_of(names: Seq<(Seq<char>, u8)>, bytes: Seq<u8>) -> Result<
    ExtensionView,
    Seq<char>,
> {
    if bytes.len() == 0 {
        Err("Insufficient bytes"@)
    } else {
        match name_of(names, bytes[0]) {
            None => Err("Unrecognized extension code: "@ + decimal_nat(bytes[0] as nat)),
            Some(name) => {
                let (value, left) = consumed(bytes.skip(1));
                if name == "handshake"@ {
                    match value {
                        Err(complaint) => Err(complaint),
                        Ok(value) => match handshake_of(value) {
                            Err(complaint) => Err(complaint),
                            Ok(handshake) => Ok(ExtensionView::Handshake(handshake)),
                        },
                    }
                } else if name == "ut_metadata"@ {
                    match value {
                        Err(complaint) => Err(complaint),
                        Ok(value) => match metadata_of(value) {
                            Err(complaint) => Err(complaint),
                            Ok(metadata) => Ok(
                                ExtensionView::Metadata(
                                    metadata,
                                    if left.len() > 0 {
                                        Some(left)
                                    } else {
                                        None
                                    },
                                ),
                            ),
                        },
                    }
                } else {
                    Err("Unrecognized extension name: "@ + name)
                }
            },
        }
    }
}

/// Writes and reads extension messages by the codes of their names.
#[derive(Debug)]
pub struct ExtensionMessageCodec {
    extension_name_map: Vec<(String, u8)>,
}

impl View for ExtensionMessageCodec {
    type V = Seq<(Seq<char>, u8)>;

    closed spec fn view(&self) -> Seq<(Seq<char>, u8)> {
        name_codes(self.extension_name_map@)
    }
}

impl Clone for ExtensionMessageCodec {
    fn clone(&self) -> (copy: Self)
        ensures
            copy@ == self@,
    {
        let mut map: Vec<(String, u8)> = Vec::new();
        let mut i: usize = 0;
        while i < self.extension_name_map.len()
            invariant
                0 <= i <= self.extension_name_map.len(),
                map@.len() == i,
                forall|j: int|
                    0 <= j < i ==> (#[trigger] map@[j]).0@ == self.extension_name_map@[j].0@
                        && map@[j].1 == self.extension_name_map@[j].1,
            decreases self.extension_name_map.len() - i,
        {
            let pair = &self.extension_name_map[i];
            map.push((pair.0.clone(), pair.1));
            i = i + 1;
        }
        assert(name_codes(map@) =~= name_codes(self.extension_name_map@));
        ExtensionMessageCodec { extension_name_map: map }
    }
}

impl Default for ExtensionMessageCodec {
    /// A codec that knows the handshake only.
    fn default() -> (codec: Self)
        ensures
            codec@ == seq![("handshake"@, 0u8)],
    {
        let codec = Self::new(Vec::new());
        assert(codec@ =~= seq![("handshake"@, 0u8)]);
        codec
    }
}

impl ExtensionMessageCodec {
    /// A codec for extensions with their codes, besides the handshake, whose code is
    /// zero.
    pub fn new(map: Vec<(String, u8)>) -> (codec: Self)
        ensures
            codec@ == seq![("handshake"@, 0u8)] + name_codes(map@),
    {
        let mut all: Vec<(String, u8)> = Vec::new();
        all.push(("handshake".to_string(), 0));
        let mut rest = map;
        all.append(&mut rest);
        assert(name_codes(all@) =~= seq![("handshake"@, 0u8)] + name_codes(map@));
        ExtensionMessageCodec { extension_name_map: all }
    }

    fn find_code(&self, name: &str) -> (code: Option<u8>)
        ensures
            code == code_of(self@, name@),
    {
        let mut i: usize = 0;
        assert(self@.skip(0) =~= self@);
        while i < self.extension_name_map.len()
            invariant
                0 <= i <= self.extension_name_map.len(),
                code_of(self@, name@) == code_of(self@.skip(i as int), name@),
            decreases self.extension_name_map.len() - i,
        {
            let pair = &self.extension_name_map[i];
            assert(self@.skip(i as int)[0] == (pair.0@, pair.1));
            assert(self@.skip(i as int).drop_first() =~= self@.skip(i + 1));
            if same_text(pair.0.as_str(), name) {
                return Some(pair.1);
            }
            i = i + 1;
        }
        None
    }

    fn find_name(&self, code: u8) -> (name: Option<&String>)
        ensures
            match name {
                Some(name) => name_of(self@, code) == Some(name@),
                None => name_of(self@, code) is None,
            },
    {
        let mut i: usize = 0;
        assert(self@.skip(0) =~= self@);
        while i < self.extension_name_map.len()
            invariant
                0 <= i <= self.extension_name_map.len(),
                name_of(self@, code) == name_of(self@.skip(i as int), code),
            decreases self.extension_name_map.len() - i,
        {
            let pair = &self.extension_name_map[i];
            assert(self@.skip(i as int)[0] == (pair.0@, pair.1));
            assert(self@.skip(i as int).drop_first() =~= self@.skip(i + 1));
            if pair.1 == code {
                return Some(&pair.0);
            }
            i = i + 1;
        }
        None
    }

    /// Write an extension message.
    pub fn encode(&self, message: &ExtensionMessage) -> (result: Result<Vec<u8>, BitTorrentError>)
        ensures
            outcome(result) == extension_bytes(self@, message@),
    {
        let name = message.name();
        let code: u8 = match self.find_code(name) {
            Some(code) => code,
            None => {
                let mut text = "Extension '".to_string();
                text.append(name);
                text.append("' is unsupported by peer");
                return Err(BitTorrentError::new(text));
            },
        };
        let value = match message {
            ExtensionMessage::Handshake(handshake) => handshake.to_value(),
            ExtensionMessage::Metadata(metadata, _) => metadata.to_value(),
        };
        let mut body = match bencode_value(value) {
            Ok(body) => body,
            Err(error) => return Err(error),
        };
        let mut out: Vec<u8> = vec![code];
        let ghost written_body = body@;
        out.append(&mut body);
        match message {
            ExtensionMessage::Metadata(_, Some(data)) => {
                out.extend_from_slice(data.as_slice());
            },
            _ => {},
        }
        assert(out@ =~= seq![code] + written_body + extension_data(message@));
        Ok(out)
    }

    /// Read an extension message.
    pub fn decode(&self, bytes: &[u8]) -> (result: Result<ExtensionMessage, BitTorrentError>)
        ensures
            outcome(result) == extension_of(self@, bytes@),
    {
        if bytes.len() == 0 {
            return Err(bterror("Insufficient bytes"));
        }
        let code: u8 = bytes[0];
        let name = match self.find_name(code) {
            Some(name) => name,
            None => {
                return Err(
                    bterror_with(
                        "Unrecognized extension code: ",
                        decimal_string_u64(code as u64).as_str(),
                    ),
                );
            },
        };
        let mut rest = slice_subrange(bytes, 1, bytes.len());
        assert(rest@ =~= bytes@.skip(1));
        if same_text(name.as_str(), "handshake") {
            match Decoder::new().consume_bencoded_value(&mut rest) {
                Ok(value) => match ExtensionHandshake::from_value(&value) {
                    Ok(handshake) => Ok(ExtensionMessage::Handshake(handshake)),
                    Err(error) => Err(error),
                },
                Err(error) => Err(error),
            }
        } else if same_text(name.as_str(), "ut_metadata") {
            match Decoder::new().consume_bencoded_value(&mut rest) {
                Ok(value) => match ExtensionMetadata::from_value(&value) {
                    Ok(metadata) => {
                        let data = if rest.len() > 0 {
                            Some(crate::text::bytes_to_vec(rest))
                        } else {
                            None
                        };
                        Ok(ExtensionMessage::Metadata(metadata, data))
                    },
                    Err(error) => Err(error),
                },
                Err(error) => Err(error),
            }
        } else {
            Err(bterror_with("Unrecognized extension name: ", name.as_str()))
        }
    }
}

} // verus!
