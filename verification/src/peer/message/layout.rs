//! Where the parts of a message stand in its bytes.

use vstd::arithmetic::power2::pow2;
use vstd::prelude::*;
use vstd::utf8::{decode_utf8, encode_utf8};

use crate::be::{be_bytes, be_bytes_read_back, be_value, lemma_be_limits};
use crate::bencode::encode::bencoded;
use crate::json::{member, Json};
use crate::peer::message::extension::{
    code_of, extension_bytes, extension_json, extension_name, handshake_members, handshake_of,
    metadata_members, metadata_of, name_of, number_json, object_json, text_json,
    ExtensionHandshakeView, ExtensionMetadata, ExtensionView,
};
use crate::peer::message::{
    bitfield_bytes, bitfield_of, handshake_bytes, handshake_codes, handshake_in, message_body,
    message_bytes, message_of, piece_bytes, request_bytes, HandshakeView, MessageView, PieceView,
    RequestMessage,
};
use crate::tracker::dht::laws::lemma_entry;
use crate::util::laws::bits_come_high_to_low;

verus! {

/// The number that stands for the kind of a message.
pub open spec fn kind_number(message: MessageView) -> int {
    match message {
        MessageView::Choke => 0,
        MessageView::Unchoke => 1,
        MessageView::Interested => 2,
        MessageView::NotInterested => 3,
        MessageView::Have(_) => 4,
        MessageView::Bitfield(_) => 5,
        MessageView::Request(_) => 6,
        MessageView::Piece(_) => 7,
        MessageView::Cancel(_) => 8,
        MessageView::Port(_) => 9,
        MessageView::HaveAll => 14,
        MessageView::HaveNone => 15,
        MessageView::RejectRequest(_) => 16,
        MessageView::AllowFast(_) => 17,
        MessageView::Extension(_) => 20,
        MessageView::Keepalive | MessageView::Handshake(_) => -1,
    }
}

/// The first byte of a message tells its kind; a message that only keeps the connection
/// alive has none.
pub proof fn first_byte_tells_kind(names: Seq<(Seq<char>, u8)>, message: MessageView)
    requires
        !(message is Handshake),
    ensures
        message_body(names, message) matches Ok(body) ==> {
            &&& message is Keepalive ==> body.len() == 0
            &&& !(message is Keepalive) ==> body.len() > 0 && body[0] == kind_number(message)
        },
{
}

/// A message is read as the kind that its first byte tells; a byte that tells none is
/// refused.
pub proof fn kind_is_read(names: Seq<(Seq<char>, u8)>, bytes: Seq<u8>)
    requires
        bytes.len() > 0,
    ensures
        message_of(names, bytes) matches Ok(message) ==> kind_number(message) == bytes[0],
        message_of(names, Seq::<u8>::empty()) == Ok::<MessageView, Seq<char>>(
            MessageView::Keepalive,
        ),
        10 <= bytes[0] <= 13 || 18 <= bytes[0] <= 19 || bytes[0] > 20 ==> message_of(names, bytes)
            is Err,
{
}

/// Before a message stands its length in four bytes; a handshake has none.
pub proof fn length_comes_first(names: Seq<(Seq<char>, u8)>, message: MessageView)
    requires
        !(message is Handshake),
        message_body(names, message) is Ok,
        message_body(names, message)->Ok_0.len() < 0x1_0000_0000,
    ensures
        message_bytes(names, message) matches Ok(bytes) && bytes.len() >= 4 && be_value(
            bytes.take(4),
        ) == bytes.len() - 4 && bytes.skip(4) == message_body(names, message)->Ok_0,
{
    let body = message_body(names, message)->Ok_0;
    lemma_be_limits();
    be_bytes_read_back(body.len(), 4);
    vstd::arithmetic::div_mod::lemma_small_mod(body.len(), 0x1_0000_0000);
    let bytes = be_bytes(body.len(), 4) + body;
    assert(bytes.take(4) =~= be_bytes(body.len(), 4));
    assert(bytes.skip(4) =~= body);
}

/// A request is the number of the piece, where in it the block begins and how long it is,
/// in four bytes each.
pub proof fn request_layout(request: RequestMessage)
    ensures
        request_bytes(request).len() == 12,
        be_value(request_bytes(request).subrange(0, 4)) == request.index,
        be_value(request_bytes(request).subrange(4, 8)) == request.begin,
        be_value(request_bytes(request).subrange(8, 12)) == request.length,
{
    let bytes = request_bytes(request);
    lemma_be_limits();
    be_bytes_read_back(request.index as nat, 4);
    be_bytes_read_back(request.begin as nat, 4);
    be_bytes_read_back(request.length as nat, 4);
    assert(bytes.subrange(0, 4) =~= be_bytes(request.index as nat, 4));
    assert(bytes.subrange(4, 8) =~= be_bytes(request.begin as nat, 4));
    assert(bytes.subrange(8, 12) =~= be_bytes(request.length as nat, 4));
}

/// A block is the number of the piece and where in it the block begins, in four bytes each,
/// then its data.
pub proof fn piece_layout(piece: PieceView)
    ensures
        piece_bytes(piece).len() == 8 + piece.block.len(),
        be_value(piece_bytes(piece).subrange(0, 4)) == piece.index,
        be_value(piece_bytes(piece).subrange(4, 8)) == piece.begin,
        piece_bytes(piece).skip(8) == piece.block,
{
    let bytes = piece_bytes(piece);
    lemma_be_limits();
    be_bytes_read_back(piece.index as nat, 4);
    be_bytes_read_back(piece.begin as nat, 4);
    assert(bytes.subrange(0, 4) =~= be_bytes(piece.index as nat, 4));
    assert(bytes.subrange(4, 8) =~= be_bytes(piece.begin as nat, 4));
    assert(bytes.skip(8) =~= piece.block);
}

/// The numbers in a message are written in four bytes, a port in two.
pub proof fn number_layout(names: Seq<(Seq<char>, u8)>, index: u32, port: u16)
    ensures
        message_body(names, MessageView::Have(index)) matches Ok(body) && body.len() == 5
            && be_value(body.skip(1)) == index,
        message_body(names, MessageView::AllowFast(index)) matches Ok(body) && body.len() == 5
            && be_value(body.skip(1)) == index,
        message_body(names, MessageView::Port(port)) matches Ok(body) && body.len() == 3
            && be_value(body.skip(1)) == port,
{
    lemma_be_limits();
    be_bytes_read_back(index as nat, 4);
    be_bytes_read_back(port as nat, 2);
    assert((seq![4u8] + be_bytes(index as nat, 4)).skip(1) =~= be_bytes(index as nat, 4));
    assert((seq![17u8] + be_bytes(index as nat, 4)).skip(1) =~= be_bytes(index as nat, 4));
    assert((seq![9u8] + be_bytes(port as nat, 2)).skip(1) =~= be_bytes(port as nat, 2));
}

/// Requests, refusals and withdrawals have the same fields; a block and a bitfield follow
/// the kind as they are.
pub proof fn body_follows_kind(
    names: Seq<(Seq<char>, u8)>,
    request: RequestMessage,
    piece: PieceView,
    bits: Seq<bool>,
)
    ensures
        message_body(names, MessageView::Request(request)) matches Ok(body) && body.skip(1)
            == request_bytes(request),
        message_body(names, MessageView::Cancel(request)) matches Ok(body) && body.skip(1)
            == request_bytes(request),
        message_body(names, MessageView::RejectRequest(request)) matches Ok(body) && body.skip(1)
            == request_bytes(request),
        message_body(names, MessageView::Piece(piece)) matches Ok(body) && body.skip(1)
            == piece_bytes(piece),
        message_body(names, MessageView::Bitfield(bits)) matches Ok(body) && body.skip(1)
            == bitfield_bytes(bits),
{
    assert((seq![6u8] + request_bytes(request)).skip(1) =~= request_bytes(request));
    assert((seq![8u8] + request_bytes(request)).skip(1) =~= request_bytes(request));
    assert((seq![16u8] + request_bytes(request)).skip(1) =~= request_bytes(request));
    assert((seq![7u8] + piece_bytes(piece)).skip(1) =~= piece_bytes(piece));
    assert((seq![5u8] + bitfield_bytes(bits)).skip(1) =~= bitfield_bytes(bits));
}

/// In a bitfield the first byte tells of the first eight pieces, its most significant bit of
/// the first.
pub proof fn bits_stand_for_pieces(bytes: Seq<u8>, piece: int)
    requires
        0 <= piece < 8 * bytes.len(),
    ensures
        bitfield_of(bytes).len() == 8 * bytes.len(),
        bitfield_of(bytes)[piece] == ((bytes[piece / 8] as int / pow2(
            (7 - piece % 8) as nat,
        ) as int) % 2 == 1),
{
    bits_come_high_to_low(bytes[piece / 8], piece % 8);
}

proof fn lemma_protocol_name()
    ensures
        encode_utf8("BitTorrent protocol"@).len() == 19,
{
    reveal_strlit("BitTorrent protocol");
    crate::text::lemma_ascii("BitTorrent protocol"@);
    vstd::utf8::is_ascii_chars_encode_utf8("BitTorrent protocol"@);
}

/// A handshake is the length and name of the protocol, eight bytes that tell which
/// extensions are known, the hash, the peer id. The extension protocol is among those that
/// are known, by the fifth bit of the sixth byte, and the fast extension, by the third bit
/// of the eighth.
pub proof fn handshake_layout(handshake: HandshakeView)
    requires
        handshake.info_hash.len() == 20,
        handshake.peer_id.len() == 20,
    ensures
        ({
            let bytes = handshake_bytes(handshake);
            &&& bytes.len() == 68
            &&& bytes[0] == 19
            &&& bytes.subrange(1, 20) == encode_utf8("BitTorrent protocol"@)
            &&& bytes[25] / 16 % 2 == 1
            &&& bytes[27] / 4 % 2 == 1
            &&& bytes.subrange(28, 48) == handshake.info_hash
            &&& bytes.subrange(48, 68) == handshake.peer_id
        }),
{
    let bytes = handshake_bytes(handshake);
    lemma_protocol_name();
    assert(bytes.subrange(1, 20) =~= encode_utf8("BitTorrent protocol"@));
    assert(bytes.subrange(28, 48) =~= handshake.info_hash);
    assert(bytes.subrange(48, 68) =~= handshake.peer_id);
}

/// A handshake without extensions is laid out in the same way, with eight bytes of zero.
pub proof fn plain_handshake_layout(handshake: crate::handshake::PlainHandshake)
    requires
        handshake.info_hash.len() == 20,
        handshake.peer_id.len() == 20,
    ensures
        ({
            let bytes = crate::handshake::plain_handshake_bytes(handshake);
            &&& bytes.len() == 68
            &&& bytes[0] == 19
            &&& bytes.subrange(1, 20) == encode_utf8("BitTorrent protocol"@)
            &&& forall|i: int| 20 <= i < 28 ==> #[trigger] bytes[i] == 0
            &&& bytes.subrange(28, 48) == handshake.info_hash
            &&& bytes.subrange(48, 68) == handshake.peer_id
        }),
{
    let bytes = crate::handshake::plain_handshake_bytes(handshake);
    lemma_protocol_name();
    assert(bytes.subrange(1, 20) =~= encode_utf8("BitTorrent protocol"@));
    assert(bytes.subrange(28, 48) =~= handshake.info_hash);
    assert(bytes.subrange(48, 68) =~= handshake.peer_id);
}

/// The code of a name is the first that is listed with it, and the name of a code likewise.
pub proof fn first_listed_counts(names: Seq<(Seq<char>, u8)>, at: int)
    requires
        0 <= at < names.len(),
    ensures
        (forall|i: int| 0 <= i < at ==> (#[trigger] names[i]).0 != names[at].0) ==> code_of(
            names,
            names[at].0,
        ) == Some(names[at].1),
        (forall|i: int| 0 <= i < at ==> (#[trigger] names[i]).1 != names[at].1) ==> name_of(
            names,
            names[at].1,
        ) == Some(names[at].0),
    decreases at,
{
    if at > 0 {
        let rest = names.drop_first();
        first_listed_counts(rest, at - 1);
        assert(rest[at - 1] == names[at]);
        if forall|i: int| 0 <= i < at ==> (#[trigger] names[i]).0 != names[at].0 {
            assert(names[0].0 != names[at].0);
            assert forall|i: int| 0 <= i < at - 1 implies (#[trigger] rest[i]).0
                != rest[at - 1].0 by {
                assert(rest[i] == names[i + 1]);
            }
        }
        if forall|i: int| 0 <= i < at ==> (#[trigger] names[i]).1 != names[at].1 {
            assert(names[0].1 != names[at].1);
            assert forall|i: int| 0 <= i < at - 1 implies (#[trigger] rest[i]).1
                != rest[at - 1].1 by {
                assert(rest[i] == names[i + 1]);
            }
        }
    }
}

/// What is not listed has no code and no name.
pub proof fn unlisted_has_no_code(names: Seq<(Seq<char>, u8)>, name: Seq<char>, code: u8)
    ensures
        (forall|i: int| 0 <= i < names.len() ==> (#[trigger] names[i]).0 != name) ==> code_of(
            names,
            name,
        ) is None,
        (forall|i: int| 0 <= i < names.len() ==> (#[trigger] names[i]).1 != code) ==> name_of(
            names,
            code,
        ) is None,
    decreases names.len(),
{
    if names.len() > 0 {
        let rest = names.drop_first();
        unlisted_has_no_code(rest, name, code);
        if forall|i: int| 0 <= i < names.len() ==> (#[trigger] names[i]).0 != name {
            assert(names[0].0 != name);
            assert forall|i: int| 0 <= i < rest.len() implies (#[trigger] rest[i]).0 != name by {
                assert(rest[i] == names[i + 1]);
            }
        }
        if forall|i: int| 0 <= i < names.len() ==> (#[trigger] names[i]).1 != code {
            assert(names[0].1 != code);
            assert forall|i: int| 0 <= i < rest.len() implies (#[trigger] rest[i]).1 != code by {
                assert(rest[i] == names[i + 1]);
            }
        }
    }
}

/// An extension message is the code that the peer has for it, the object that stands for
/// it, and the data of a part of the info dictionary if there are any.
pub proof fn extension_layout(names: Seq<(Seq<char>, u8)>, message: ExtensionView)
    ensures
        extension_bytes(names, message) matches Ok(bytes) ==> {
            &&& bytes.len() > 0
            &&& code_of(names, extension_name(message)) == Some(bytes[0])
            &&& bencoded(extension_json(message)) matches Ok(object) && bytes.skip(1) == object + (
            match message {
                ExtensionView::Metadata(_, Some(data)) => data,
                _ => Seq::<u8>::empty(),
            })
        },
        extension_name(message) == if message is Handshake {
            "handshake"@
        } else {
            "ut_metadata"@
        },
{
    if let Ok(bytes) = extension_bytes(names, message) {
        let object = bencoded(extension_json(message))->Ok_0;
        let data = match message {
            ExtensionView::Metadata(_, Some(data)) => data,
            _ => Seq::<u8>::empty(),
        };
        assert(bytes.skip(1) =~= object + data);
    }
}

proof fn lemma_member_names()
    ensures
        "m"@ == seq!['m'],
        "p"@ == seq!['p'],
        "v"@ == seq!['v'],
        "yourip"@.len() == 6,
        "ipv6"@ == seq!['i', 'p', 'v', '6'],
        "ipv4"@ == seq!['i', 'p', 'v', '4'],
        "reqq"@ == seq!['r', 'e', 'q', 'q'],
        "metadata_size"@.len() == 13,
        "msg_type"@.len() == 8,
        "piece"@.len() == 5,
        "total_size"@.len() == 10,
{
    reveal_strlit("m");
    reveal_strlit("p");
    reveal_strlit("v");
    reveal_strlit("yourip");
    reveal_strlit("ipv6");
    reveal_strlit("ipv4");
    reveal_strlit("reqq");
    reveal_strlit("metadata_size");
    reveal_strlit("msg_type");
    reveal_strlit("piece");
    reveal_strlit("total_size");
    assert("m"@ =~= seq!['m']);
    assert("p"@ =~= seq!['p']);
    assert("v"@ =~= seq!['v']);
    assert("ipv6"@ =~= seq!['i', 'p', 'v', '6']);
    assert("ipv4"@ =~= seq!['i', 'p', 'v', '4']);
    assert("reqq"@ =~= seq!['r', 'e', 'q', 'q']);
}

/// The fields of an extension handshake are written under their names.
pub proof fn handshake_is_written_by_names(handshake: ExtensionHandshakeView)
    ensures
        ({
            let value = extension_json(ExtensionView::Handshake(handshake));
            let pairs = value->Object_0;
            &&& value is Object
            &&& member(pairs, "m"@) == Some(object_json(handshake.messages))
            &&& member(pairs, "p"@) == Some(number_json(handshake.port))
            &&& member(pairs, "v"@) == Some(text_json(handshake.version))
            &&& member(pairs, "yourip"@) == Some(text_json(handshake.yourip))
            &&& member(pairs, "ipv6"@) == Some(text_json(handshake.ipv6))
            &&& member(pairs, "ipv4"@) == Some(text_json(handshake.ipv4))
            &&& member(pairs, "reqq"@) == Some(number_json(handshake.reqq))
            &&& member(pairs, "metadata_size"@) == Some(number_json(handshake.metadata_size))
        }),
{
    let members = handshake_members(handshake);
    lemma_member_names();
    assert("ipv6"@[3] != "ipv4"@[3]);
    assert("m"@[0] == 'm' && "p"@[0] == 'p' && "v"@[0] == 'v');
    assert("reqq"@[0] == 'r' && "ipv6"@[0] == 'i' && "ipv4"@[0] == 'i');
    lemma_entry(members, 0);
    lemma_entry(members, 1);
    lemma_entry(members, 2);
    lemma_entry(members, 3);
    lemma_entry(members, 4);
    lemma_entry(members, 5);
    lemma_entry(members, 6);
    lemma_entry(members, 7);
}

/// An extension handshake is read by the names of its fields, whatever else is there.
pub proof fn handshake_is_read_by_names(
    pairs: Seq<(Seq<u8>, Json)>,
    handshake: ExtensionHandshakeView,
)
    requires
        handshake.messages matches Some(messages) ==> member(pairs, "m"@) == Some(
            Json::Object(messages),
        ),
        handshake.port matches Some(port) ==> 0 <= port <= u16::MAX && member(pairs, "p"@) == Some(
            Json::Number(port),
        ),
        handshake.version matches Some(version) ==> member(pairs, "v"@) == Some(
            Json::Text(version),
        ),
        handshake.yourip matches Some(text) ==> member(pairs, "yourip"@) == Some(Json::Text(text)),
        handshake.ipv6 matches Some(text) ==> member(pairs, "ipv6"@) == Some(Json::Text(text)),
        handshake.ipv4 matches Some(text) ==> member(pairs, "ipv4"@) == Some(Json::Text(text)),
        handshake.reqq matches Some(n) ==> member(pairs, "reqq"@) == Some(Json::Number(n)),
        handshake.metadata_size matches Some(n) ==> member(pairs, "metadata_size"@) == Some(
            Json::Number(n),
        ),
        handshake.messages is None ==> member(pairs, "m"@) is None,
        handshake.port is None ==> member(pairs, "p"@) is None,
        handshake.version is None ==> member(pairs, "v"@) is None,
        handshake.yourip is None ==> member(pairs, "yourip"@) is None,
        handshake.ipv6 is None ==> member(pairs, "ipv6"@) is None,
        handshake.ipv4 is None ==> member(pairs, "ipv4"@) is None,
        handshake.reqq is None ==> member(pairs, "reqq"@) is None,
        handshake.metadata_size is None ==> member(pairs, "metadata_size"@) is None,
    ensures
        handshake_of(Json::Object(pairs)) == Ok::<ExtensionHandshakeView, Seq<char>>(handshake),
{
}

/// The fields of a message about the info dictionary are written under their names.
pub proof fn metadata_is_written_by_names(metadata: ExtensionMetadata, data: Option<Seq<u8>>)
    ensures
        ({
            let value = extension_json(ExtensionView::Metadata(metadata, data));
            let pairs = value->Object_0;
            &&& value is Object
            &&& member(pairs, "msg_type"@) == Some(Json::Number(metadata.msg_type as int))
            &&& member(pairs, "piece"@) == Some(Json::Number(metadata.piece as int))
            &&& metadata.total_size matches Some(size) ==> member(pairs, "total_size"@) == Some(
                Json::Number(size as int),
            )
        }),
{
    let members = metadata_members(metadata);
    lemma_member_names();
    lemma_entry(members, 0);
    lemma_entry(members, 1);
    lemma_entry(members, 2);
}

/// A message about the info dictionary is read by the names of its fields, whatever else is
/// there.
pub proof fn metadata_is_read_by_names(
    pairs: Seq<(Seq<u8>, Json)>,
    msg_type: usize,
    piece: usize,
    total_size: usize,
)
    requires
        member(pairs, "msg_type"@) == Some(Json::Number(msg_type as int)),
        member(pairs, "piece"@) == Some(Json::Number(piece as int)),
    ensures
        member(pairs, "total_size"@) == Some(Json::Number(total_size as int)) ==> metadata_of(
            Json::Object(pairs),
        ) == Ok::<ExtensionMetadata, Seq<char>>(
            ExtensionMetadata { msg_type, piece, total_size: Some(total_size) },
        ),
        member(pairs, "total_size"@) is None ==> metadata_of(Json::Object(pairs)) == Ok::<
            ExtensionMetadata,
            Seq<char>,
        >(ExtensionMetadata { msg_type, piece, total_size: None }),
{
}

/// All codes that a handshake names are taken in, each under its name and in their order.
pub proof fn all_codes_are_taken_in(pairs: Seq<(Seq<u8>, Json)>, codes: Seq<u8>)
    requires
        pairs.len() == codes.len(),
        forall|i: int|
            0 <= i < pairs.len() ==> (#[trigger] pairs[i]).1 == Json::Number(codes[i] as int),
    ensures
        handshake_codes(pairs) == Ok::<Seq<(Seq<char>, u8)>, Seq<char>>(
            Seq::new(pairs.len(), |i: int| (decode_utf8(pairs[i].0), codes[i])),
        ),
    decreases pairs.len(),
{
    let all = Seq::new(pairs.len(), |i: int| (decode_utf8(pairs[i].0), codes[i]));
    if pairs.len() == 0 {
        assert(all =~= seq![]);
    } else {
        let head = pairs.drop_last();
        let fewer = codes.drop_last();
        assert forall|i: int| 0 <= i < head.len() implies (#[trigger] head[i]).1 == Json::Number(
            fewer[i] as int,
        ) by {
            assert(head[i] == pairs[i]);
        }
        all_codes_are_taken_in(head, fewer);
        assert(pairs[pairs.len() - 1].1 == Json::Number(codes[pairs.len() - 1] as int));
        assert(Seq::new(head.len(), |i: int| (decode_utf8(head[i].0), fewer[i])).push(
            (decode_utf8(pairs.last().0), codes.last()),
        ) =~= all);
    }
}

/// A handshake is read from its bytes.
pub proof fn handshake_is_read(handshake: HandshakeView)
    requires
        handshake.info_hash.len() == 20,
        handshake.peer_id.len() == 20,
    ensures
        handshake_in(handshake_bytes(handshake)) == handshake,
{
    handshake_layout(handshake);
}

/// Whether a field is left out, or null, or holds a number up to a limit.
pub open spec fn number_or_none(field: Option<Json>, limit: int) -> bool {
    match field {
        None | Some(Json::Null) => true,
        Some(Json::Number(n)) => 0 <= n <= limit,
        _ => false,
    }
}

/// A message about the info dictionary is refused exactly if its kind or its part is missing
/// or no number of the machine's size, or its total size is there and is none.
pub proof fn metadata_needs_its_fields(pairs: Seq<(Seq<u8>, Json)>)
    ensures
        metadata_of(Json::Object(pairs)) is Ok <==> {
            &&& member(pairs, "msg_type"@) matches Some(Json::Number(n)) && 0 <= n <= usize::MAX
            &&& member(pairs, "piece"@) matches Some(Json::Number(n)) && 0 <= n <= usize::MAX
            &&& number_or_none(member(pairs, "total_size"@), usize::MAX as int)
        },
        metadata_of(Json::Null) is Err,
        forall|n: int| (#[trigger] metadata_of(Json::Number(n))) is Err,
        forall|text: Seq<char>| (#[trigger] metadata_of(Json::Text(text))) is Err,
{
}

/// A message about the info dictionary may also come as an array of its fields in order.
pub proof fn metadata_is_read_in_order(msg_type: usize, piece: usize, total_size: usize)
    ensures
        metadata_of(
            Json::Array(
                seq![
                    Json::Number(msg_type as int),
                    Json::Number(piece as int),
                    Json::Number(total_size as int),
                ],
            ),
        ) == Ok::<ExtensionMetadata, Seq<char>>(
            ExtensionMetadata { msg_type, piece, total_size: Some(total_size) },
        ),
{
}

} // verus!
