//! What reading a message gives back of one that was written.

use vstd::prelude::*;
use vstd::utf8::{
    decode_utf8, encode_utf8, encode_utf8_decode_utf8, encode_utf8_valid_utf8,
    is_ascii_chars_encode_utf8, valid_utf8,
};

use crate::be::{be_bytes, be_bytes_read_back, be_value, lemma_be_bytes_len, lemma_be_limits};
use crate::bencode::encode::{bencoded, bencoded_members, bytes_of_text};
use crate::decode::consumed;
use crate::decode::laws::{consumed_bencoded, plain_string, readable};
use crate::json::{member, Json};
use crate::keymap::{
    ascending, dict_of, dict_of_gives_last, key_less, last_put, last_put_at, lookup, lookup_absent,
    lookup_at,
};
use crate::peer::message::extension::{
    code_of, extension_bytes, extension_data, extension_json, extension_name, extension_of,
    handshake_members, handshake_of, metadata_members, metadata_of, name_of, ExtensionHandshakeView,
    ExtensionMetadata, ExtensionView,
};
use crate::peer::message::{
    bitfield_bytes, bitfield_of, complete, handshake_bytes, handshake_prefix, message_body,
    message_of, piece_bytes, piece_of, request_bytes, request_of, with_length, HandshakeView,
    MessageView, PieceView, RequestMessage,
};
use crate::util::{bits_of, bits_of_byte, byte_of, byte_of_bits};

verus! {

/// A request reads back from its bytes.
pub proof fn request_reads_back(request: RequestMessage)
    ensures
        request_of(request_bytes(request)) == Ok::<RequestMessage, Seq<char>>(request),
{
    let bytes = request_bytes(request);
    lemma_be_limits();
    be_bytes_read_back(request.index as nat, 4);
    be_bytes_read_back(request.begin as nat, 4);
    be_bytes_read_back(request.length as nat, 4);
    lemma_be_bytes_len(request.index as nat, 4);
    lemma_be_bytes_len(request.begin as nat, 4);
    lemma_be_bytes_len(request.length as nat, 4);
    assert(bytes.subrange(0, 4) =~= be_bytes(request.index as nat, 4));
    assert(bytes.subrange(4, 8) =~= be_bytes(request.begin as nat, 4));
    assert(bytes.subrange(8, 12) =~= be_bytes(request.length as nat, 4));
}

/// A block of a piece reads back from its bytes.
pub proof fn piece_reads_back(piece: PieceView)
    ensures
        piece_of(piece_bytes(piece)) == Ok::<PieceView, Seq<char>>(piece),
{
    let bytes = piece_bytes(piece);
    lemma_be_limits();
    be_bytes_read_back(piece.index as nat, 4);
    be_bytes_read_back(piece.begin as nat, 4);
    lemma_be_bytes_len(piece.index as nat, 4);
    lemma_be_bytes_len(piece.begin as nat, 4);
    assert(bytes.subrange(0, 4) =~= be_bytes(piece.index as nat, 4));
    assert(bytes.subrange(4, 8) =~= be_bytes(piece.begin as nat, 4));
    assert(bytes.skip(8) =~= piece.block);
}

proof fn lemma_handshake_prefix()
    ensures
        handshake_prefix().len() == 28,
        handshake_prefix()[0] == 19,
        handshake_prefix()[1] == 'B' as u8,
        handshake_prefix()[2] == 'i' as u8,
        handshake_prefix()[3] == 't' as u8,
{
    reveal_strlit("BitTorrent protocol");
    let text = "BitTorrent protocol"@;
    crate::text::lemma_ascii(text);
    is_ascii_chars_encode_utf8(text);
}

/// A handshake with a peer id of twenty bytes takes sixty-eight bytes, of which the
/// first four are those of no message length in use, and reads back from them.
pub proof fn handshake_reads_back(handshake: HandshakeView)
    requires
        handshake.info_hash.len() == 20,
        handshake.peer_id.len() == 20,
    ensures
        ({
            let bytes = handshake_bytes(handshake);
            &&& bytes.len() == 68
            &&& bytes.take(4) == seq![19u8, 'B' as u8, 'i' as u8, 't' as u8]
            &&& bytes.subrange(28, 48) == handshake.info_hash
            &&& bytes.subrange(48, 68) == handshake.peer_id
        }),
{
    lemma_handshake_prefix();
    let bytes = handshake_bytes(handshake);
    assert(bytes.take(4) =~= seq![19u8, 'B' as u8, 'i' as u8, 't' as u8]);
    assert(bytes.subrange(28, 48) =~= handshake.info_hash);
    assert(bytes.subrange(48, 68) =~= handshake.peer_id);
}

/// Bits read back from the bytes they are written as.
pub proof fn bitfield_reads_back(bits: Seq<bool>)
    requires
        bits.len() % 8 == 0,
    ensures
        bitfield_of(bitfield_bytes(bits)) == bits,
{
    let bytes = bitfield_bytes(bits);
    assert forall|i: int| 0 <= i < bits.len() implies bits_of(bytes[i / 8])[i % 8]
        == #[trigger] bits[i] by {
        let group = bits.subrange(8 * (i / 8), 8 * (i / 8) + 8);
        bits_of_byte(group);
        assert(group[i % 8] == bits[i]);
    }
    assert(bitfield_of(bytes) =~= bits);
}

/// Bytes are written back from their bits.
pub proof fn bitfield_writes_back(bytes: Seq<u8>)
    ensures
        bitfield_bytes(bitfield_of(bytes)) == bytes,
{
    let bits = bitfield_of(bytes);
    assert forall|i: int| 0 <= i < bytes.len() implies byte_of(
        bits.subrange(8 * i, 8 * i + 8),
    ) as u8 == #[trigger] bytes[i] by {
        byte_of_bits(bytes[i]);
        assert(bits.subrange(8 * i, 8 * i + 8) =~= bits_of(bytes[i]));
    }
    assert(bitfield_bytes(bits) =~= bytes);
}

/// Pairs without those that are null.
pub open spec fn without_nulls(pairs: Seq<(Seq<u8>, Json)>) -> Seq<(Seq<u8>, Json)>
    decreases pairs.len(),
{
    if pairs.len() == 0 {
        seq![]
    } else if pairs[0].1 is Null {
        without_nulls(pairs.drop_first())
    } else {
        seq![pairs[0]] + without_nulls(pairs.drop_first())
    }
}

proof fn lemma_without_nulls(pairs: Seq<(Seq<u8>, Json)>)
    requires
        ascending(pairs),
    ensures
        ascending(without_nulls(pairs)),
        forall|i: int|
            0 <= i < without_nulls(pairs).len() ==> pairs.contains(
                #[trigger] without_nulls(pairs)[i],
            ) && !(without_nulls(pairs)[i].1 is Null),
        forall|i: int|
            0 <= i < pairs.len() && !((#[trigger] pairs[i]).1 is Null) ==> without_nulls(
                pairs,
            ).contains(pairs[i]),
        bencoded_members(without_nulls(pairs)) == bencoded_members(pairs),
    decreases pairs.len(),
{
    if pairs.len() > 0 {
        let rest = pairs.drop_first();
        let kept = without_nulls(rest);
        let all = without_nulls(pairs);
        assert(ascending(rest));
        lemma_without_nulls(rest);
        assert forall|i: int| 0 <= i < kept.len() implies pairs.contains(#[trigger] kept[i]) && key_less(
            pairs[0].0,
            kept[i].0,
        ) by {
            assert(rest.contains(kept[i]));
            let j = choose|j: int| 0 <= j < rest.len() && rest[j] == kept[i];
            assert(pairs[j + 1] == kept[i]);
        }
        if pairs[0].1 is Null {
            assert(all == kept);
            assert forall|i: int|
                0 <= i < pairs.len() && !((#[trigger] pairs[i]).1 is Null) implies all.contains(
                pairs[i],
            ) by {
                assert(rest[i - 1] == pairs[i]);
            }
        } else {
            assert(all =~= seq![pairs[0]] + kept);
            assert(all.drop_first() =~= kept);
            assert(forall|i: int| 0 < i < all.len() ==> all[i] == kept[i - 1]);
            assert forall|i: int, j: int| 0 <= i < j < all.len() implies key_less(
                (#[trigger] all[i]).0,
                (#[trigger] all[j]).0,
            ) by {
                assert(all[j] == kept[j - 1]);
                if i > 0 {
                    assert(all[i] == kept[i - 1]);
                }
            }
            assert forall|i: int| 0 <= i < all.len() implies pairs.contains(#[trigger] all[i]) && !(
            all[i].1 is Null) by {
                if i == 0 {
                    assert(pairs[0] == all[0]);
                } else {
                    assert(all[i] == kept[i - 1]);
                }
            }
            assert forall|i: int|
                0 <= i < pairs.len() && !((#[trigger] pairs[i]).1 is Null) implies all.contains(
                pairs[i],
            ) by {
                if i == 0 {
                    assert(all[0] == pairs[0]);
                } else {
                    assert(rest[i - 1] == pairs[i]);
                    assert(kept.contains(rest[i - 1]));
                    let j = choose|j: int| 0 <= j < kept.len() && kept[j] == pairs[i];
                    assert(all[j + 1] == pairs[i]);
                }
            }
        }
    }
}

proof fn lemma_lookup_is<T>(pairs: Seq<(Seq<u8>, T)>, key: Seq<u8>)
    requires
        ascending(pairs),
    ensures
        match lookup(pairs, key) {
            Some(value) => pairs.contains((key, value)),
            None => forall|i: int| 0 <= i < pairs.len() ==> (#[trigger] pairs[i]).0 != key,
        },
{
    if exists|i: int| 0 <= i < pairs.len() && (#[trigger] pairs[i]).0 == key {
        let i = choose|i: int| 0 <= i < pairs.len() && (#[trigger] pairs[i]).0 == key;
        lookup_at(pairs, i);
        assert(pairs[i] == (key, pairs[i].1));
    } else {
        lookup_absent(pairs, key);
    }
}

proof fn lemma_lookup_without_nulls(pairs: Seq<(Seq<u8>, Json)>, key: Seq<u8>)
    requires
        ascending(pairs),
    ensures
        lookup(without_nulls(pairs), key) == match lookup(pairs, key) {
            Some(Json::Null) => None,
            found => found,
        },
{
    let kept = without_nulls(pairs);
    lemma_without_nulls(pairs);
    lemma_lookup_is(pairs, key);
    lemma_lookup_is(kept, key);
    match lookup(kept, key) {
        Some(value) => {
            let i = choose|i: int| 0 <= i < kept.len() && kept[i] == (key, value);
            assert(pairs.contains(kept[i]));
            let j = choose|j: int| 0 <= j < pairs.len() && pairs[j] == kept[i];
            lookup_at(pairs, j);
        },
        None => {
            if let Some(value) = lookup(pairs, key) {
                let i = choose|i: int| 0 <= i < pairs.len() && pairs[i] == (key, value);
                if !(value is Null) {
                    assert(kept.contains(pairs[i]));
                    let j = choose|j: int| 0 <= j < kept.len() && kept[j] == pairs[i];
                    assert(kept[j].0 == key);
                }
            }
        },
    }
}

/// Whether the values of members are null or readable.
pub open spec fn readable_members(members: Seq<(Seq<char>, Json)>) -> bool {
    forall|i: int|
        0 <= i < members.len() ==> plain_string((#[trigger] members[i]).0) && (members[i].1 is Null
            || readable(members[i].1))
}

proof fn lemma_dict_of_members(members: Seq<(Seq<char>, Json)>, i: int)
    requires
        0 <= i < dict_of(members).len(),
    ensures
        exists|j: int|
            0 <= j < members.len() && dict_of(members)[i] == (
                encode_utf8((#[trigger] members[j]).0),
                members[j].1,
            ),
    decreases members.len(),
{
    let pairs = dict_of(members);
    let (key, value) = pairs[i];
    dict_of_gives_last(members, decode_utf8(key));
    let before = members.drop_last();
    let last = members.last();
    dict_of_gives_last(before, last.0);
    crate::keymap::lemma_rank(dict_of(before), encode_utf8(last.0));
    let r = crate::keymap::rank(dict_of(before), encode_utf8(last.0));
    if i == r {
        assert(pairs[i] == (encode_utf8(members[members.len() - 1].0), members[members.len() - 1].1));
    } else {
        let k = if i < r || crate::keymap::has_key(dict_of(before), encode_utf8(last.0)) {
            i
        } else {
            i - 1
        };
        assert(dict_of(before)[k] == pairs[i]);
        lemma_dict_of_members(before, k);
        let j = choose|j: int|
            0 <= j < before.len() && dict_of(before)[k] == (
                encode_utf8((#[trigger] before[j]).0),
                before[j].1,
            );
        assert(members[j] == before[j]);
    }
}

/// An object whose null members are left out reads back with the same members but
/// those.
pub proof fn object_reads_back(members: Seq<(Seq<char>, Json)>, more: Seq<u8>)
    requires
        readable_members(members),
    ensures
        bencoded(Json::Object(dict_of(members))) is Ok,
        consumed(bencoded(Json::Object(dict_of(members)))->Ok_0 + more) == (
            Ok::<Json, Seq<char>>(Json::Object(without_nulls(dict_of(members)))),
            more,
        ),
{
    let pairs = dict_of(members);
    let kept = without_nulls(pairs);
    dict_of_gives_last(members, seq![]);
    lemma_without_nulls(pairs);
    assert forall|i: int| 0 <= i < kept.len() implies {
        &&& valid_utf8((#[trigger] kept[i]).0)
        &&& plain_string(decode_utf8(kept[i].0))
        &&& readable(kept[i].1)
    } by {
        assert(pairs.contains(kept[i]));
        let k = choose|k: int| 0 <= k < pairs.len() && pairs[k] == kept[i];
        lemma_dict_of_members(members, k);
        let j = choose|j: int|
            0 <= j < members.len() && pairs[k] == (
                encode_utf8((#[trigger] members[j]).0),
                members[j].1,
            );
        encode_utf8_valid_utf8(members[j].0);
        encode_utf8_decode_utf8(members[j].0);
        assert(plain_string(members[j].0));
    }
    consumed_bencoded(Json::Object(kept), more);
}

proof fn lemma_members_are_written(pairs: Seq<(Seq<u8>, Json)>)
    requires
        forall|i: int|
            0 <= i < pairs.len() ==> (#[trigger] pairs[i]).1 is Null || (bytes_of_text(
                decode_utf8(pairs[i].0),
            ) is Ok && bencoded(pairs[i].1) is Ok),
    ensures
        bencoded_members(pairs) is Ok,
    decreases pairs.len(),
{
    if pairs.len() > 0 {
        let rest = pairs.drop_first();
        assert forall|i: int| 0 <= i < rest.len() implies (#[trigger] rest[i]).1 is Null || (
        bytes_of_text(decode_utf8(rest[i].0)) is Ok && bencoded(rest[i].1) is Ok) by {
            assert(rest[i] == pairs[i + 1]);
        }
        lemma_members_are_written(rest);
        assert(pairs[0].1 is Null || bencoded(pairs[0].1) is Ok);
    }
}

/// An object can be written if each of its members that is not null can be.
pub proof fn object_is_written(members: Seq<(Seq<char>, Json)>)
    requires
        forall|i: int|
            0 <= i < members.len() ==> (#[trigger] members[i]).1 is Null || (bytes_of_text(
                members[i].0,
            ) is Ok && bencoded(members[i].1) is Ok),
    ensures
        bencoded(Json::Object(dict_of(members))) is Ok,
{
    let pairs = dict_of(members);
    assert forall|i: int| 0 <= i < pairs.len() implies (#[trigger] pairs[i]).1 is Null || (
    bytes_of_text(decode_utf8(pairs[i].0)) is Ok && bencoded(pairs[i].1) is Ok) by {
        lemma_dict_of_members(members, i);
        let j = choose|j: int|
            0 <= j < members.len() && pairs[i] == (
                encode_utf8((#[trigger] members[j]).0),
                members[j].1,
            );
        encode_utf8_decode_utf8(members[j].0);
        assert(members[j].1 is Null || bencoded(members[j].1) is Ok);
    }
    lemma_members_are_written(pairs);
}

pub open spec fn some_plain(text: Option<Seq<char>>) -> bool {
    match text {
        Some(text) => plain_string(text),
        None => true,
    }
}

/// Whether a handshake is made of texts that are not marked as base64, of numbers of
/// the range of `i64`, and of readable messages.
pub open spec fn plain_handshake(handshake: ExtensionHandshakeView) -> bool {
    &&& match handshake.messages {
        Some(pairs) => readable(Json::Object(pairs)),
        None => true,
    }
    &&& match handshake.port {
        Some(n) => 0 <= n <= u16::MAX,
        None => true,
    }
    &&& some_plain(handshake.version)
    &&& some_plain(handshake.yourip)
    &&& some_plain(handshake.ipv6)
    &&& some_plain(handshake.ipv4)
    &&& match handshake.reqq {
        Some(n) => i64::MIN <= n <= i64::MAX,
        None => true,
    }
    &&& match handshake.metadata_size {
        Some(n) => i64::MIN <= n <= i64::MAX,
        None => true,
    }
}

pub proof fn lemma_short_name(name: Seq<char>)
    requires
        0 < name.len() < 20,
        forall|i: int| 0 <= i < name.len() ==> #[trigger] name[i] <= '\u{7f}',
        name[0] != 'b',
    ensures
        plain_string(name),
{
    reveal_strlit("base64:");
    crate::text::lemma_ascii(name);
    is_ascii_chars_encode_utf8(name);
    if name.len() >= 7 {
        assert(name.take(7)[0] == name[0]);
    }
}

pub proof fn lemma_handshake_names()
    ensures
        plain_string("m"@),
        plain_string("p"@),
        plain_string("v"@),
        plain_string("yourip"@),
        plain_string("ipv6"@),
        plain_string("ipv4"@),
        plain_string("reqq"@),
        plain_string("metadata_size"@),
        plain_string("msg_type"@),
        plain_string("piece"@),
        plain_string("total_size"@),
{
    reveal_strlit("m");
    reveal_strlit("p");
    reveal_strlit("v");
    reveal_strlit("yourip");
    reveal_strlit("ipv6");
    reveal_strlit("ipv4");
    reveal_strlit("reqq");
    reveal_strlit("metadata_size");
    reveal_strlit("msg_type");
    reveal_strlit("piece");
    reveal_strlit("total_size");
    lemma_short_name("m"@);
    lemma_short_name("p"@);
    lemma_short_name("v"@);
    lemma_short_name("yourip"@);
    lemma_short_name("ipv6"@);
    lemma_short_name("ipv4"@);
    lemma_short_name("reqq"@);
    lemma_short_name("metadata_size"@);
    lemma_short_name("msg_type"@);
    lemma_short_name("piece"@);
    lemma_short_name("total_size"@);
}

proof fn lemma_member_reads_back(members: Seq<(Seq<char>, Json)>, name: Seq<char>)
    ensures
        member(without_nulls(dict_of(members)), name) == match last_put(members, name) {
            Some(Json::Null) => None,
            found => found,
        },
{
    dict_of_gives_last(members, name);
    lemma_lookup_without_nulls(dict_of(members), encode_utf8(name));
}

proof fn lemma_handshake_last(handshake: ExtensionHandshakeView)
    ensures
        ({
            let members = handshake_members(handshake);
            &&& last_put(members, "m"@) == Some(members[0].1)
            &&& last_put(members, "p"@) == Some(members[1].1)
            &&& last_put(members, "v"@) == Some(members[2].1)
            &&& last_put(members, "yourip"@) == Some(members[3].1)
            &&& last_put(members, "ipv6"@) == Some(members[4].1)
            &&& last_put(members, "ipv4"@) == Some(members[5].1)
            &&& last_put(members, "reqq"@) == Some(members[6].1)
            &&& last_put(members, "metadata_size"@) == Some(members[7].1)
        }),
{
    let members = handshake_members(handshake);
    assert forall|i: int, j: int| 0 <= i < j < 8 implies (#[trigger] members[i]).0 != (
    #[trigger] members[j]).0 by {
        reveal_strlit("m");
        reveal_strlit("p");
        reveal_strlit("v");
        reveal_strlit("yourip");
        reveal_strlit("ipv6");
        reveal_strlit("ipv4");
        reveal_strlit("reqq");
        reveal_strlit("metadata_size");
        assert("m"@[0] == 'm' && "p"@[0] == 'p' && "v"@[0] == 'v');
        assert("yourip"@.len() == 6 && "metadata_size"@.len() == 13);
        assert("ipv6"@[3] == '6' && "ipv4"@[3] == '4' && "reqq"@[3] == 'q');
    }
    assert forall|k: int| 0 <= k < 8 implies last_put(members, (#[trigger] members[k]).0) == Some(
        members[k].1,
    ) by {
        last_put_at(members, k);
    }
    assert(members[0].0 == "m"@ && members[1].0 == "p"@ && members[2].0 == "v"@);
    assert(members[3].0 == "yourip"@ && members[4].0 == "ipv6"@ && members[5].0 == "ipv4"@);
    assert(members[6].0 == "reqq"@ && members[7].0 == "metadata_size"@);
}

/// What an extension handshake says reads back from its bytes.
pub proof fn extension_handshake_reads_back(handshake: ExtensionHandshakeView, more: Seq<u8>)
    requires
        plain_handshake(handshake),
    ensures
        ({
            let bytes = bencoded(extension_json(ExtensionView::Handshake(handshake)));
            &&& bytes is Ok
            &&& consumed(bytes->Ok_0 + more).0 is Ok
            &&& consumed(bytes->Ok_0 + more).1 == more
            &&& handshake_of(consumed(bytes->Ok_0 + more).0->Ok_0) == Ok::<
                ExtensionHandshakeView,
                Seq<char>,
            >(handshake)
        }),
{
    let members = handshake_members(handshake);
    lemma_handshake_names();
    object_reads_back(members, more);
    lemma_handshake_last(handshake);
    lemma_member_reads_back(members, "m"@);
    lemma_member_reads_back(members, "p"@);
    lemma_member_reads_back(members, "v"@);
    lemma_member_reads_back(members, "yourip"@);
    lemma_member_reads_back(members, "ipv6"@);
    lemma_member_reads_back(members, "ipv4"@);
    lemma_member_reads_back(members, "reqq"@);
    lemma_member_reads_back(members, "metadata_size"@);
}

/// What a metadata message says reads back from its bytes, and leaves the data that
/// follow.
pub proof fn extension_metadata_reads_back(metadata: ExtensionMetadata, more: Seq<u8>)
    requires
        metadata.msg_type <= i64::MAX,
        metadata.piece <= i64::MAX,
        metadata.total_size matches Some(size) ==> size <= i64::MAX,
    ensures
        ({
            let bytes = bencoded(Json::Object(dict_of(metadata_members(metadata))));
            &&& bytes is Ok
            &&& consumed(bytes->Ok_0 + more).0 is Ok
            &&& consumed(bytes->Ok_0 + more).1 == more
            &&& metadata_of(consumed(bytes->Ok_0 + more).0->Ok_0) == Ok::<
                ExtensionMetadata,
                Seq<char>,
            >(metadata)
        }),
{
    let members = metadata_members(metadata);
    lemma_handshake_names();
    object_reads_back(members, more);
    assert("msg_type"@.len() == 8 && "piece"@.len() == 5 && "total_size"@.len() == 10) by {
        reveal_strlit("msg_type");
        reveal_strlit("piece");
        reveal_strlit("total_size");
    }
    last_put_at(members, 0);
    last_put_at(members, 1);
    last_put_at(members, 2);
    lemma_member_reads_back(members, "msg_type"@);
    lemma_member_reads_back(members, "piece"@);
    lemma_member_reads_back(members, "total_size"@);
}

/// Whether an extension message can be read by the one who shares its names and codes:
/// its name has a code that stands for it alone, its fields are plain, and data that
/// are there are not empty.
pub open spec fn plain_extension(
    names: Seq<(Seq<char>, u8)>,
    message: ExtensionView,
) -> bool {
    &&& code_of(names, extension_name(message)) is Some
    &&& name_of(names, code_of(names, extension_name(message))->0) == Some(extension_name(message))
    &&& match message {
        ExtensionView::Handshake(handshake) => plain_handshake(handshake),
        ExtensionView::Metadata(metadata, data) => {
            &&& metadata.msg_type <= i64::MAX
            &&& metadata.piece <= i64::MAX
            &&& metadata.total_size matches Some(size) ==> size <= i64::MAX
            &&& data matches Some(data) ==> data.len() > 0
        },
    }
}

/// An extension message reads back from its bytes.
pub proof fn extension_reads_back(names: Seq<(Seq<char>, u8)>, message: ExtensionView)
    requires
        plain_extension(names, message),
    ensures
        extension_bytes(names, message) is Ok,
        extension_of(names, extension_bytes(names, message)->Ok_0) == Ok::<
            ExtensionView,
            Seq<char>,
        >(message),
{
    let code = code_of(names, extension_name(message))->0;
    let data = extension_data(message);
    reveal_strlit("handshake");
    reveal_strlit("ut_metadata");
    assert("handshake"@.len() != "ut_metadata"@.len());
    match message {
        ExtensionView::Handshake(handshake) => {
            extension_handshake_reads_back(handshake, data);
        },
        ExtensionView::Metadata(metadata, _) => {
            extension_metadata_reads_back(metadata, data);
        },
    }
    let body = bencoded(extension_json(message))->Ok_0;
    let bytes = extension_bytes(names, message)->Ok_0;
    assert(bytes.skip(1) =~= body + data);
    assert(bytes[0] == code);
}

/// Whether a message reads back from its bytes: a bitfield has whole bytes only, an
/// extension message is plain, and a handshake is read by its fixed length instead.
pub open spec fn plain_message(names: Seq<(Seq<char>, u8)>, message: MessageView) -> bool {
    match message {
        MessageView::Handshake(_) => false,
        MessageView::Bitfield(bits) => bits.len() % 8 == 0,
        MessageView::Extension(message) => plain_extension(names, message),
        _ => true,
    }
}

spec fn reads_back(names: Seq<(Seq<char>, u8)>, message: MessageView) -> bool {
    &&& message_body(names, message) is Ok
    &&& complete(message_body(names, message)->Ok_0)
    &&& message_of(names, message_body(names, message)->Ok_0) == Ok::<MessageView, Seq<char>>(
        message,
    )
}

proof fn lemma_number_message(names: Seq<(Seq<char>, u8)>, message: MessageView)
    requires
        message is Have || message is AllowFast || message is Port,
    ensures
        reads_back(names, message),
{
    lemma_be_limits();
    let bytes = message_body(names, message)->Ok_0;
    match message {
        MessageView::Have(index) | MessageView::AllowFast(index) => {
            be_bytes_read_back(index as nat, 4);
            lemma_be_bytes_len(index as nat, 4);
            assert(bytes.subrange(1, 5) =~= be_bytes(index as nat, 4));
        },
        MessageView::Port(port) => {
            be_bytes_read_back(port as nat, 2);
            lemma_be_bytes_len(port as nat, 2);
            assert(bytes.subrange(1, 3) =~= be_bytes(port as nat, 2));
        },
        _ => {},
    }
}

proof fn lemma_block_message(names: Seq<(Seq<char>, u8)>, message: MessageView)
    requires
        message is Request || message is Cancel || message is RejectRequest || message is Piece,
    ensures
        reads_back(names, message),
{
    let bytes = message_body(names, message)->Ok_0;
    match message {
        MessageView::Request(request) | MessageView::Cancel(request) | MessageView::RejectRequest(
            request,
        ) => {
            request_reads_back(request);
            assert(bytes.skip(1) =~= request_bytes(request));
        },
        MessageView::Piece(piece) => {
            piece_reads_back(piece);
            assert(bytes.skip(1) =~= piece_bytes(piece));
        },
        _ => {},
    }
}

proof fn lemma_extension_message(names: Seq<(Seq<char>, u8)>, extension: ExtensionView)
    requires
        plain_extension(names, extension),
    ensures
        reads_back(names, MessageView::Extension(extension)),
{
    extension_reads_back(names, extension);
    let body = extension_bytes(names, extension)->Ok_0;
    let bytes = message_body(names, MessageView::Extension(extension))->Ok_0;
    assert(bytes == seq![20u8] + body);
    assert(bytes.skip(1) =~= body);
    assert(bytes[0] == 20);
}

proof fn lemma_bitfield_message(names: Seq<(Seq<char>, u8)>, bits: Seq<bool>)
    requires
        bits.len() % 8 == 0,
    ensures
        reads_back(names, MessageView::Bitfield(bits)),
{
    bitfield_reads_back(bits);
    let bytes = message_body(names, MessageView::Bitfield(bits))->Ok_0;
    assert(bytes.skip(1) =~= bitfield_bytes(bits));
}

proof fn lemma_plain_message(names: Seq<(Seq<char>, u8)>, message: MessageView)
    requires
        message is Keepalive || message is Choke || message is Unchoke || message is Interested
            || message is NotInterested || message is HaveAll || message is HaveNone,
    ensures
        reads_back(names, message),
{
}

/// A message reads back from its bytes after their number.
pub proof fn message_reads_back(names: Seq<(Seq<char>, u8)>, message: MessageView)
    requires
        plain_message(names, message),
    ensures
        message_body(names, message) is Ok,
        complete(message_body(names, message)->Ok_0),
        message_of(names, message_body(names, message)->Ok_0) == Ok::<MessageView, Seq<char>>(
            message,
        ),
{
    assert(reads_back(names, message)) by {
        match message {
            MessageView::Have(_) | MessageView::AllowFast(_) | MessageView::Port(_) => {
                lemma_number_message(names, message);
            },
            MessageView::Request(_)
            | MessageView::Cancel(_)
            | MessageView::RejectRequest(_)
            | MessageView::Piece(_) => {
                lemma_block_message(names, message);
            },
            MessageView::Bitfield(bits) => {
                lemma_bitfield_message(names, bits);
            },
            MessageView::Extension(extension) => {
                lemma_extension_message(names, extension);
            },
            _ => {
                lemma_plain_message(names, message);
            },
        }
    }
}

/// The first four bytes of a message that is not a handshake tell how many follow, if
/// that number takes no more than four bytes.
pub proof fn length_reads_back(body: Seq<u8>)
    requires
        body.len() < 0x1_0000_0000,
    ensures
        with_length(body).len() == 4 + body.len(),
        be_value(with_length(body).take(4)) == body.len(),
        with_length(body).skip(4) == body,
{
    lemma_be_limits();
    be_bytes_read_back(body.len(), 4);
    lemma_be_bytes_len(body.len(), 4);
    assert(with_length(body).take(4) =~= be_bytes(body.len(), 4));
    assert(with_length(body).skip(4) =~= body);
}

} // verus!
