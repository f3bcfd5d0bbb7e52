//! What holds of every connection.

use vstd::prelude::*;

use crate::be::be_value;
use crate::peer::message::laws::{handshake_reads_back, length_reads_back};
use crate::peer::message::{handshake_bytes, with_length, HandshakeView, MessageView};
use crate::bencode::encode::{bencoded, bytes_of_text, is_b64};
use crate::decode::laws::plain_string;
use crate::json::{member, Json};
use crate::keymap::{dict_of, lookup_with_entry};
use crate::net::IpAddr;
use crate::peer::message::extension::{
    extension_json, handshake_members, ExtensionHandshakeView, ExtensionView,
};
use crate::handshake::{plain_handshake_bytes, plain_handshake_for};
use crate::peer::message::extension::{code_of, name_of};
use crate::peer::message::handshake_for;
use crate::torrent_source::{source_hash, SourceView};
use crate::peer::message::layout::{
    all_codes_are_taken_in, first_listed_counts, handshake_layout, plain_handshake_layout,
};
use crate::peer::message::laws::{lemma_handshake_names, lemma_short_name, object_is_written};
use crate::peer::tcp::{
    announced_length, asks_for_metadata, first_bits, handshake_config, handshake_head, is_open,
    metadata_request, opening_step, our_handshake, reaction, supported_codes, BitsView, OpeningView,
};

verus! {

/// A handshake is recognised by its first four bytes.
pub proof fn handshake_is_announced(handshake: HandshakeView)
    requires
        handshake.info_hash.len() == 20,
        handshake.peer_id.len() == 20,
    ensures
        announced_length(handshake_bytes(handshake).take(4)) is None,
        handshake_bytes(handshake).len() == 4 + crate::peer::tcp::HANDSHAKE_REST,
{
    handshake_reads_back(handshake);
    assert(handshake_bytes(handshake).take(4) == handshake_head());
}

/// Any other message announces its length, unless its length is the number that the
/// first four bytes of a handshake write.
pub proof fn length_is_announced(body: Seq<u8>)
    requires
        body.len() < 0x1_0000_0000,
        body.len() != be_value(handshake_head()),
    ensures
        announced_length(with_length(body).take(4)) == Some(body.len()),
        with_length(body).skip(4) == body,
{
    length_reads_back(body);
}

/// A step opens the connection exactly when it tells the peer so, last of all; it does
/// so only with the peer's pieces and the metainfo known.
pub proof fn open_when_interested(state: OpeningView, message: MessageView)
    ensures
        ({
            let (next, sent, progress) = opening_step(state, message);
            &&& progress is Done == (sent.len() > 0 && sent.last() == MessageView::Interested)
            &&& progress is Done ==> is_open(next)
            &&& progress is Continue ==> !is_open(next)
        }),
{
    reveal_strlit("Peer has no data");
}

/// The info dictionary is asked for by its first part once, after the peer's extension
/// handshake, and only where it was not known beforehand.
pub proof fn first_part_asked_once(state: OpeningView, message: MessageView)
    requires
        state.meta_info_pieces.len() < usize::MAX,
    ensures
        ({
            let (next, sent, progress) = opening_step(state, message);
            &&& state.sent_initial_metadata_request ==> next.sent_initial_metadata_request
            &&& sent.contains(metadata_request(0)) && !(progress is Failed)
                ==> !state.sent_initial_metadata_request && next.sent_initial_metadata_request
                && next.received_extension_handshake && state.meta_info is None
        }),
{
    let (next, sent, progress) = opening_step(state, message);
    if sent.contains(metadata_request(0)) && !(progress is Failed) {
        let (reacted, first, failure) = reaction(state, message);
        let i = choose|i: int| 0 <= i < sent.len() && sent[i] == metadata_request(0);
        assert(i < first.len() ==> first[i] == sent[i]);
        if !asks_for_metadata(reacted) {
            assert(i < first.len());
            assert(first.len() == 1);
            assert(false);
        }
    }
}

/// A step keeps the metainfo that was known, the address, and all parts of the info
/// dictionary that have arrived.
pub proof fn step_keeps(state: OpeningView, message: MessageView)
    ensures
        ({
            let (next, sent, progress) = opening_step(state, message);
            &&& next.meta_info == state.meta_info
            &&& next.ip == state.ip
            &&& state.meta_info_acquired ==> next.meta_info_acquired
            &&& state.bitfield_source is Some ==> next.bitfield_source is Some
            &&& state.meta_info_pieces.is_prefix_of(next.meta_info_pieces)
            &&& next.meta_info_pieces.len() <= state.meta_info_pieces.len() + 1
        }),
{
}

proof fn lemma_config_is_written()
    ensures
        bencoded(Json::Object(handshake_config())) is Ok,
{
    let codes = seq![("ut_metadata"@, Json::Number(2))];
    assert(plain_string("ut_metadata"@)) by {
        reveal_strlit("ut_metadata");
        lemma_short_name("ut_metadata"@);
    }
    object_is_written(codes);
    assert(codes.drop_last() =~= seq![]);
    assert(dict_of(codes.drop_last()) == Seq::<(Seq<u8>, Json)>::empty());
}

proof fn lemma_version_is_plain()
    ensures
        !is_b64("MaurdekyeBitTorrent/1.0.0"@),
{
    reveal_strlit("MaurdekyeBitTorrent/1.0.0");
    reveal_strlit("base64:");
    assert("MaurdekyeBitTorrent/1.0.0"@.take(7)[0] == 'M');
}

/// The extension handshake that is sent to a peer can be written if the address in it can.
pub proof fn our_handshake_is_written(ip: IpAddr)
    requires
        bytes_of_text(our_handshake(ip).yourip->0) is Ok,
    ensures
        bencoded(extension_json(ExtensionView::Handshake(our_handshake(ip)))) is Ok,
{
    let members = handshake_members(our_handshake(ip));
    lemma_handshake_names();
    lemma_config_is_written();
    lemma_version_is_plain();
    assert(bencoded(members[0].1) is Ok);
    assert(members[1].1 is Null);
    assert(bencoded(members[2].1) is Ok);
    assert(bencoded(members[3].1) is Ok);
    assert(members[4].1 is Null);
    assert(members[5].1 is Null);
    assert(bencoded(members[6].1) is Ok);
    assert(members[7].1 is Null);
    object_is_written(members);
}

/// Of the pieces that a peer tells of, the first ones that the torrent has are kept as the
/// peer told; a peer that has everything has all of them.
pub proof fn bits_are_kept(bits: Seq<bool>, n: nat, i: int)
    ensures
        first_bits(BitsView::Bits(bits), n).len() == if bits.len() < n {
            bits.len()
        } else {
            n
        },
        0 <= i < n && i < bits.len() ==> first_bits(BitsView::Bits(bits), n)[i] == bits[i],
        first_bits(BitsView::All, n).len() == n,
        0 <= i < n ==> first_bits(BitsView::All, n)[i],
{
}

/// What a peer tells is taken in: which pieces it has, that it has all, that it takes
/// requests or does not. A peer that has nothing is told so and given up.
pub proof fn news_are_taken_in(state: OpeningView, bits: Seq<bool>)
    ensures
        opening_step(state, MessageView::Bitfield(bits)).0.bitfield_source == Some(
            BitsView::Bits(bits),
        ),
        opening_step(state, MessageView::HaveAll).0.bitfield_source == Some(BitsView::All),
        opening_step(state, MessageView::HaveNone).2 is Failed,
        opening_step(state, MessageView::HaveNone).1.contains(MessageView::NotInterested),
        opening_step(state, MessageView::Choke).0.choked,
        !opening_step(state, MessageView::Unchoke).0.choked,
{
    let sent = opening_step(state, MessageView::HaveNone).1;
    assert(sent[0] == MessageView::NotInterested);
}

/// Other messages change nothing of that.
pub proof fn other_messages_tell_nothing(state: OpeningView, message: MessageView)
    ensures
        !(message is Choke) && !(message is Unchoke) ==> opening_step(state, message).0.choked
            == state.choked,
        !(message is Bitfield) && !(message is HaveAll) ==> opening_step(
            state,
            message,
        ).0.bitfield_source == state.bitfield_source,
{
}

/// The connection is open as soon as the peer's pieces and the info dictionary are known,
/// and not before.
pub proof fn open_as_soon_as_known(state: OpeningView, message: MessageView)
    ensures
        ({
            let (next, sent, progress) = opening_step(state, message);
            !(progress is Failed) ==> (progress is Done == (next.bitfield_source is Some
                && next.meta_info_acquired))
        }),
{
}

/// The codes that a peer names in its extension handshake are the ones that it is written to
/// with, all of them.
pub proof fn codes_of_peer_are_used(
    state: OpeningView,
    handshake: ExtensionHandshakeView,
    pairs: Seq<(Seq<u8>, Json)>,
    codes: Seq<u8>,
    i: int,
)
    requires
        handshake.messages == Some(pairs),
        pairs.len() == codes.len(),
        forall|j: int|
            0 <= j < pairs.len() ==> (#[trigger] pairs[j]).1 == Json::Number(codes[j] as int),
        0 <= i < pairs.len(),
    ensures
        ({
            let next = opening_step(
                state,
                MessageView::Extension(ExtensionView::Handshake(handshake)),
            ).0;
            &&& next.received_extension_handshake
            &&& next.decoder.contains((vstd::utf8::decode_utf8(pairs[i].0), codes[i]))
            &&& next.decoder.contains(("handshake"@, 0u8))
        }),
{
    all_codes_are_taken_in(pairs, codes);
    let next = opening_step(
        state,
        MessageView::Extension(ExtensionView::Handshake(handshake)),
    ).0;
    assert(next.decoder[i + 1] == (vstd::utf8::decode_utf8(pairs[i].0), codes[i]));
    assert(next.decoder[0] == ("handshake"@, 0u8));
}

/// A peer's handshake is answered with an extension handshake, which offers the exchange of
/// the info dictionary under code two.
pub proof fn handshake_is_answered(state: OpeningView, handshake: HandshakeView)
    ensures
        ({
            let sent = opening_step(state, MessageView::Handshake(handshake)).1;
            &&& sent.len() >= 1
            &&& sent[0] matches MessageView::Extension(ExtensionView::Handshake(ours))
                && ours.messages matches Some(pairs) && member(pairs, "ut_metadata"@) == Some(
                Json::Number(2),
            )
        }),
{
    lookup_with_entry(
        Seq::<(Seq<u8>, Json)>::empty(),
        vstd::utf8::encode_utf8("ut_metadata"@),
        Json::Number(2),
        vstd::utf8::encode_utf8("ut_metadata"@),
    );
}

/// The code that our extension handshake offers for the exchange of the info dictionary is
/// the one under which such messages are read.
pub proof fn offered_code_is_read(ip: IpAddr)
    ensures
        code_of(supported_codes(), "ut_metadata"@) matches Some(code) && name_of(
            supported_codes(),
            code,
        ) == Some("ut_metadata"@) && (our_handshake(ip).messages matches Some(pairs) && member(
            pairs,
            "ut_metadata"@,
        ) == Some(Json::Number(code as int))),
{
    first_listed_counts(supported_codes(), 0);
    lookup_with_entry(
        Seq::<(Seq<u8>, Json)>::empty(),
        vstd::utf8::encode_utf8("ut_metadata"@),
        Json::Number(2),
        vstd::utf8::encode_utf8("ut_metadata"@),
    );
}

/// A handshake names the torrent by its info hash and us by our peer id.
pub proof fn handshake_names_torrent(source: SourceView, peer_id: Seq<char>)
    requires
        source_hash(source).len() == 20,
        vstd::utf8::encode_utf8(peer_id).len() == 20,
    ensures
        ({
            let bytes = handshake_bytes(handshake_for(source, peer_id));
            &&& bytes.len() == 68
            &&& bytes.subrange(28, 48) == source_hash(source)
            &&& bytes.subrange(48, 68) == vstd::utf8::encode_utf8(peer_id)
        }),
        source matches SourceView::File(meta_info) ==> {
            let bytes = plain_handshake_bytes(plain_handshake_for(meta_info, peer_id));
            &&& bytes.len() == 68
            &&& bytes.subrange(28, 48) == source_hash(source)
            &&& bytes.subrange(48, 68) == vstd::utf8::encode_utf8(peer_id)
        },
{
    handshake_layout(handshake_for(source, peer_id));
    if let SourceView::File(meta_info) = source {
        plain_handshake_layout(plain_handshake_for(meta_info, peer_id));
    }
}

} // verus!
