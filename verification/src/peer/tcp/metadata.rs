//! What comes of asking a peer for the info dictionary.

use vstd::prelude::*;

use crate::bencode::ingested;
use crate::info::{info_of, InfoView, MetaInfoView};
use crate::peer::message::extension::{ExtensionMetadata, ExtensionView};
use crate::peer::message::MessageView;
use crate::net::IpAddr;
use crate::magnet::MagnetView;
use crate::peer::tcp::{
    handshake_codes, opened_meta_info, opening_at_first, opening_step, OpeningView,
};
use crate::torrent_source::SourceView;

verus! {

/// The number of the part that a message asks for, if it asks for one.
pub open spec fn part_asked_for(message: MessageView) -> Option<int> {
    match message {
        MessageView::Extension(ExtensionView::Metadata(metadata, None)) => if metadata.msg_type == 0
            && metadata.total_size is None {
            Some(metadata.piece as int)
        } else {
            None
        },
        _ => None,
    }
}

/// The message that brings a part of an info dictionary of some size.
pub open spec fn part_message(part: Seq<u8>, number: int, total: int) -> MessageView {
    MessageView::Extension(
        ExtensionView::Metadata(
            ExtensionMetadata {
                msg_type: 1,
                piece: number as usize,
                total_size: Some(total as usize),
            },
            Some(part),
        ),
    )
}

/// Whether an info dictionary can come in these parts: there is one, none is empty, and
/// their number and size are a machine's.
pub open spec fn are_parts(parts: Seq<Seq<u8>>) -> bool {
    &&& 0 < parts.len() <= usize::MAX
    &&& parts.flatten().len() <= usize::MAX
    &&& forall|i: int| 0 <= i < parts.len() ==> (#[trigger] parts[i]).len() > 0
}

proof fn lemma_taken(parts: Seq<Seq<u8>>, n: int)
    requires
        are_parts(parts),
        0 <= n <= parts.len(),
    ensures
        parts.take(n).flatten().len() <= parts.flatten().len(),
        parts.take(n).flatten().len() == parts.flatten().len() <==> n == parts.len(),
    decreases parts.len() - n,
{
    if n == parts.len() {
        assert(parts.take(n) =~= parts);
    } else {
        lemma_taken(parts, n + 1);
        let more = parts.take(n + 1);
        more.lemma_flatten_and_flatten_alt_are_equivalent();
        parts.take(n).lemma_flatten_and_flatten_alt_are_equivalent();
        assert(more.drop_last() =~= parts.take(n));
        assert(more.last() == parts[n]);
        assert(parts[n].len() > 0);
    }
}

/// While the parts that have arrived are shorter than the info dictionary, one part is
/// asked for, the first that has not arrived; nothing more is once they are as long.
pub proof fn next_part_is_asked_for(state: OpeningView, part: Seq<u8>, number: usize, total: usize)
    requires
        state.sent_initial_metadata_request,
        state.meta_info_pieces.len() < usize::MAX,
    ensures
        ({
            let arrived = state.meta_info_pieces.push(part);
            let (next, sent, progress) = opening_step(
                state,
                part_message(part, number as int, total as int),
            );
            &&& next.meta_info_pieces == arrived
            &&& arrived.flatten().len() < total ==> sent.len() >= 1 && part_asked_for(sent[0])
                == Some(arrived.len() as int)
            &&& arrived.flatten().len() < total ==> next.meta_info_acquired
                == state.meta_info_acquired
            &&& arrived.flatten().len() >= total ==> next.meta_info_acquired
            &&& forall|i: int|
                0 <= i < sent.len() && !(i == 0 && arrived.flatten().len() < total)
                    ==> part_asked_for(#[trigger] sent[i]) is None
        }),
{
}

/// The first part is asked for when the peer's extension handshake has come.
pub proof fn first_part_is_asked_for(state: OpeningView, message: MessageView)
    requires
        state.meta_info is None,
        !state.sent_initial_metadata_request,
        message matches MessageView::Extension(ExtensionView::Handshake(handshake))
            && handshake_codes(
            match handshake.messages {
                Some(pairs) => pairs,
                None => seq![],
            },
        ) is Ok,
    ensures
        ({
            let (next, sent, progress) = opening_step(state, message);
            &&& sent.len() >= 1
            &&& part_asked_for(sent[0]) == Some(0int)
            &&& next.sent_initial_metadata_request
            &&& next.meta_info_pieces == state.meta_info_pieces
            &&& next.meta_info is None
        }),
{
}

/// The state after a peer that has an info dictionary in some parts has been asked for one
/// of them, and has answered that request and the ones that its answers led to, up to a
/// number of answers.
pub open spec fn answered(
    state: OpeningView,
    parts: Seq<Seq<u8>>,
    asked: int,
    answers: nat,
) -> OpeningView
    decreases answers,
{
    if answers == 0 || !(0 <= asked < parts.len()) {
        state
    } else {
        let (next, sent, progress) = opening_step(
            state,
            part_message(parts[asked], asked, parts.flatten().len() as int),
        );
        if sent.len() > 0 && part_asked_for(sent[0]) is Some {
            answered(next, parts, part_asked_for(sent[0])->0, (answers - 1) as nat)
        } else {
            next
        }
    }
}

proof fn lemma_answered(state: OpeningView, parts: Seq<Seq<u8>>, asked: int)
    requires
        are_parts(parts),
        0 <= asked < parts.len(),
        state.sent_initial_metadata_request,
        state.meta_info_pieces == parts.take(asked),
        state.meta_info is None,
    ensures
        ({
            let end = answered(state, parts, asked, (parts.len() - asked) as nat);
            &&& end.meta_info_pieces == parts
            &&& end.meta_info_acquired
            &&& end.meta_info is None
        }),
    decreases parts.len() - asked,
{
    let total = parts.flatten().len();
    let (next, sent, progress) = opening_step(
        state,
        part_message(parts[asked], asked, total as int),
    );
    next_part_is_asked_for(state, parts[asked], asked as usize, total as usize);
    assert(state.meta_info_pieces.push(parts[asked]) =~= parts.take(asked + 1));
    lemma_taken(parts, asked + 1);
    if asked + 1 < parts.len() {
        lemma_answered(next, parts, asked + 1);
    } else {
        assert(parts.take(asked + 1) =~= parts);
    }
}

/// A peer that answers each request with the part that is asked for is asked for all parts
/// of the info dictionary, however many: they are the dictionary then, and it is read.
pub proof fn dictionary_is_fetched(state: OpeningView, parts: Seq<Seq<u8>>)
    requires
        are_parts(parts),
        state.sent_initial_metadata_request,
        state.meta_info_pieces.len() == 0,
        state.meta_info is None,
    ensures
        ({
            let end = answered(state, parts, 0, parts.len());
            &&& end.meta_info_acquired
            &&& end.meta_info_pieces.flatten() == parts.flatten()
            &&& forall|info: InfoView|
                ingested(parts.flatten()).0 is Ok && info_of(ingested(parts.flatten()).0->Ok_0)
                    == Ok::<_, Seq<char>>(info) ==> opened_meta_info(end) == Ok::<_, Seq<char>>(
                    #[trigger] no_trackers(info),
                )
        }),
{
    assert(state.meta_info_pieces =~= parts.take(0));
    lemma_answered(state, parts, 0);
}

/// The metainfo of a torrent without trackers.
pub open spec fn no_trackers(info: InfoView) -> MetaInfoView {
    MetaInfoView { announce_list: seq![], info }
}

/// A connection for a link that gives a hash knows nothing at first; one for a torrent whose
/// metainfo is known keeps it, and asks for no part of the info dictionary.
pub proof fn known_dictionary_is_not_asked_for(
    source: SourceView,
    ip: IpAddr,
    message: MessageView,
)
    ensures
        ({
            let first = opening_at_first(source, ip);
            let (next, sent, progress) = opening_step(first, message);
            &&& first.bitfield_source is None
            &&& first.choked
            &&& source matches SourceView::Magnet(_) ==> first.meta_info is None
                && !first.meta_info_acquired && first.meta_info_pieces.len() == 0
                && !first.sent_initial_metadata_request
            &&& source matches SourceView::File(meta_info) ==> {
                &&& first.meta_info_acquired
                &&& opened_meta_info(next) == Ok::<_, Seq<char>>(meta_info)
                &&& part_asked_for(message) is None && !(message matches MessageView::Extension(
                    ExtensionView::Metadata(_, _),
                )) ==> forall|i: int|
                    0 <= i < sent.len() ==> part_asked_for(#[trigger] sent[i]) is None
            }
        }),
{
}

/// For a link that gives a hash, the info dictionary is fetched from a peer that answers the
/// requests which its extension handshake leads to, and it is the dictionary that the peer
/// has.
pub proof fn dictionary_of_link_is_fetched(
    magnet: MagnetView,
    ip: IpAddr,
    handshake: MessageView,
    parts: Seq<Seq<u8>>,
)
    requires
        are_parts(parts),
        handshake matches MessageView::Extension(ExtensionView::Handshake(handshake))
            && handshake_codes(
            match handshake.messages {
                Some(pairs) => pairs,
                None => seq![],
            },
        ) is Ok,
    ensures
        ({
            let first = opening_at_first(SourceView::Magnet(magnet), ip);
            let (state, sent, progress) = opening_step(first, handshake);
            let end = answered(state, parts, part_asked_for(sent[0])->0, parts.len());
            &&& sent.len() >= 1
            &&& part_asked_for(sent[0]) is Some
            &&& end.meta_info_acquired
            &&& end.meta_info_pieces.flatten() == parts.flatten()
        }),
{
    let first = opening_at_first(SourceView::Magnet(magnet), ip);
    first_part_is_asked_for(first, handshake);
    let (state, sent, progress) = opening_step(first, handshake);
    dictionary_is_fetched(state, parts);
}

} // verus!
