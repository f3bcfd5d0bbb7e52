//! What comes of asking a peer for the chunks of a piece.

use vstd::multiset::Multiset;
use vstd::prelude::*;

use crate::collate::Block;
use crate::data_proxy::piece_of_data;
use crate::download::laws::piece_size_is_length;
use crate::download::{lemma_piece_starts, piece_count};
use crate::info::{total_length, InfoView};
use crate::peer::message::{MessageView, PieceView, RequestMessage};
use crate::peer::tcp::piece::{
    after_message, after_request, chunk_count, chunk_length, chunk_starts, chunks_make_up_piece,
    chunks_of, is_whole, next_request_of, piece_data, started, PieceDownloadView,
};
use crate::util::sha1;

verus! {

/// The chunks of a piece follow each other from its beginning to its end; none is empty,
/// none is longer than sixteen kibibytes.
pub proof fn chunks_cover_piece(size: int)
    requires
        0 < size <= u32::MAX,
    ensures
        ({
            let starts = chunk_starts(size);
            &&& starts.len() > 0
            &&& starts[0] == 0
            &&& forall|i: int|
                0 <= i < starts.len() - 1 ==> #[trigger] starts[i] + chunk_length(
                    size,
                    starts[i] as int,
                ) == starts[i + 1]
            &&& starts.last() + chunk_length(size, starts.last() as int) == size
            &&& forall|i: int|
                0 <= i < starts.len() ==> 0 < chunk_length(size, #[trigger] starts[i] as int)
                    <= 0x4000
        }),
{
    let starts = chunk_starts(size);
    assert forall|i: int| 0 <= i < starts.len() implies #[trigger] starts[i] == i * 0x4000 && i
        * 0x4000 < size by {}
}

/// The block of some data that answers a request.
pub open spec fn block_asked_for(data: Seq<u8>, request: RequestMessage) -> Block {
    (request.begin, data.subrange(request.begin as int, request.begin + request.length))
}

/// The download of a piece that has just begun.
pub open spec fn begun(piece_id: u32, size: u32) -> PieceDownloadView {
    PieceDownloadView {
        piece_id,
        chunk_size: size,
        chunks: chunk_starts(size as int),
        total_chunks: chunk_count(size as int) as nat,
        blocks: seq![],
        in_flight: 0,
        rejections: 0,
        choked: false,
    }
}

/// The request for the chunk that begins at a place.
pub open spec fn request_at(piece_id: u32, size: u32, begin: u32) -> RequestMessage {
    RequestMessage { index: piece_id, begin, length: chunk_length(size as int, begin as int) as u32 }
}

/// Whether all chunks of the data are still to be asked for, on the way, or have arrived,
/// each once.
pub open spec fn none_is_lost(
    state: PieceDownloadView,
    on_the_way: Multiset<Block>,
    data: Seq<u8>,
) -> bool {
    &&& state.chunk_size == data.len()
    &&& to_ask_for(state, data).to_multiset().add(on_the_way).add(state.blocks.to_multiset())
        =~= chunks_of(data).to_multiset()
}

/// The blocks that are still to be asked for.
pub open spec fn to_ask_for(state: PieceDownloadView, data: Seq<u8>) -> Seq<Block> {
    state.chunks.map_values(
        |begin: u32| block_asked_for(data, request_at(state.piece_id, state.chunk_size, begin)),
    )
}

/// A download that begins has all chunks to ask for.
pub proof fn nothing_is_lost_at_first(piece_id: u32, data: Seq<u8>)
    requires
        data.len() <= u32::MAX,
    ensures
        none_is_lost(begun(piece_id, data.len() as u32), Multiset::empty(), data),
{
    broadcast use vstd::seq_lib::group_to_multiset_ensures;

    let state = begun(piece_id, data.len() as u32);
    assert(to_ask_for(state, data) =~= chunks_of(data));
    assert(state.blocks.to_multiset() =~= Multiset::empty());
}

/// Each request is for the piece and for one chunk that was to be asked for, all of it,
/// which is on the way then.
pub proof fn request_puts_on_the_way(
    state: PieceDownloadView,
    on_the_way: Multiset<Block>,
    data: Seq<u8>,
)
    requires
        none_is_lost(state, on_the_way, data),
        next_request_of(state) is Some,
    ensures
        next_request_of(state)->0.index == state.piece_id,
        chunks_of(data).contains(block_asked_for(data, next_request_of(state)->0)),
        none_is_lost(
            after_request(state),
            on_the_way.insert(block_asked_for(data, next_request_of(state)->0)),
            data,
        ),
{
    broadcast use vstd::seq_lib::group_to_multiset_ensures;

    let next = after_request(state);
    let request = next_request_of(state)->0;
    let block = block_asked_for(data, request);
    let before = to_ask_for(state, data);
    let after = to_ask_for(next, data);
    assert(before[0] == block);
    assert(after =~= before.drop_first());
    assert(before =~= seq![block] + after);
    vstd::seq_lib::lemma_multiset_commutative(seq![block], after);
    assert(seq![block].to_multiset() =~= Multiset::singleton(block)) by {
        assert(seq![block] =~= Seq::<Block>::empty().push(block));
    }
    assert(before.to_multiset() =~= after.to_multiset().insert(block));
    let all = chunks_of(data).to_multiset();
    assert(before.to_multiset().count(block) > 0);
    assert(all.count(block) > 0);
    assert(next.blocks == state.blocks);
}

/// The data that answer a request arrive.
pub proof fn answer_arrives(
    state: PieceDownloadView,
    on_the_way: Multiset<Block>,
    data: Seq<u8>,
    request: RequestMessage,
)
    requires
        none_is_lost(state, on_the_way, data),
        on_the_way.count(block_asked_for(data, request)) > 0,
    ensures
        ({
            let block = block_asked_for(data, request);
            let next = after_message(
                state,
                MessageView::Piece(
                    PieceView { index: request.index, begin: request.begin, block: block.1 },
                ),
            );
            &&& none_is_lost(next, on_the_way.remove(block), data)
            &&& next.in_flight == state.in_flight - 1
        }),
{
    broadcast use vstd::seq_lib::group_to_multiset_ensures;

    let block = block_asked_for(data, request);
    let next = after_message(
        state,
        MessageView::Piece(
            PieceView { index: request.index, begin: request.begin, block: block.1 },
        ),
    );
    assert(to_ask_for(next, data) =~= to_ask_for(state, data));
    assert(next.blocks.to_multiset() =~= state.blocks.to_multiset().insert(block));
}

/// A chunk that the peer refuses is to be asked for again.
pub proof fn refused_chunk_is_asked_for_again(
    state: PieceDownloadView,
    on_the_way: Multiset<Block>,
    data: Seq<u8>,
    request: RequestMessage,
)
    requires
        none_is_lost(state, on_the_way, data),
        on_the_way.count(block_asked_for(data, request)) > 0,
        request == request_at(state.piece_id, state.chunk_size, request.begin),
    ensures
        ({
            let next = after_message(state, MessageView::RejectRequest(request));
            &&& none_is_lost(next, on_the_way.remove(block_asked_for(data, request)), data)
            &&& next.chunks.contains(request.begin)
            &&& next.in_flight == state.in_flight - 1
        }),
{
    broadcast use vstd::seq_lib::group_to_multiset_ensures;

    let block = block_asked_for(data, request);
    let next = after_message(state, MessageView::RejectRequest(request));
    assert(to_ask_for(next, data) =~= to_ask_for(state, data).push(block));
    assert(next.chunks.last() == request.begin);
}

/// Once nothing is on the way and nothing is to be asked for, the blocks make up the piece,
/// in whatever order they were asked for and arrived.
pub proof fn piece_has_arrived(state: PieceDownloadView, data: Seq<u8>)
    requires
        data.len() <= u32::MAX,
        none_is_lost(state, Multiset::empty(), data),
        state.chunks.len() == 0,
    ensures
        piece_data(state.blocks, sha1(data)) == Ok::<Seq<u8>, Seq<char>>(data),
{
    broadcast use vstd::seq_lib::group_to_multiset_ensures;

    assert(to_ask_for(state, data) =~= seq![]);
    assert(state.blocks.to_multiset() =~= chunks_of(data).to_multiset());
    chunks_make_up_piece(data, state.blocks, sha1(data));
}

/// The download after a peer that has the data has answered some requests, each before the
/// next was sent.
pub open spec fn answered_in_turn(
    state: PieceDownloadView,
    data: Seq<u8>,
    answers: nat,
) -> PieceDownloadView
    decreases answers,
{
    match next_request_of(state) {
        Some(request) if answers > 0 => {
            let block = block_asked_for(data, request);
            answered_in_turn(
                after_message(
                    after_request(state),
                    MessageView::Piece(
                        PieceView { index: request.index, begin: request.begin, block: block.1 },
                    ),
                ),
                data,
                (answers - 1) as nat,
            )
        },
        _ => state,
    }
}

proof fn lemma_answered(state: PieceDownloadView, data: Seq<u8>)
    requires
        none_is_lost(state, Multiset::empty(), data),
        state.in_flight == 0,
        !state.choked,
        data.len() <= u32::MAX,
    ensures
        ({
            let end = answered_in_turn(state, data, state.chunks.len());
            &&& end.chunks.len() == 0
            &&& none_is_lost(end, Multiset::empty(), data)
            &&& end.blocks.len() == state.blocks.len() + state.chunks.len()
            &&& end.total_chunks == state.total_chunks
        }),
    decreases state.chunks.len(),
{
    if state.chunks.len() > 0 {
        let request = next_request_of(state)->0;
        let block = block_asked_for(data, request);
        let asked = after_request(state);
        request_puts_on_the_way(state, Multiset::empty(), data);
        let on_the_way = Multiset::empty().insert(block);
        answer_arrives(asked, on_the_way, data, request);
        assert(on_the_way.remove(block) =~= Multiset::empty());
        let next = after_message(
            asked,
            MessageView::Piece(
                PieceView { index: request.index, begin: request.begin, block: block.1 },
            ),
        );
        lemma_answered(next, data);
    }
}

/// A peer that answers each request with the data that it asks for is asked for the whole
/// piece: as many requests as there are chunks, and the download has the data.
pub proof fn piece_is_fetched(piece_id: u32, data: Seq<u8>)
    requires
        data.len() <= u32::MAX,
    ensures
        ({
            let start = begun(piece_id, data.len() as u32);
            let end = answered_in_turn(start, data, start.chunks.len());
            &&& end.blocks.len() == end.total_chunks
            &&& next_request_of(end) is None
            &&& piece_data(end.blocks, sha1(data)) == Ok::<Seq<u8>, Seq<char>>(data)
        }),
{
    let start = begun(piece_id, data.len() as u32);
    nothing_is_lost_at_first(piece_id, data);
    lemma_answered(start, data);
    let end = answered_in_turn(start, data, start.chunks.len());
    piece_has_arrived(end, data);
}

/// A peer that takes no requests is sent none, nor is one that owes four answers; a peer
/// that takes them and owes fewer is sent one while any chunk is to be asked for.
pub proof fn requests_wait_for_peer(state: PieceDownloadView)
    ensures
        state.choked ==> next_request_of(state) is None,
        state.in_flight >= 4 ==> next_request_of(state) is None,
        !state.choked && state.in_flight < 4 && state.chunks.len() > 0 ==> next_request_of(state)
            is Some,
        after_message(state, MessageView::Choke).choked,
        !after_message(state, MessageView::Unchoke).choked,
{
}

/// The download of a piece of a torrent starts with the chunks of that piece, which is as
/// long as the data have bytes in it; a peer that has the data gives the piece.
pub proof fn piece_of_torrent_is_fetched(info: InfoView, data: Seq<u8>, piece_id: u32)
    requires
        total_length(info.file_info) == data.len(),
        0 < info.piece_length < 0x1_0000_0000,
        piece_id < piece_count(data.len() as int, info.piece_length),
    ensures
        ({
            let piece = piece_of_data(data, info.piece_length, piece_id as int);
            let start = started(info, piece_id, false);
            let end = answered_in_turn(start, piece, start.chunks.len());
            &&& start.piece_id == piece_id
            &&& start.chunk_size == piece.len()
            &&& started(info, piece_id, true).choked
            &&& is_whole(end)
            &&& next_request_of(end) is None
            &&& piece_data(end.blocks, sha1(piece)) == Ok::<Seq<u8>, Seq<char>>(piece)
        }),
{
    let piece = piece_of_data(data, info.piece_length, piece_id as int);
    piece_size_is_length(data, info.piece_length, piece_id as int);
    lemma_piece_starts(data.len() as int, info.piece_length, piece_id as int);
    assert(piece.len() <= u32::MAX);
    assert(started(info, piece_id, false) == begun(piece_id, piece.len() as u32));
    piece_is_fetched(piece_id, piece);
}

} // verus!
