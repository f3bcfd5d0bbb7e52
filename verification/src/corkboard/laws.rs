//! What holds of the steps of a worker, and of the data that are collected.

use vstd::prelude::*;

use crate::corkboard::{
    after_connect, after_download, memory_data, next_unfetched, planned, BoardView, WorkerStep,
};
use crate::data_proxy::piece_of_data;
use crate::download::corkboard::peers::{is_fastest, PeerState, PeerView};
use crate::download::corkboard::{LocationView, PieceStateView, PieceView};
use crate::download::{lemma_piece_starts, piece_count};
use crate::net::SocketAddr;
use crate::util::sha1;

verus! {

/// The piece that is taken up is the first that nobody has taken up and that the peer has.
pub proof fn first_unfetched_is_taken(pieces: Seq<PieceView>, bitfield: Seq<bool>, from: int)
    requires
        0 <= from,
    ensures
        match next_unfetched(pieces, bitfield, from) {
            Some(i) => {
                &&& from <= i < pieces.len()
                &&& i < bitfield.len()
                &&& bitfield[i]
                &&& pieces[i].state is Unfetched
                &&& forall|j: int|
                    from <= j < i && bitfield[j] ==> !((#[trigger] pieces[j]).state is Unfetched)
            },
            None => forall|j: int|
                from <= j < pieces.len() && j < bitfield.len() && bitfield[j] ==> !((
                #[trigger] pieces[j]).state is Unfetched),
        },
    decreases pieces.len() - from,
{
    if from < pieces.len() && from < bitfield.len() && !(pieces[from].state is Unfetched
        && bitfield[from]) {
        first_unfetched_is_taken(pieces, bitfield, from + 1);
    }
}

/// Of the peers that are free the fastest is tried; one that has not been measured counts as
/// fast as any measure can be.
pub proof fn fastest_peer_comes_first(
    peers: Map<SocketAddr, PeerView>,
    best: SocketAddr,
    other: SocketAddr,
)
    requires
        is_fastest(peers, Some(best)),
        peers.contains_key(other),
        peers[other].state == PeerState::Fresh || peers[other].state == PeerState::Active(false),
    ensures
        peers.contains_key(best),
        peers[best].state == PeerState::Fresh || peers[best].state == PeerState::Active(false),
        peers[best].performance matches Some(most) ==> match peers[other].performance {
            Some(rate) => rate <= most,
            None => 0x7fef_ffff_ffff_ffff <= most,
        },
{
}

/// A worker stops exactly when all pieces have been fetched. It downloads over its
/// connection the first piece that is wanted and that the peer has, which is in progress
/// then, and only while the connection has been used fewer than five hundred times. It
/// connects to a peer that is free, and waits only if there is none.
pub proof fn plan_follows_board(
    board: BoardView,
    active: Option<(SocketAddr, Seq<bool>)>,
    uses: int,
    step: WorkerStep,
    after: BoardView,
)
    requires
        planned(board, active, uses, step, after),
        board.pieces.len() <= usize::MAX,
    ensures
        step == WorkerStep::Exit <==> (forall|i: int|
            0 <= i < board.pieces.len() ==> (#[trigger] board.pieces[i]).state is Fetched),
        step matches WorkerStep::Download(i) ==> {
            &&& active is Some
            &&& uses < 500
            &&& 0 <= i < board.pieces.len()
            &&& i < (active->0).1.len()
            &&& (active->0).1[i as int]
            &&& board.pieces[i as int].state is Unfetched
            &&& after.pieces[i as int].state is InProgress
            &&& forall|j: int|
                0 <= j < board.pieces.len() && j != i ==> #[trigger] after.pieces[j]
                    == board.pieces[j]
        },
        step matches WorkerStep::Connect(address) ==> after.pieces == board.pieces
            && after.peers.contains_key(address) && (after.peers[address].state == PeerState::Fresh
            || after.peers[address].state == PeerState::Active(false)),
        step == WorkerStep::Wait ==> after.pieces == board.pieces && forall|other: SocketAddr|
            #[trigger]
            after.peers.contains_key(other) ==> after.peers[other].state != PeerState::Fresh
                && after.peers[other].state != PeerState::Active(false),
{
    if let Some((address, bitfield)) = active {
        first_unfetched_is_taken(board.pieces, bitfield, 0);
    }
}

/// A connection that fails leaves the pieces alone, and the peer is not tried again. One
/// that succeeds is used for the first piece that is wanted and that the peer has; if there
/// is none, the peer is left for now.
pub proof fn connection_is_used(
    board: BoardView,
    address: SocketAddr,
    connected: Option<Seq<bool>>,
)
    requires
        board.peers.contains_key(address),
    ensures
        ({
            let (piece, after) = after_connect(board, address, connected);
            &&& connected is None ==> piece is None && after.pieces == board.pieces
                && after.peers[address].state == PeerState::Error
            &&& connected matches Some(bitfield) ==> match piece {
                Some(i) => {
                    &&& 0 <= i < board.pieces.len()
                    &&& bitfield[i]
                    &&& board.pieces[i].state is Unfetched
                    &&& after.pieces[i].state is InProgress
                    &&& after.peers[address].state == PeerState::Active(true)
                },
                None => {
                    &&& after.pieces == board.pieces
                    &&& after.peers[address].state == PeerState::Superceded
                    &&& forall|j: int|
                        0 <= j < board.pieces.len() && j < bitfield.len() && bitfield[j] ==> !((
                        #[trigger] board.pieces[j]).state is Unfetched)
                },
            }
        }),
{
    if let Some(bitfield) = connected {
        first_unfetched_is_taken(board.pieces, bitfield, 0);
    }
}

/// A download that fails leaves the piece to be fetched, and its peer is not tried again;
/// one whose data have the wrong hash leaves the piece to be fetched; one whose data have
/// the right hash is kept, and one piece fewer remains. No other piece is touched.
pub proof fn download_is_taken_in(
    board: BoardView,
    address: SocketAddr,
    piece_id: int,
    download: Option<Seq<u8>>,
    duration: usize,
    performance: u64,
)
    requires
        0 <= piece_id < board.pieces.len(),
        board.peers.contains_key(address),
    ensures
        ({
            let (after, kept) = after_download(
                board,
                address,
                piece_id,
                download,
                duration,
                performance,
            );
            &&& match download {
                None => {
                    &&& after.pieces[piece_id].state is Unfetched
                    &&& after.peers[address].state == PeerState::Error
                    &&& after.remaining_pieces == board.remaining_pieces
                    &&& !kept
                },
                Some(data) => {
                    &&& sha1(data) == board.pieces[piece_id].hash ==> after.pieces[piece_id].state
                        == PieceStateView::Fetched(LocationView::Memory(data))
                        && after.remaining_pieces == board.remaining_pieces - 1
                    &&& sha1(data) != board.pieces[piece_id].hash ==> after.pieces[piece_id].state
                        is Unfetched && after.remaining_pieces == board.remaining_pieces
                    &&& after.peers[address].performance == Some(performance)
                },
            }
            &&& after.pieces.len() == board.pieces.len()
            &&& forall|i: int|
                0 <= i < board.pieces.len() && i != piece_id ==> #[trigger] after.pieces[i]
                    == board.pieces[i]
        }),
{
}

proof fn lemma_collected(data: Seq<u8>, piece_length: int, pieces: Seq<PieceView>)
    requires
        0 < piece_length,
        pieces.len() <= piece_count(data.len() as int, piece_length),
        forall|i: int|
            0 <= i < pieces.len() ==> (#[trigger] pieces[i]).state == PieceStateView::Fetched(
                LocationView::Memory(piece_of_data(data, piece_length, i)),
            ),
    ensures
        memory_data(pieces) == data.take(
            if pieces.len() * piece_length < data.len() {
                pieces.len() * piece_length
            } else {
                data.len() as int
            },
        ),
    decreases pieces.len(),
{
    if pieces.len() == 0 {
        assert(0 * piece_length == 0) by (nonlinear_arith);
        assert(data.take(0) =~= seq![]);
    } else {
        let head = pieces.drop_last();
        let n = pieces.len() as int;
        assert forall|i: int| 0 <= i < head.len() implies (#[trigger] head[i]).state
            == PieceStateView::Fetched(
            LocationView::Memory(piece_of_data(data, piece_length, i)),
        ) by {
            assert(head[i] == pieces[i]);
        }
        lemma_collected(data, piece_length, head);
        lemma_piece_starts(data.len() as int, piece_length, n - 1);
        assert(pieces[n - 1].state == PieceStateView::Fetched(
            LocationView::Memory(piece_of_data(data, piece_length, n - 1)),
        ));
        let begin = (n - 1) * piece_length;
        assert(n * piece_length == begin + piece_length) by (nonlinear_arith)
            requires
                begin == (n - 1) * piece_length,
        ;
        let end = if data.len() - begin < piece_length {
            data.len() as int
        } else {
            begin + piece_length
        };
        assert(data.take(begin) + data.subrange(begin, end) =~= data.take(end));
    }
}

/// Pieces in memory that are those of some data are collected to these data.
pub proof fn collected_pieces_make_up_data(
    data: Seq<u8>,
    piece_length: int,
    pieces: Seq<PieceView>,
)
    requires
        0 < piece_length,
        pieces.len() == piece_count(data.len() as int, piece_length),
        forall|i: int|
            0 <= i < pieces.len() ==> (#[trigger] pieces[i]).state == PieceStateView::Fetched(
                LocationView::Memory(piece_of_data(data, piece_length, i)),
            ),
    ensures
        memory_data(pieces) == data,
{
    lemma_collected(data, piece_length, pieces);
    let count = pieces.len() as int;
    vstd::arithmetic::div_mod::lemma_fundamental_div_mod(
        data.len() + piece_length - 1,
        piece_length,
    );
    vstd::arithmetic::div_mod::lemma_mod_bound(data.len() + piece_length - 1, piece_length);
    assert(data.len() <= count * piece_length) by (nonlinear_arith)
        requires
            data.len() + piece_length - 1 < piece_length * count + piece_length,
    ;
    assert(data.take(data.len() as int) =~= data);
}

} // verus!
