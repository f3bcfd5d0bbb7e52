//! What holds of the pieces that workers save, and of the order in which they go about it.

use vstd::prelude::*;

use crate::download::corkboard::peer_locator::capped_wait;
use crate::download::corkboard::peers::{
    available, is_best, refreshed, with_benchmark, with_state, Benchmark, PeerState, PeerView,
};
use crate::download::corkboard::seeder::{answer_to, fetched_bits, seeder_step, SeederStepView};
use crate::download::corkboard::watchdog::with_found_peer;
use crate::download::corkboard::worker::{
    after_choice, after_connected, after_failing, after_saved, delay_of, finalized, may_take,
    next_piece, piece_file, searched, LoopActionView, PeerSearchResult,
};
use crate::download::corkboard::{
    locations, unfetched_pieces, BoardView, LocationView, PieceStateView, PieceView,
};
use crate::info::{total_length, MetaInfoView};
use crate::net::SocketAddr;
use crate::peer::message::{MessageView, RequestMessage};
use crate::text::{decimal_nat, decimal_nat_reads_back, unsigned_of_text};
use crate::util::sha1;

verus! {

/// The name of the file for a piece tells the piece: between `piece-` and `.dat` it is the
/// piece's number.
pub proof fn piece_file_tells_piece(piece_id: nat)
    ensures
        ({
            let name = piece_file(piece_id);
            &&& name.len() > 10
            &&& name.take(6) == "piece-"@
            &&& name.skip(name.len() - 4) == ".dat"@
            &&& unsigned_of_text(name.subrange(6, name.len() - 4)) == Some(piece_id as int)
        }),
{
    reveal_strlit("piece-");
    reveal_strlit(".dat");
    let name = piece_file(piece_id);
    let digits = decimal_nat(piece_id);
    decimal_nat_reads_back(piece_id);
    assert(digits.len() > 0);
    assert(name.take(6) =~= "piece-"@);
    assert(name.skip(name.len() - 4) =~= ".dat"@);
    assert(name.subrange(6, name.len() - 4) =~= digits);
    assert(crate::text::is_digit(digits[0]));
}

/// Different pieces have files of different names.
pub proof fn piece_files_differ(a: nat, b: nat)
    requires
        a != b,
    ensures
        piece_file(a) != piece_file(b),
{
    piece_file_tells_piece(a);
    piece_file_tells_piece(b);
}

/// What a worker saves are the data that it has downloaded, which have the hash of the
/// piece, under the name that tells the piece.
pub proof fn saved_data_have_hash(
    board: BoardView,
    address: SocketAddr,
    piece_id: int,
    download: Option<Seq<u8>>,
    duration: usize,
    performance: u64,
)
    ensures
        finalized(board, address, piece_id, download, duration, performance).1 matches
            LoopActionView::Save(name, data) ==> {
            &&& 0 <= piece_id < board.pieces.len()
            &&& download == Some(data)
            &&& sha1(data) == board.pieces[piece_id].hash
            &&& name.take(6) == "piece-"@
            &&& name.skip(name.len() - 4) == ".dat"@
            &&& unsigned_of_text(name.subrange(6, name.len() - 4)) == Some(piece_id)
        },
{
    if 0 <= piece_id {
        piece_file_tells_piece(piece_id as nat);
    }
}

/// Whether the files in a directory hold some pieces, each under its name, and each with
/// the hash that it should have.
pub open spec fn holds_pieces(
    files: Map<Seq<char>, Seq<u8>>,
    hashes: Seq<Seq<u8>>,
    pieces: Set<int>,
) -> bool {
    forall|i: int| #[trigger]
        pieces.contains(i) ==> 0 <= i < hashes.len() && files.contains_key(piece_file(i as nat))
            && sha1(files[piece_file(i as nat)]) == hashes[i]
}

/// To save a piece leaves the other pieces in the directory as they are: all of them, and
/// the one that was saved, have the hashes that they should have.
pub proof fn saving_keeps_pieces(
    files: Map<Seq<char>, Seq<u8>>,
    pieces: Set<int>,
    board: BoardView,
    address: SocketAddr,
    piece_id: int,
    download: Option<Seq<u8>>,
    duration: usize,
    performance: u64,
)
    requires
        holds_pieces(files, board.pieces.map_values(|piece: PieceView|
            piece.hash), pieces),
        finalized(board, address, piece_id, download, duration, performance).1 is Save,
    ensures
        ({
            let action = finalized(board, address, piece_id, download, duration, performance).1;
            let hashes = board.pieces.map_values(
                |piece: PieceView| piece.hash,
            );
            let after = files.insert(action->Save_0, action->Save_1);
            &&& holds_pieces(after, hashes, pieces.insert(piece_id))
            &&& forall|i: int|
                pieces.contains(i) && i != piece_id ==> #[trigger] after[piece_file(i as nat)]
                    == files[piece_file(i as nat)]
        }),
{
    let (name, data) = match finalized(
        board,
        address,
        piece_id,
        download,
        duration,
        performance,
    ).1 {
        LoopActionView::Save(name, data) => (name, data),
        _ => (seq![], seq![]),
    };
    saved_data_have_hash(board, address, piece_id, download, duration, performance);
    let after = files.insert(name, data);
    assert(name == piece_file(piece_id as nat));
    assert forall|i: int| pieces.contains(i) && i != piece_id implies #[trigger] after[piece_file(
        i as nat,
    )] == files[piece_file(i as nat)] by {
        piece_files_differ(i as nat, piece_id as nat);
    }
}

/// A download that fails leaves the piece to be fetched, and its peer is not tried again.
/// One whose data have the wrong hash leaves the piece to be fetched. One whose data have
/// the right hash is kept in memory if the torrent has no more than fifty mebibytes, else
/// it is to be saved.
pub proof fn download_is_taken_in(
    board: BoardView,
    address: SocketAddr,
    piece_id: int,
    download: Option<Seq<u8>>,
    duration: usize,
    performance: u64,
)
    requires
        0 <= piece_id < board.pieces.len(),
        board.peers.contains_key(address),
    ensures
        ({
            let (after, action) = finalized(
                board,
                address,
                piece_id,
                download,
                duration,
                performance,
            );
            match download {
                None => {
                    &&& after.pieces[piece_id].state is Unfetched
                    &&& after.peers[address].state == PeerState::Error
                    &&& action is SeverThenContinue
                },
                Some(data) => {
                    &&& sha1(data) != board.pieces[piece_id].hash ==> after.pieces[piece_id].state
                        is Unfetched && action is Continue
                    &&& sha1(data) == board.pieces[piece_id].hash && total_length(
                        board.meta_info.info.file_info,
                    ) <= 52_428_800 ==> after.pieces[piece_id].state == PieceStateView::Fetched(
                        LocationView::Memory(data),
                    ) && action is Pass
                    &&& sha1(data) == board.pieces[piece_id].hash && total_length(
                        board.meta_info.info.file_info,
                    ) > 52_428_800 ==> (action matches LoopActionView::Save(_, saved) && saved
                        == data && after.pieces == board.pieces)
                    &&& after.peers[address].performance == Some(performance)
                    &&& after.peers[address].benchmarks.len()
                        == board.peers[address].benchmarks.len() + 1
                },
            }
        }),
{
}

/// A download changes nothing of other pieces, nor of other peers, nor of any hash.
pub proof fn download_leaves_others_alone(
    board: BoardView,
    address: SocketAddr,
    piece_id: int,
    download: Option<Seq<u8>>,
    duration: usize,
    performance: u64,
)
    ensures
        ({
            let after = finalized(board, address, piece_id, download, duration, performance).0;
            &&& after.pieces.len() == board.pieces.len()
            &&& after.meta_info == board.meta_info
            &&& after.finishing == board.finishing
            &&& forall|i: int|
                0 <= i < board.pieces.len() ==> (#[trigger] after.pieces[i]).hash
                    == board.pieces[i].hash
            &&& forall|i: int|
                0 <= i < board.pieces.len() && i != piece_id ==> #[trigger] after.pieces[i]
                    == board.pieces[i]
            &&& after.peers.dom() == board.peers.dom()
            &&& forall|other: SocketAddr|
                other != address && board.peers.contains_key(other) ==> #[trigger] after.peers[other]
                    == board.peers[other]
        }),
{
    let after = finalized(board, address, piece_id, download, duration, performance).0;
    assert(after.peers.dom() =~= board.peers.dom());
}

/// A piece that has been saved is where it was saved, and no other piece is anywhere else
/// than before.
pub proof fn saved_piece_is_found(board: BoardView, piece_id: int, path: Seq<char>, other: int)
    requires
        0 <= piece_id < board.pieces.len(),
        0 <= other < board.pieces.len(),
    ensures
        after_saved(board, piece_id, path).pieces[piece_id].state == PieceStateView::Fetched(
            LocationView::Disk(path),
        ),
        other != piece_id ==> after_saved(board, piece_id, path).pieces[other]
            == board.pieces[other],
        after_saved(board, piece_id, path).peers == board.peers,
{
}

/// The piece that is taken up is in progress then, and no other is touched; a peer that has
/// none to take up is not looked at again for now.
pub proof fn choice_is_noted(board: BoardView, address: SocketAddr, piece_id: int, other: int)
    requires
        0 <= piece_id < board.pieces.len(),
        0 <= other < board.pieces.len(),
        board.peers.contains_key(address),
    ensures
        after_choice(board, address, Some(piece_id)).pieces[piece_id].state is InProgress,
        other != piece_id ==> after_choice(board, address, Some(piece_id)).pieces[other]
            == board.pieces[other],
        after_choice(board, address, Some(piece_id)).peers == board.peers,
        after_choice(board, address, None).pieces == board.pieces,
        after_choice(board, address, None).peers[address].state == PeerState::Superceded,
{
}

/// Of the pieces that a peer has, the first that nobody has taken up is taken up; only when
/// every piece has been taken up, the first that is in progress.
pub proof fn first_wanted_piece_is_taken(pieces: Seq<PieceView>, bitfield: Seq<bool>)
    ensures
        match next_piece(pieces, bitfield, 0) {
            Some(i) => {
                &&& 0 <= i < pieces.len()
                &&& i < bitfield.len()
                &&& bitfield[i]
                &&& pieces[i].state is Unfetched || pieces[i].state is InProgress
                &&& pieces[i].state is InProgress ==> forall|j: int|
                    0 <= j < pieces.len() ==> !((#[trigger] pieces[j]).state is Unfetched)
                &&& forall|j: int|
                    0 <= j < i && bitfield[j] ==> (#[trigger] pieces[j]).state
                        != pieces[i].state
            },
            None => {
                &&& forall|j: int|
                    0 <= j < pieces.len() && j < bitfield.len() && bitfield[j] ==> !((
                    #[trigger] pieces[j]).state is Unfetched)
                &&& (forall|j: int|
                    0 <= j < pieces.len() ==> !((#[trigger] pieces[j]).state is Unfetched)) ==> (
                forall|j: int|
                    0 <= j < pieces.len() && j < bitfield.len() && bitfield[j] ==> !((
                    #[trigger] pieces[j]).state is InProgress))
            },
        },
{
    lemma_first_wanted(pieces, bitfield, 0);
}

proof fn lemma_first_wanted(pieces: Seq<PieceView>, bitfield: Seq<bool>, from: int)
    requires
        0 <= from,
    ensures
        match next_piece(pieces, bitfield, from) {
            Some(i) => from <= i < pieces.len() && i < bitfield.len() && bitfield[i] && may_take(
                pieces,
                i,
            ) && forall|j: int|
                from <= j < i && bitfield[j] ==> !may_take(pieces, j),
            None => forall|j: int|
                from <= j < pieces.len() && j < bitfield.len() && bitfield[j] ==> !may_take(
                    pieces,
                    j,
                ),
        },
    decreases pieces.len() - from,
{
    if from < pieces.len() && from < bitfield.len() && !(may_take(pieces, from)
        && bitfield[from]) {
        lemma_first_wanted(pieces, bitfield, from + 1);
    }
}

/// The peer that is tried next is fresh, or was used and is not claimed. It is the fastest
/// of those that have been measured; only if none has been, the one with the fewest
/// attempts.
pub proof fn best_peer_comes_first(
    peers: Map<SocketAddr, PeerView>,
    best: SocketAddr,
    other: SocketAddr,
)
    requires
        is_best(peers, Some(best)),
        peers.contains_key(other),
        peers[other].state == PeerState::Fresh || peers[other].state == PeerState::Active(false),
    ensures
        peers.contains_key(best),
        peers[best].state == PeerState::Fresh || peers[best].state == PeerState::Active(false),
        peers[other].performance matches Some(rate) ==> peers[best].performance matches Some(most)
            && most >= rate,
        peers[best].performance is None && peers[other].performance is None
            ==> peers[best].connection_attempts <= peers[other].connection_attempts,
{
}

/// If there is a peer that is fresh, or was used and is not claimed, one is found.
pub proof fn some_peer_is_found(
    peers: Map<SocketAddr, PeerView>,
    found: Option<SocketAddr>,
    other: SocketAddr,
)
    requires
        is_best(peers, found),
        peers.contains_key(other),
    ensures
        found is None ==> peers[other].state != PeerState::Fresh && peers[other].state
            != PeerState::Active(false),
{
}

/// A worker that looks for a peer stops if all pieces are there or the download is being
/// finished, and only then. It goes on with its connection while the peer is still in use
/// and has been used fewer than five hundred times. Without a connection it takes a peer
/// that is free, which it marks, or waits a second if there is none.
pub proof fn search_follows_board(
    board: BoardView,
    active: Option<SocketAddr>,
    uses: int,
    result: PeerSearchResult,
    after: BoardView,
)
    requires
        searched(board, active, uses, result, after),
    ensures
        result == PeerSearchResult::Exit <==> board.finishing || (forall|i: int|
            0 <= i < board.pieces.len() ==> (#[trigger] board.pieces[i]).state is Fetched),
        after.pieces == board.pieces,
        result == PeerSearchResult::Reuse ==> uses < 500 && after == board,
        result != PeerSearchResult::Exit && active is Some && uses >= 500 ==> result
            == PeerSearchResult::SeverThenRefetch || result == PeerSearchResult::PromptRefetch,
        result matches PeerSearchResult::ConnectNew(address) ==> {
            &&& active is None
            &&& board.peers.contains_key(address)
            &&& board.peers[address].state == PeerState::Fresh || board.peers[address].state
                == PeerState::Active(false)
            &&& after.peers[address].state == PeerState::Connecting
            &&& after.peers[address].connection_attempts
                == board.peers[address].connection_attempts + 1
            &&& forall|other: SocketAddr|
                other != address ==> (after.peers.contains_key(other) == board.peers.contains_key(
                    other,
                )) && (board.peers.contains_key(other) ==> #[trigger] after.peers[other]
                    == board.peers[other])
        },
        result matches PeerSearchResult::WaitThenRefetch(millis) ==> active is None && millis
            == 1000 && (forall|other: SocketAddr| #[trigger]
            board.peers.contains_key(other) ==> board.peers[other].state != PeerState::Fresh
                && board.peers[other].state != PeerState::Active(false)),
{
}

/// A peer that another worker has claimed is not taken, and a peer that a worker has taken
/// is not taken by another.
pub proof fn no_peer_is_taken_twice(
    board: BoardView,
    first: SocketAddr,
    between: BoardView,
    second: SocketAddr,
    after: BoardView,
    uses: int,
)
    requires
        searched(board, None, uses, PeerSearchResult::ConnectNew(first), between),
        searched(between, None, uses, PeerSearchResult::ConnectNew(second), after),
    ensures
        first != second,
{
}

/// A peer that has been found is on the board with no attempts counted. It is fresh, unless
/// it is being connected to, in use, or has failed; what was measured of it stays. No other
/// peer is touched.
pub proof fn found_peer_is_on_board(board: BoardView, address: SocketAddr, other: SocketAddr)
    ensures
        ({
            let after = with_found_peer(board, address);
            &&& after.peers.contains_key(address)
            &&& after.peers[address].connection_attempts == 0
            &&& !board.peers.contains_key(address) ==> after.peers[address].state
                == PeerState::Fresh && after.peers[address].performance is None
                && after.peers[address].benchmarks.len() == 0
            &&& board.peers.contains_key(address) ==> {
                let before = board.peers[address];
                &&& after.peers[address].performance == before.performance
                &&& after.peers[address].benchmarks == before.benchmarks
                &&& before.state == PeerState::Inactive || before.state == PeerState::Superceded
                    || before.state == PeerState::Active(false) ==> after.peers[address].state
                    == PeerState::Fresh
                &&& before.state == PeerState::Error || before.state == PeerState::Active(true)
                    || before.state == PeerState::Connecting ==> after.peers[address].state
                    == before.state
            }
            &&& other != address ==> (after.peers.contains_key(other)
                == board.peers.contains_key(other)) && (board.peers.contains_key(other)
                ==> after.peers[other] == board.peers[other])
            &&& after.pieces == board.pieces
        }),
{
}

/// To mark a peer changes its state and nothing else; to note a download adds what was
/// measured and changes nothing else.
pub proof fn marks_change_one_peer(
    peers: Map<SocketAddr, PeerView>,
    address: SocketAddr,
    other: SocketAddr,
    state: PeerState,
    benchmark: Benchmark,
    performance: u64,
)
    requires
        peers.contains_key(address),
        peers.contains_key(other),
        other != address,
    ensures
        with_state(peers, address, state)[address] == (PeerView { state, ..peers[address] }),
        with_state(peers, address, state)[other] == peers[other],
        with_state(peers, address, state).dom() == peers.dom(),
        with_benchmark(peers, address, benchmark, performance)[address].benchmarks
            == peers[address].benchmarks.push(benchmark),
        with_benchmark(peers, address, benchmark, performance)[address].performance == Some(
            performance,
        ),
        with_benchmark(peers, address, benchmark, performance)[address].state
            == peers[address].state,
        with_benchmark(peers, address, benchmark, performance)[other] == peers[other],
{
    assert(with_state(peers, address, state).dom() =~= peers.dom());
}

/// After a tracker has given a list, the peers on it are fresh but for those that failed,
/// and the others are not used; no peer comes or goes, and what was measured stays.
pub proof fn listed_peers_are_fresh(
    peers: Map<SocketAddr, PeerView>,
    listed: Seq<SocketAddr>,
    address: SocketAddr,
)
    requires
        peers.contains_key(address),
    ensures
        refreshed(peers, listed).dom() == peers.dom(),
        listed.contains(address) && peers[address].state != PeerState::Error ==> refreshed(
            peers,
            listed,
        )[address].state == PeerState::Fresh,
        !listed.contains(address) || peers[address].state == PeerState::Error ==> refreshed(
            peers,
            listed,
        )[address].state == PeerState::Inactive,
        refreshed(peers, listed)[address].performance == peers[address].performance,
        refreshed(peers, listed)[address].benchmarks == peers[address].benchmarks,
{
    assert(refreshed(peers, listed).dom() =~= peers.dom());
}

/// A peer is told of the pieces that have been fetched, and of no others.
pub proof fn fetched_pieces_are_told(pieces: Seq<PieceView>, i: int)
    requires
        0 <= i < pieces.len(),
    ensures
        fetched_bits(pieces).len() == pieces.len(),
        fetched_bits(pieces)[i] <==> pieces[i].state is Fetched,
{
}

/// A peer that has shown interest is served any piece that has been fetched, from where the
/// piece is; it is refused any other. A peer that has not is served nothing.
pub proof fn fetched_pieces_are_served(
    pieces: Seq<PieceView>,
    request: RequestMessage,
    address: Seq<char>,
)
    ensures
        request.index < pieces.len() ==> (pieces[request.index as int].state matches
            PieceStateView::Fetched(location) ==> seeder_step(
            pieces,
            true,
            MessageView::Request(request),
            address,
        ) == (SeederStepView::Serve(request, location), true)),
        request.index >= pieces.len() || !(pieces[request.index as int].state is Fetched)
            ==> seeder_step(pieces, true, MessageView::Request(request), address).0 is Fail,
        seeder_step(pieces, false, MessageView::Request(request), address) == (
            SeederStepView::Ignore,
            false,
        ),
        seeder_step(pieces, false, MessageView::Interested, address) == (
            SeederStepView::Unchoke,
            true,
        ),
        seeder_step(pieces, false, MessageView::NotInterested, address).0 is Fail,
{
}

/// A request within a piece is answered with the bytes that it names, as many as it names;
/// the answer names the piece and the place. A request beyond its end is refused.
pub proof fn answer_has_the_bytes(data: Seq<u8>, request: RequestMessage)
    ensures
        request.begin + request.length <= data.len() ==> (answer_to(data, request) matches Ok(
            MessageView::Piece(piece),
        ) && piece.index == request.index && piece.begin == request.begin && piece.block.len()
            == request.length && (forall|k: int|
            0 <= k < request.length ==> #[trigger] piece.block[k] == data[request.begin + k])),
        request.begin + request.length > data.len() ==> answer_to(data, request) is Err,
{
}

/// What is handed over is where each piece is, in the order of the pieces, once all have
/// been fetched; before that nothing is.
pub proof fn pieces_are_handed_over(pieces: Seq<PieceView>)
    ensures
        locations(pieces) matches Ok(list) ==> list.len() == pieces.len() && forall|i: int|
            0 <= i < pieces.len() ==> (#[trigger] pieces[i]).state == PieceStateView::Fetched(
                list[i],
            ),
        (exists|i: int| 0 <= i < pieces.len() && !((#[trigger] pieces[i]).state is Fetched))
            <==> locations(pieces) is Err,
{
    if let Ok(list) = locations(pieces) {
        assert forall|i: int| 0 <= i < pieces.len() implies (#[trigger] pieces[i]).state
            == PieceStateView::Fetched(list[i]) by {
            assert(pieces[i].state is Fetched);
        }
    }
}

/// A tracker is left alone as long as it asks for, but no longer than two minutes.
pub proof fn wait_is_bounded(millis: u64)
    ensures
        capped_wait(Some(millis)) matches Some(wait) && wait <= millis && wait <= 120_000 && (wait
            == millis || wait == 120_000),
        capped_wait(None) is None,
{
}

/// A peer that has been connected to is in use, and no other worker takes it.
pub proof fn connected_peer_is_claimed(
    board: BoardView,
    address: SocketAddr,
    uses: int,
    result: PeerSearchResult,
    after: BoardView,
)
    requires
        board.peers.contains_key(address),
        searched(after_connected(board, address), None, uses, result, after),
    ensures
        after_connected(board, address).peers[address].state == PeerState::Active(true),
        after_connected(board, address).pieces == board.pieces,
        result != PeerSearchResult::ConnectNew(address),
{
}

/// A peer that could not be connected to may be tried again; its attempts stay counted, and
/// nothing else changes.
pub proof fn failed_peer_may_be_tried_again(
    board: BoardView,
    address: SocketAddr,
    other: SocketAddr,
)
    requires
        board.peers.contains_key(address),
    ensures
        available(after_failing(board, address).peers[address]),
        after_failing(board, address).peers[address].connection_attempts
            == board.peers[address].connection_attempts,
        after_failing(board, address).pieces == board.pieces,
        other != address && board.peers.contains_key(other) ==> after_failing(
            board,
            address,
        ).peers[other] == board.peers[other],
{
}

/// Workers start one after the other, a second apart, the first at once.
pub proof fn workers_start_in_turn(worker_id: int)
    ensures
        delay_of(0) == 0,
        delay_of(worker_id + 1) == delay_of(worker_id) + 1000,
{
}

/// A board begins with every piece that the metainfo names, under its hash, and none of them
/// fetched.
pub proof fn all_pieces_are_wanted_at_first(hashes: Seq<Seq<u8>>, i: int)
    requires
        0 <= i < hashes.len(),
    ensures
        unfetched_pieces(hashes).len() == hashes.len(),
        unfetched_pieces(hashes)[i].hash == hashes[i],
        unfetched_pieces(hashes)[i].state is Unfetched,
{
}

/// Metainfo that a peer gives is kept if none is known.
pub proof fn first_metainfo_is_kept(found: MetaInfoView, known: Option<MetaInfoView>)
    ensures
        crate::download::corkboard::metadata_retriever::after_connected(known, Some(found)).1
            == Some(
            match known {
                Some(first) => first,
                None => found,
            },
        ),
        crate::download::corkboard::metadata_retriever::after_connected(known, None).1 == known,
{
}

} // verus!
