//! Workers, which connect to peers and download pieces from them.

use vstd::prelude::*;

use crate::download::corkboard::watchdog::with_found_peer;
use crate::download::corkboard::peers::{
    is_best, with_benchmark, with_state, Benchmark, PeerState, PeerView,
};
use crate::download::corkboard::{
    all_fetched, sound, with_piece_state, BoardView, Corkboard, LocationView, PieceLocation,
    PieceState, PieceStateView, PieceView,
};
use crate::info::total_length;
use crate::net::SocketAddr;
use crate::text::{decimal_nat, push_decimal, same_bytes};
use crate::util::{sha1, sha1_hash};

verus! {

/// maximum number of time a given peer can be reused before it should be dropped
pub const MAX_PEER_USES: usize = 500;

/// time to wait before next check if no peers are available to take (milliseconds)
pub const EMPTY_PEER_WAIT: u64 = 1_000;

/// maximum total torrent size before pieces are saved to disk as opposed to being cached
/// in memory (bytes)
pub const MAX_MEMORY_SIZE: usize = 52_428_800;

/// What a worker does about a peer.
#[derive(Clone, Copy, Debug, PartialEq, Eq, Structural)]
pub enum PeerSearchResult {
    ConnectNew(SocketAddr),
    /// go on with the connection that there is
    Reuse,
    /// look again after some milliseconds
    WaitThenRefetch(u64),
    /// drop the connection, look again at once
    PromptRefetch,
    /// sever the connection, look again at once
    SeverThenRefetch,
    Exit,
}

/// Whether there is nothing left to do.
pub open spec fn is_finishing(board: BoardView) -> bool {
    board.finishing || all_fetched(board.pieces)
}

/// What looking for a peer comes to, and what it does to the board.
pub open spec fn searched(
    board: BoardView,
    active: Option<SocketAddr>,
    uses: int,
    result: PeerSearchResult,
    after: BoardView,
) -> bool {
    if is_finishing(board) {
        &&& result == PeerSearchResult::Exit
        &&& after == (BoardView {
            finishing: true,
            peers: match active {
                Some(address) => with_state(board.peers, address, PeerState::Active(false)),
                None => board.peers,
            },
            ..board
        })
    } else {
        match active {
            Some(address) => {
                let state = board.peers[address].state;
                if state == PeerState::Inactive || state == PeerState::Fresh {
                    result == PeerSearchResult::PromptRefetch && after == board
                } else if uses >= MAX_PEER_USES {
                    result == PeerSearchResult::SeverThenRefetch && after == (BoardView {
                        peers: with_state(board.peers, address, PeerState::Active(false)),
                        ..board
                    })
                } else {
                    result == PeerSearchResult::Reuse && after == board
                }
            },
            None => match result {
                PeerSearchResult::ConnectNew(address) => is_best(board.peers, Some(address))
                    && after == (BoardView {
                    peers: board.peers.insert(
                        address,
                        PeerView {
                            state: PeerState::Connecting,
                            connection_attempts: board.peers[address].connection_attempts + 1,
                            ..board.peers[address]
                        },
                    ),
                    ..board
                }),
                PeerSearchResult::WaitThenRefetch(millis) => millis == EMPTY_PEER_WAIT && is_best(
                    board.peers,
                    None,
                ) && after == board,
                _ => false,
            },
        }
    }
}

/// Whether a peer can be looked for: the one that is connected to is on the board, or else
/// attempts to connect can still be counted.
pub open spec fn searchable(board: BoardView, active: Option<SocketAddr>) -> bool {
    is_finishing(board) || match active {
        Some(address) => board.peers.contains_key(address),
        None => attempts_countable(board),
    }
}

/// Whether attempts to connect can still be counted.
pub open spec fn attempts_countable(board: BoardView) -> bool {
    forall|address: SocketAddr| #[trigger]
        board.peers.contains_key(address) ==> board.peers[address].connection_attempts < usize::MAX
}

/// * check if all pieces are downloaded
/// * review existing peer to see if it's okay to reuse or not
/// * find a new peer that's ready to be connected to if there is no existing peer
pub fn search_for_peer(board: &mut Corkboard, active: Option<SocketAddr>, uses: usize) -> (result:
    PeerSearchResult)
    requires
        searchable(old(board)@, active),
    ensures
        searched(old(board)@, active, uses as int, result, final(board)@),
{
    // If all pieces have been acquired, exit
    if board.finishing || board.is_complete() {
        if let Some(address) = active {
            board.peers.set_state(address, PeerState::Active(false));
        }
        board.finishing = true;
        return PeerSearchResult::Exit;
    }
    match active {
        // review existing peer connection
        Some(address) => {
            let state = match board.peers.get(address) {
                Some(peer) => peer.state,
                None => PeerState::Inactive,
            };
            if state == PeerState::Inactive || state == PeerState::Fresh {
                // existing peer is deactivated or refreshed: drop the connection and pick up a
                // new one
                PeerSearchResult::PromptRefetch
            } else if uses >= MAX_PEER_USES {
                // peer has been reused too many times, drop it and find another peer
                board.peers.set_state(address, PeerState::Active(false));
                PeerSearchResult::SeverThenRefetch
            } else {
                // existing peer is fine to reuse
                PeerSearchResult::Reuse
            }
        },
        // find a new peer
        None => match board.peers.best_available() {
            // if a peer was found, mark it as connecting
            Some(address) => {
                if let Some(peer) = board.peers.get(address) {
                    let mut copy = peer.clone();
                    copy.connection_attempts = copy.connection_attempts + 1;
                    copy.state = PeerState::Connecting;
                    board.peers.set(address, copy);
                }
                PeerSearchResult::ConnectNew(address)
            },
            // if no peer was found, wait a bit and try again
            None => PeerSearchResult::WaitThenRefetch(EMPTY_PEER_WAIT),
        },
    }
}

/// Whether no piece is left that nobody has taken up.
pub open spec fn none_unfetched(pieces: Seq<PieceView>) -> bool {
    forall|i: int| 0 <= i < pieces.len() ==> !((#[trigger] pieces[i]).state is Unfetched)
}

/// Whether a piece may be taken up: while there are pieces that nobody has taken up, one of
/// those; after that, one that is in progress, so that the last few are fetched sooner.
pub open spec fn may_take(pieces: Seq<PieceView>, i: int) -> bool {
    if none_unfetched(pieces) {
        pieces[i].state is InProgress
    } else {
        pieces[i].state is Unfetched
    }
}

/// The first of the pieces from a place on that may be taken up and that a peer has.
pub open spec fn next_piece(pieces: Seq<PieceView>, bitfield: Seq<bool>, from: int) -> Option<int>
    decreases pieces.len() - from,
{
    if !(0 <= from < pieces.len() && from < bitfield.len()) {
        None
    } else if may_take(pieces, from) && bitfield[from] {
        Some(from)
    } else {
        next_piece(pieces, bitfield, from + 1)
    }
}

/// The board after a piece has been taken up from a peer, or the peer has been found to
/// have none that may be.
pub open spec fn after_choice(
    board: BoardView,
    address: SocketAddr,
    chosen: Option<int>,
) -> BoardView {
    match chosen {
        Some(piece_id) => BoardView {
            pieces: with_piece_state(board.pieces, piece_id, PieceStateView::InProgress),
            ..board
        },
        None => BoardView {
            peers: with_state(board.peers, address, PeerState::Superceded),
            ..board
        },
    }
}

/// * attempt to find a new piece to download
pub fn find_next_piece(board: &mut Corkboard, address: SocketAddr, bitfield: &Vec<bool>) -> (
piece_id: Option<usize>)
    ensures
        match piece_id {
            Some(piece_id) => next_piece(old(board)@.pieces, bitfield@, 0) == Some(
                piece_id as int,
            ) && final(board)@ == after_choice(old(board)@, address, Some(piece_id as int)),
            None => next_piece(old(board)@.pieces, bitfield@, 0) is None && final(board)@
                == after_choice(old(board)@, address, None),
        },
{
    let ghost pieces = board@.pieces;
    let mut taken_up = true;
    let mut i: usize = 0;
    while i < board.pieces.len()
        invariant
            0 <= i <= board.pieces.len(),
            pieces == board@.pieces,
            taken_up == (forall|j: int|
                0 <= j < i ==> !((#[trigger] pieces[j]).state is Unfetched)),
        decreases board.pieces.len() - i,
    {
        assert(pieces[i as int] == board.pieces@[i as int]@);
        if board.pieces[i].is_unfetched() {
            taken_up = false;
        }
        i = i + 1;
    }
    assert(taken_up == none_unfetched(pieces));
    let mut found: Option<usize> = None;
    let mut i: usize = 0;
    while i < board.pieces.len() && i < bitfield.len() && found.is_none()
        invariant
            0 <= i <= board.pieces.len(),
            pieces == board@.pieces,
            taken_up == none_unfetched(pieces),
            match found {
                Some(at) => next_piece(pieces, bitfield@, 0) == Some(at as int),
                None => next_piece(pieces, bitfield@, 0) == next_piece(
                    pieces,
                    bitfield@,
                    i as int,
                ),
            },
        decreases board.pieces.len() - i,
    {
        assert(pieces[i as int] == board.pieces@[i as int]@);
        // once there are no unfetched pieces left to acquire, in progress pieces become fair
        // game for other workers to pick up
        let may = if taken_up {
            board.pieces[i].is_in_progress()
        } else {
            board.pieces[i].is_unfetched()
        };
        if may && bitfield[i] {
            found = Some(i);
        }
        i = i + 1;
    }
    match found {
        // if piece was found, mark it as in progress
        Some(piece_id) => {
            board.set_piece_state(piece_id, PieceState::InProgress);
        },
        // if no piece was found, mark peer as superceded and try again
        None => {
            board.peers.set_state(address, PeerState::Superceded);
        },
    }
    found
}

/// What a worker does after a download.
#[derive(Debug)]
pub enum LoopAction {
    /// look for a peer again, without the connection
    Continue,
    /// sever the connection, look for a peer again
    SeverThenContinue,
    /// keep the connection
    Pass,
    /// write the data to a file of that name, and note where it is
    Save(String, Vec<u8>),
}

/// What a `LoopAction` says.
pub enum LoopActionView {
    Continue,
    SeverThenContinue,
    Pass,
    Save(Seq<char>, Seq<u8>),
}

impl View for LoopAction {
    type V = LoopActionView;

    open spec fn view(&self) -> LoopActionView {
        match self {
            LoopAction::Continue => LoopActionView::Continue,
            LoopAction::SeverThenContinue => LoopActionView::SeverThenContinue,
            LoopAction::Pass => LoopActionView::Pass,
            LoopAction::Save(name, data) => LoopActionView::Save(name@, data@),
        }
    }
}

/// The name of the file for a piece.
pub open spec fn piece_file(piece_id: nat) -> Seq<char> {
    "piece-"@ + decimal_nat(piece_id) + ".dat"@
}

/// What a download comes to: what it does to the board, and what the worker does next.
pub open spec fn finalized(
    board: BoardView,
    address: SocketAddr,
    piece_id: int,
    download: Option<Seq<u8>>,
    duration: usize,
    performance: u64,
) -> (BoardView, LoopActionView) {
    match download {
        None => (
            BoardView {
                peers: with_state(board.peers, address, PeerState::Error),
                pieces: with_piece_state(board.pieces, piece_id, PieceStateView::Unfetched),
                ..board
            },
            LoopActionView::SeverThenContinue,
        ),
        Some(data) => {
            let noted = BoardView {
                peers: with_benchmark(
                    board.peers,
                    address,
                    Benchmark { bytes: data.len() as usize, duration_millis: duration },
                    performance,
                ),
                ..board
            };
            if !(0 <= piece_id < board.pieces.len()) {
                (noted, LoopActionView::Continue)
            } else if board.pieces[piece_id].hash != sha1(data) {
                (
                    BoardView {
                        pieces: with_piece_state(
                            board.pieces,
                            piece_id,
                            PieceStateView::Unfetched,
                        ),
                        ..noted
                    },
                    LoopActionView::Continue,
                )
            } else if total_length(board.meta_info.info.file_info) > MAX_MEMORY_SIZE {
                (
                    BoardView { checked: board.checked.insert(piece_id), ..noted },
                    LoopActionView::Save(piece_file(piece_id as nat), data),
                )
            } else {
                (
                    BoardView {
                        pieces: with_piece_state(
                            board.pieces,
                            piece_id,
                            PieceStateView::Fetched(LocationView::Memory(data)),
                        ),
                        checked: board.checked.insert(piece_id),
                        ..noted
                    },
                    LoopActionView::Pass,
                )
            }
        },
    }
}

/// * check the download result
/// * update the peer's performance statistics
/// * check the downloaded data's hash
/// * store the downloaded data
pub fn finalize_download(
    board: &mut Corkboard,
    address: SocketAddr,
    piece_id: usize,
    download: Option<Vec<u8>>,
    duration: usize,
    performance: u64,
) -> (action: LoopAction)
    requires
        download is Some ==> total_length(old(board)@.meta_info.info.file_info) <= usize::MAX,
    ensures
        (final(board)@, action@) == finalized(
            old(board)@,
            address,
            piece_id as int,
            match download {
                Some(data) => Some(data@),
                None => None,
            },
            duration,
            performance,
        ),
{
    match download {
        // download failed
        None => {
            // mark peer as errored & sever connection
            board.peers.set_state(address, PeerState::Error);
            // mark piece as unfetched
            board.set_piece_state(piece_id, PieceState::Unfetched);
            // try again
            LoopAction::SeverThenContinue
        },
        // download succeeded
        Some(data) => {
            // update peer performance
            board.peers.add_benchmark(
                address,
                Benchmark { bytes: data.len(), duration_millis: duration },
                performance,
            );
            // check hash
            let should_save_to_disk = board.meta_info.length() > MAX_MEMORY_SIZE;
            if piece_id >= board.pieces.len() {
                return LoopAction::Continue;
            }
            assert(board@.pieces[piece_id as int] == board.pieces@[piece_id as int]@);
            let hash = sha1_hash(data.as_slice());
            if same_bytes(board.pieces[piece_id].hash.as_slice(), hash.as_slice()) {
                // if hash matches, store data & keep peer for next loop
                board.checked = Ghost(board.checked@.insert(piece_id as int));
                if should_save_to_disk {
                    let mut name = "piece-".to_string();
                    push_decimal(&mut name, piece_id as u128);
                    name.append(".dat");
                    LoopAction::Save(name, data)
                } else {
                    board.set_piece_state(
                        piece_id,
                        PieceState::Fetched(PieceLocation::Memory(data)),
                    );
                    LoopAction::Pass
                }
            } else {
                // if hash does not match, mark piece as unfetched
                board.set_piece_state(piece_id, PieceState::Unfetched);
                LoopAction::Continue
            }
        },
    }
}

/// The board after a piece has been written to a file.
pub open spec fn after_saved(board: BoardView, piece_id: int, path: Seq<char>) -> BoardView {
    BoardView {
        pieces: with_piece_state(
            board.pieces,
            piece_id,
            PieceStateView::Fetched(LocationView::Disk(path)),
        ),
        ..board
    }
}

/// Note where a piece has been saved.
fn note_saved(board: &mut Corkboard, piece_id: usize, path: String)
    ensures
        final(board)@ == after_saved(old(board)@, piece_id as int, path@),
{
    board.set_piece_state(piece_id, PieceState::Fetched(PieceLocation::Disk(path)));
}

/// The board after a peer has been connected to.
pub open spec fn after_connected(board: BoardView, address: SocketAddr) -> BoardView {
    BoardView { peers: with_state(board.peers, address, PeerState::Active(true)), ..board }
}

/// The board after a peer could not be connected to.
pub open spec fn after_failing(board: BoardView, address: SocketAddr) -> BoardView {
    BoardView { peers: with_state(board.peers, address, PeerState::Active(false)), ..board }
}

/// How long a worker waits before it starts (milliseconds).
pub open spec fn delay_of(worker_id: int) -> int {
    worker_id * 1000
}

/// What a worker keeps between downloads.
#[derive(Debug)]
pub struct Worker {
    /// the peer that it is connected to
    pub active: Option<SocketAddr>,
    /// how many pieces it has downloaded over that connection
    pub uses: usize,
    /// the piece whose data passed the hash check and are being saved
    pub saving: Option<usize>,
}

impl Worker {
    pub fn new() -> (worker: Self)
        ensures
            worker.active is None,
            worker.uses == 0,
            worker.saving is None,
    {
        Worker { active: None, uses: 0, saving: None }
    }

    /// How long a worker waits before it starts (milliseconds), to prevent thrashing.
    pub fn startup_delay(worker_id: usize) -> (millis: u64)
        requires
            worker_id * 1000 <= usize::MAX,
        ensures
            millis == delay_of(worker_id as int),
    {
        (worker_id * 1000) as u64
    }

    /// Whether a peer can be looked for: the one that is connected to is on the board, or
    /// else attempts to connect can still be counted.
    pub fn can_search(&self, board: &Corkboard) -> (can: bool)
        ensures
            can == searchable(board@, self.active),
    {
        board.finishing || board.is_complete() || match self.active {
            Some(address) => board.peers.get(address).is_some(),
            None => board.peers.attempts_countable(),
        }
    }

    /// Look for a peer. The connection is given up but for `Reuse`.
    pub fn search(&mut self, board: &mut Corkboard) -> (result: PeerSearchResult)
        requires
            searchable(old(board)@, old(self).active),
        ensures
            searched(
                old(board)@,
                old(self).active,
                old(self).uses as int,
                result,
                final(board)@,
            ),
            final(self).active == if result == PeerSearchResult::Reuse {
                old(self).active
            } else {
                None
            },
            final(self).uses == old(self).uses,
            final(self).saving == old(self).saving,
    {
        let result = search_for_peer(board, self.active, self.uses);
        if result != PeerSearchResult::Reuse {
            self.active = None;
        }
        result
    }

    /// A new peer has been connected to.
    pub fn connected(&mut self, board: &mut Corkboard, address: SocketAddr)
        ensures
            final(board)@ == after_connected(old(board)@, address),
            final(self).active == Some(address),
            final(self).uses == 0,
            final(self).saving == old(self).saving,
    {
        board.peers.set_state(address, PeerState::Active(true));
        self.active = Some(address);
        self.uses = 0;
    }

    /// A new peer could not be connected to.
    pub fn connect_failed(&mut self, board: &mut Corkboard, address: SocketAddr)
        ensures
            final(board)@ == after_failing(old(board)@, address),
            final(self).active is None,
            final(self).uses == old(self).uses,
            final(self).saving == old(self).saving,
    {
        board.peers.set_state(address, PeerState::Active(false));
        self.active = None;
    }

    /// Take up a piece from the peer that is connected to, given which pieces it has. The
    /// connection is given up if there is none.
    pub fn choose_piece(&mut self, board: &mut Corkboard, bitfield: &Vec<bool>) -> (piece_id: Option<
        usize,
    >)
        requires
            old(self).active is Some,
        ensures
            match piece_id {
                Some(piece_id) => {
                    &&& next_piece(old(board)@.pieces, bitfield@, 0) == Some(piece_id as int)
                    &&& final(board)@ == after_choice(
                        old(board)@,
                        old(self).active->0,
                        Some(piece_id as int),
                    )
                    &&& final(self).active == old(self).active
                },
                None => {
                    &&& next_piece(old(board)@.pieces, bitfield@, 0) is None
                    &&& final(board)@ == after_choice(old(board)@, old(self).active->0, None)
                    &&& final(self).active is None
                },
            },
            final(self).uses == old(self).uses,
            final(self).saving == old(self).saving,
    {
        match self.active {
            Some(address) => {
                let piece_id = find_next_piece(board, address, bitfield);
                if piece_id.is_none() {
                    self.active = None;
                }
                piece_id
            },
            None => None,
        }
    }

    /// Take in what a download from the peer that is connected to came to. The connection
    /// is kept if the data are, or are to be saved; which piece is being saved then is noted
    /// for `saved`.
    pub fn finish_download(
        &mut self,
        board: &mut Corkboard,
        piece_id: usize,
        download: Option<Vec<u8>>,
        duration: usize,
        performance: u64,
    ) -> (action: LoopAction)
        requires
            old(self).active is Some,
            download is Some ==> old(self).uses < usize::MAX,
            download is Some ==> total_length(old(board)@.meta_info.info.file_info) <= usize::MAX,
        ensures
            (final(board)@, action@) == finalized(
                old(board)@,
                old(self).active->0,
                piece_id as int,
                match download {
                    Some(data) => Some(data@),
                    None => None,
                },
                duration,
                performance,
            ),
            final(self).active == if action@ is Pass || action@ is Save {
                old(self).active
            } else {
                None
            },
            final(self).uses == if action@ is Pass {
                old(self).uses + 1
            } else {
                old(self).uses as int
            },
            final(self).saving == if action@ is Save {
                Some(piece_id)
            } else {
                None
            },
            final(self).saving matches Some(saving) ==> final(board)@.checked.contains(
                saving as int,
            ),
    {
        self.saving = None;
        match self.active {
            Some(address) => {
                let action = finalize_download(
                    board,
                    address,
                    piece_id,
                    download,
                    duration,
                    performance,
                );
                match &action {
                    LoopAction::Pass => {
                        self.uses = self.uses + 1;
                    },
                    LoopAction::Save(_, _) => {
                        self.saving = Some(piece_id);
                    },
                    _ => {
                        self.active = None;
                    },
                }
                action
            },
            None => LoopAction::Continue,
        }
    }

    /// The data of the piece that is being saved have been written to a file.
    pub fn saved(&mut self, board: &mut Corkboard, path: String)
        requires
            old(self).saving is Some,
            old(self).uses < usize::MAX,
        ensures
            final(board)@ == after_saved(old(board)@, old(self).saving->0 as int, path@),
            final(self).active == old(self).active,
            final(self).uses == old(self).uses + 1,
            final(self).saving is None,
    {
        if let Some(piece_id) = self.saving {
            note_saved(board, piece_id, path);
        }
        self.saving = None;
        self.uses = self.uses + 1;
    }
}

proof fn lemma_next_piece(pieces: Seq<PieceView>, bitfield: Seq<bool>, from: int)
    requires
        0 <= from,
    ensures
        match next_piece(pieces, bitfield, from) {
            Some(i) => from <= i < pieces.len() && i < bitfield.len() && may_take(pieces, i)
                && bitfield[i] && forall|j: int|
                from <= j < i ==> !(may_take(pieces, j) && #[trigger] bitfield[j]),
            None => forall|j: int|
                from <= j < pieces.len() && j < bitfield.len() ==> !(may_take(pieces, j)
                    && #[trigger] bitfield[j]),
        },
    decreases pieces.len() - from,
{
    if from < pieces.len() && from < bitfield.len() && !(may_take(pieces, from) && bitfield[from]) {
        lemma_next_piece(pieces, bitfield, from + 1);
    }
}

/// A piece that is taken up is one that the peer has and that has not been fetched. It is
/// the first that may be taken up, and one is taken up if there is any.
pub proof fn chosen_piece_is_wanted(pieces: Seq<PieceView>, bitfield: Seq<bool>)
    ensures
        match next_piece(pieces, bitfield, 0) {
            Some(i) => {
                &&& 0 <= i < pieces.len()
                &&& i < bitfield.len()
                &&& bitfield[i]
                &&& may_take(pieces, i)
                &&& !(pieces[i].state is Fetched)
                &&& forall|j: int| 0 <= j < i ==> !(may_take(pieces, j) && #[trigger] bitfield[j])
            },
            None => forall|j: int|
                0 <= j < pieces.len() && j < bitfield.len() ==> !(may_take(pieces, j)
                    && #[trigger] bitfield[j]),
        },
{
    lemma_next_piece(pieces, bitfield, 0);
}

/// A piece in progress is taken up only once no piece is left that nobody has taken up.
pub proof fn pieces_in_progress_come_last(pieces: Seq<PieceView>, bitfield: Seq<bool>)
    ensures
        next_piece(pieces, bitfield, 0) matches Some(i) ==> (pieces[i].state is InProgress
            <==> none_unfetched(pieces)),
{
    lemma_next_piece(pieces, bitfield, 0);
}

/// Looking for a peer keeps the pieces, and keeps the board sound.
pub proof fn search_keeps_pieces(
    board: BoardView,
    active: Option<SocketAddr>,
    uses: int,
    result: PeerSearchResult,
    after: BoardView,
)
    requires
        searched(board, active, uses, result, after),
    ensures
        after.pieces == board.pieces,
        after.meta_info == board.meta_info,
        sound(board) ==> sound(after),
{
}

/// Taking a piece up keeps the board sound, and leaves every fetched piece as it is.
pub proof fn choice_keeps_sound(board: BoardView, address: SocketAddr, bitfield: Seq<bool>)
    requires
        sound(board),
    ensures
        ({
            let after = after_choice(board, address, next_piece(board.pieces, bitfield, 0));
            &&& sound(after)
            &&& forall|i: int|
                0 <= i < board.pieces.len() && (#[trigger] board.pieces[i]).state is Fetched
                    ==> after.pieces[i] == board.pieces[i]
        }),
{
    lemma_next_piece(board.pieces, bitfield, 0);
    let after = after_choice(board, address, next_piece(board.pieces, bitfield, 0));
    assert forall|i: int| 0 <= i < after.pieces.len() implies (#[trigger] after.pieces[i]).hash
        == board.meta_info.info.pieces[i] && crate::download::corkboard::sound_piece(
        after.pieces[i],
    ) by {
        assert(board.pieces[i].hash == board.meta_info.info.pieces[i]);
        assert(crate::download::corkboard::sound_piece(board.pieces[i]));
    }
}

/// What a download comes to keeps the board sound: no data are put up or handed out to be
/// saved that do not have the hash of their piece. No other piece is touched.
pub proof fn finalize_keeps_sound(
    board: BoardView,
    address: SocketAddr,
    piece_id: int,
    download: Option<Seq<u8>>,
    duration: usize,
    performance: u64,
)
    requires
        sound(board),
    ensures
        ({
            let (after, action) = finalized(
                board,
                address,
                piece_id,
                download,
                duration,
                performance,
            );
            &&& sound(after)
            &&& forall|i: int|
                0 <= i < board.pieces.len() && i != piece_id ==> #[trigger] after.pieces[i]
                    == board.pieces[i]
            &&& action matches LoopActionView::Save(_, data) ==> 0 <= piece_id < board.pieces.len()
                && sha1(data) == board.pieces[piece_id].hash && after.checked.contains(piece_id)
        }),
{
    let (after, action) = finalized(board, address, piece_id, download, duration, performance);
    assert forall|i: int| 0 <= i < after.pieces.len() implies (#[trigger] after.pieces[i]).hash
        == board.meta_info.info.pieces[i] && crate::download::corkboard::sound_piece(
        after.pieces[i],
    ) by {
        assert(board.pieces[i].hash == board.meta_info.info.pieces[i]);
        assert(crate::download::corkboard::sound_piece(board.pieces[i]));
    }
}

/// Noting where a piece has been saved whose data passed the hash check keeps the board
/// sound.
pub proof fn saved_keeps_sound(board: BoardView, piece_id: int, path: Seq<char>)
    requires
        sound(board),
        board.checked.contains(piece_id),
    ensures
        sound(after_saved(board, piece_id, path)),
{
    let after = after_saved(board, piece_id, path);
    assert forall|i: int| 0 <= i < after.pieces.len() implies (#[trigger] after.pieces[i]).hash
        == board.meta_info.info.pieces[i] && crate::download::corkboard::sound_piece(
        after.pieces[i],
    ) by {
        assert(board.pieces[i].hash == board.meta_info.info.pieces[i]);
        assert(crate::download::corkboard::sound_piece(board.pieces[i]));
    }
}

/// A piece comes to be counted as checked only by data that have its hash, and stays so: a
/// piece that is being saved is still checked when it has been, whatever others do to the
/// board in between.
pub proof fn checked_pieces_stay_checked(
    board: BoardView,
    address: SocketAddr,
    piece_id: int,
    download: Option<Seq<u8>>,
    duration: usize,
    performance: u64,
    path: Seq<char>,
    chosen: Option<int>,
)
    ensures
        ({
            let after = finalized(board, address, piece_id, download, duration, performance).0;
            &&& forall|i: int| #[trigger]
                after.checked.contains(i) <==> board.checked.contains(i) || (i == piece_id
                    && 0 <= i < board.pieces.len() && download is Some && sha1(download->0)
                    == board.pieces[i].hash)
            &&& after_saved(board, piece_id, path).checked == board.checked
            &&& after_choice(board, address, chosen).checked == board.checked
            &&& with_found_peer(board, address).checked == board.checked
        }),
{
}

/// Looking for a peer leaves checked pieces as they are.
pub proof fn search_keeps_checked(
    board: BoardView,
    active: Option<SocketAddr>,
    uses: int,
    result: PeerSearchResult,
    after: BoardView,
)
    requires
        searched(board, active, uses, result, after),
    ensures
        after.checked == board.checked,
{
}

/// A peer is used over one connection for no more pieces in a row than allowed.
pub proof fn reuse_is_bounded(
    board: BoardView,
    address: SocketAddr,
    uses: int,
    after: BoardView,
)
    requires
        searched(board, Some(address), uses, PeerSearchResult::Reuse, after),
    ensures
        uses + 1 <= MAX_PEER_USES,
{
}

} // verus!
