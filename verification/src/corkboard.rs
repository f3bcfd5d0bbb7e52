//! A board of peers and pieces for a download that is kept in memory.

use vstd::prelude::*;

use crate::download::corkboard::peers::{
    is_fastest, refreshed, with_benchmark, with_state, Benchmark, PeerState, PeerTable, PeerView,
};
use crate::download::corkboard::{
    all_fetched, pieces_view, sound_piece, unfetched_pieces, with_piece_state, LocationView, Piece,
    PieceLocation, PieceState, PieceStateView, PieceView,
};
use crate::error::{bterror, outcome, BitTorrentError};
use crate::info::{hashes, MetaInfo};
use crate::net::SocketAddr;
use crate::text::same_bytes;
use crate::util::{sha1, sha1_hash};

pub mod laws;

verus! {

/// how often a peer is used in a row
pub const MAX_PEER_USES: usize = 5;

/// how long the watchdog waits before it asks the tracker again (seconds)
pub const WATCHDOG_INTERVAL: u64 = 30;

/// how long a worker waits if no peer is available (milliseconds)
pub const NO_PEER_WAIT: u64 = 100;

/// The board that workers share.
#[derive(Debug)]
pub struct Corkboard {
    pub pieces: Vec<Piece>,
    pub remaining_pieces: usize,
    pub peers: PeerTable,
}

/// What a `Corkboard` says.
pub struct BoardView {
    pub pieces: Seq<PieceView>,
    pub remaining_pieces: int,
    pub peers: Map<SocketAddr, PeerView>,
}

impl View for Corkboard {
    type V = BoardView;

    open spec fn view(&self) -> BoardView {
        BoardView {
            pieces: pieces_view(self.pieces@),
            remaining_pieces: self.remaining_pieces as int,
            peers: self.peers@,
        }
    }
}

/// How many pieces have not been fetched.
pub open spec fn missing_pieces(pieces: Seq<PieceView>) -> int
    decreases pieces.len(),
{
    if pieces.len() == 0 {
        0
    } else {
        missing_pieces(pieces.drop_last()) + if pieces.last().state is Fetched {
            0int
        } else {
            1
        }
    }
}

/// Whether the pieces that remain are counted right, and every piece that has been
/// fetched is in memory and has its hash.
pub open spec fn sound(board: BoardView) -> bool {
    &&& board.remaining_pieces == missing_pieces(board.pieces)
    &&& all_in_memory(board.pieces)
    &&& forall|i: int|
        0 <= i < board.pieces.len() ==> sound_piece(#[trigger] board.pieces[i])
}

proof fn lemma_missing_update(pieces: Seq<PieceView>, i: int, state: PieceStateView)
    requires
        0 <= i < pieces.len(),
    ensures
        missing_pieces(with_piece_state(pieces, i, state)) == missing_pieces(pieces) - (
        if pieces[i].state is Fetched {
            0int
        } else {
            1
        }) + (if state is Fetched {
            0int
        } else {
            1
        }),
    decreases pieces.len(),
{
    let after = with_piece_state(pieces, i, state);
    if i == pieces.len() - 1 {
        assert(after.drop_last() =~= pieces.drop_last());
    } else {
        lemma_missing_update(pieces.drop_last(), i, state);
        assert(after.drop_last() =~= with_piece_state(pieces.drop_last(), i, state));
    }
}

proof fn lemma_missing_bound(pieces: Seq<PieceView>, i: int)
    requires
        0 <= i < pieces.len(),
        !(pieces[i].state is Fetched),
    ensures
        missing_pieces(pieces) > 0,
    decreases pieces.len(),
{
    lemma_missing_not_negative(pieces.drop_last());
    if i < pieces.len() - 1 {
        lemma_missing_bound(pieces.drop_last(), i);
    }
}

proof fn lemma_missing_not_negative(pieces: Seq<PieceView>)
    ensures
        0 <= missing_pieces(pieces) <= pieces.len(),
    decreases pieces.len(),
{
    if pieces.len() > 0 {
        lemma_missing_not_negative(pieces.drop_last());
    }
}

proof fn lemma_missing_all(hashes: Seq<Seq<u8>>)
    ensures
        missing_pieces(unfetched_pieces(hashes)) == hashes.len(),
    decreases hashes.len(),
{
    if hashes.len() > 0 {
        lemma_missing_all(hashes.drop_last());
        assert(unfetched_pieces(hashes).drop_last() =~= unfetched_pieces(hashes.drop_last()));
    }
}

/// No piece remains exactly when all have been fetched.
pub proof fn none_remain_when_all_fetched(pieces: Seq<PieceView>)
    ensures
        missing_pieces(pieces) == 0 <==> all_fetched(pieces),
    decreases pieces.len(),
{
    if pieces.len() > 0 {
        let head = pieces.drop_last();
        none_remain_when_all_fetched(head);
        lemma_missing_not_negative(head);
        if all_fetched(pieces) {
            assert(forall|i: int| 0 <= i < head.len() ==> head[i] == pieces[i]);
            assert forall|i: int| 0 <= i < head.len() implies (#[trigger] head[i]).state is Fetched by {
                assert(pieces[i].state is Fetched);
            }
            assert(pieces[pieces.len() - 1].state is Fetched);
        }
        if missing_pieces(pieces) == 0 {
            assert forall|i: int| 0 <= i < pieces.len() implies (#[trigger] pieces[i]).state
                is Fetched by {
                if i < head.len() {
                    assert(head[i].state is Fetched);
                }
            }
        }
    }
}

/// The first of the pieces from a place on that nobody has taken up and that a peer has.
pub open spec fn next_unfetched(
    pieces: Seq<PieceView>,
    bitfield: Seq<bool>,
    from: int,
) -> Option<int>
    decreases pieces.len() - from,
{
    if !(0 <= from < pieces.len() && from < bitfield.len()) {
        None
    } else if pieces[from].state is Unfetched && bitfield[from] {
        Some(from)
    } else {
        next_unfetched(pieces, bitfield, from + 1)
    }
}

/// What a worker does about a peer.
#[derive(Clone, Copy, Debug, PartialEq, Eq, Structural)]
pub enum WorkerStep {
    /// everything has been fetched
    Exit,
    /// download a piece over the connection that there is
    Download(usize),
    /// drop any connection, connect to a peer
    Connect(SocketAddr),
    /// drop any connection, look again after a while
    Wait,
}

/// What looking over the connection that there is comes to: a piece to download over it,
/// or nothing and the connection is released; and what it does to the peers.
pub open spec fn reviewed(
    board: BoardView,
    active: Option<(SocketAddr, Seq<bool>)>,
    uses: int,
) -> (Option<int>, Map<SocketAddr, PeerView>) {
    match active {
        None => (None, board.peers),
        Some((address, bitfield)) => {
            let state = board.peers[address].state;
            if state == PeerState::Inactive || state == PeerState::Fresh {
                (None, board.peers)
            } else {
                match next_unfetched(board.pieces, bitfield, 0) {
                    None => (None, with_state(board.peers, address, PeerState::Superceded)),
                    Some(piece_id) => if uses >= MAX_PEER_USES {
                        (None, with_state(board.peers, address, PeerState::Active(false)))
                    } else {
                        (Some(piece_id), board.peers)
                    },
                }
            }
        },
    }
}

/// What a worker does next, and what that does to the board.
pub open spec fn planned(
    board: BoardView,
    active: Option<(SocketAddr, Seq<bool>)>,
    uses: int,
    step: WorkerStep,
    after: BoardView,
) -> bool {
    if all_fetched(board.pieces) {
        step == WorkerStep::Exit && after == board
    } else {
        let (piece, peers) = reviewed(board, active, uses);
        match piece {
            Some(piece_id) => step == WorkerStep::Download(piece_id as usize) && after == (
            BoardView {
                pieces: with_piece_state(board.pieces, piece_id, PieceStateView::InProgress),
                peers,
                ..board
            }),
            None => after == (BoardView { peers, ..board }) && match step {
                WorkerStep::Connect(address) => is_fastest(peers, Some(address)),
                WorkerStep::Wait => is_fastest(peers, None),
                _ => false,
            },
        }
    }
}

/// What a new connection comes to: the piece to download over it, or nothing and the
/// connection is released; and the board then.
pub open spec fn after_connect(
    board: BoardView,
    address: SocketAddr,
    connected: Option<Seq<bool>>,
) -> (Option<int>, BoardView) {
    match connected {
        None => (
            None,
            BoardView { peers: with_state(board.peers, address, PeerState::Error), ..board },
        ),
        Some(bitfield) => match next_unfetched(board.pieces, bitfield, 0) {
            Some(piece_id) => (
                Some(piece_id),
                BoardView {
                    peers: with_state(board.peers, address, PeerState::Active(true)),
                    pieces: with_piece_state(board.pieces, piece_id, PieceStateView::InProgress),
                    ..board
                },
            ),
            None => (
                None,
                BoardView {
                    peers: with_state(
                        with_state(board.peers, address, PeerState::Active(true)),
                        address,
                        PeerState::Superceded,
                    ),
                    ..board
                },
            ),
        },
    }
}

/// What a download comes to: the board then, and whether the connection is kept.
pub open spec fn after_download(
    board: BoardView,
    address: SocketAddr,
    piece_id: int,
    download: Option<Seq<u8>>,
    duration: usize,
    performance: u64,
) -> (BoardView, bool) {
    match download {
        None => (
            BoardView {
                peers: with_state(board.peers, address, PeerState::Error),
                pieces: with_piece_state(board.pieces, piece_id, PieceStateView::Unfetched),
                ..board
            },
            false,
        ),
        Some(data) => {
            let peers = with_benchmark(
                board.peers,
                address,
                Benchmark { bytes: data.len() as usize, duration_millis: duration },
                performance,
            );
            if !(0 <= piece_id < board.pieces.len()) {
                (BoardView { peers, ..board }, true)
            } else if board.pieces[piece_id].hash == sha1(data) {
                (
                    BoardView {
                        peers,
                        pieces: with_piece_state(
                            board.pieces,
                            piece_id,
                            PieceStateView::Fetched(LocationView::Memory(data)),
                        ),
                        remaining_pieces: board.remaining_pieces - 1,
                    },
                    true,
                )
            } else {
                (
                    BoardView {
                        peers,
                        pieces: with_piece_state(
                            board.pieces,
                            piece_id,
                            PieceStateView::Unfetched,
                        ),
                        ..board
                    },
                    true,
                )
            }
        },
    }
}

/// Whether a piece that a download completes is still counted as one that remains.
pub open spec fn counted(board: BoardView, piece_id: int, download: Option<Seq<u8>>) -> bool {
    match download {
        Some(data) => 0 <= piece_id < board.pieces.len() && board.pieces[piece_id].hash == sha1(
            data,
        ) ==> board.remaining_pieces > 0,
        None => true,
    }
}

/// The data of pieces that have all been fetched and are in memory.
pub open spec fn memory_data(pieces: Seq<PieceView>) -> Seq<u8>
    decreases pieces.len(),
{
    if pieces.len() == 0 {
        seq![]
    } else {
        memory_data(pieces.drop_last()) + match pieces.last().state {
            PieceStateView::Fetched(LocationView::Memory(data)) => data,
            _ => seq![],
        }
    }
}

/// Whether every piece that has been fetched is in memory.
pub open spec fn all_in_memory(pieces: Seq<PieceView>) -> bool {
    forall|i: int|
        0 <= i < pieces.len() && (#[trigger] pieces[i]).state is Fetched
            ==> pieces[i].state->Fetched_0 is Memory
}

impl Corkboard {
    /// A board with nothing fetched, and with the peers that a tracker names.
    pub fn new(meta_info: &MetaInfo, listed: &Vec<SocketAddr>) -> (board: Self)
        ensures
            board@.pieces == unfetched_pieces(meta_info@.info.pieces),
            board@.remaining_pieces == meta_info@.info.pieces.len(),
            forall|address: SocketAddr|
                board@.peers.contains_key(address) <==> listed@.contains(address),
            forall|address: SocketAddr| #[trigger]
                board@.peers.contains_key(address) ==> board@.peers[address]
                    == crate::download::corkboard::peers::fresh_peer(),
            sound(board@),
    {
        let mut pieces: Vec<Piece> = Vec::new();
        let ghost all = hashes(meta_info.info.pieces@);
        let mut i: usize = 0;
        while i < meta_info.info.pieces.len()
            invariant
                0 <= i <= meta_info.info.pieces.len(),
                all == hashes(meta_info.info.pieces@),
                pieces@.len() == i,
                forall|j: int|
                    0 <= j < i ==> (#[trigger] pieces@[j])@ == (PieceView {
                        hash: all[j],
                        state: PieceStateView::Unfetched,
                    }),
            decreases meta_info.info.pieces.len() - i,
        {
            pieces.push(Piece::new(meta_info.info.pieces[i]));
            i = i + 1;
        }
        let mut peers = PeerTable::new();
        let mut i: usize = 0;
        while i < listed.len()
            invariant
                0 <= i <= listed.len(),
                forall|address: SocketAddr|
                    #![trigger peers@.contains_key(address)]
                    #![trigger listed@.take(i as int).contains(address)]
                    peers@.contains_key(address) <==> listed@.take(i as int).contains(address),
                forall|address: SocketAddr| #[trigger]
                    peers@.contains_key(address) ==> peers@[address]
                        == crate::download::corkboard::peers::fresh_peer(),
            decreases listed.len() - i,
        {
            let ghost before = peers@;
            let address = listed[i];
            peers.set(address, crate::download::corkboard::Peer::new());
            proof {
                let shorter = listed@.take(i as int);
                let longer = listed@.take(i + 1);
                assert(longer =~= shorter.push(address));
                assert forall|other: SocketAddr| peers@.contains_key(other) <==> longer.contains(
                    other,
                ) by {
                    assert(longer[i as int] == address);
                    if shorter.contains(other) {
                        let j = choose|j: int| 0 <= j < shorter.len() && shorter[j] == other;
                        assert(longer[j] == other);
                    }
                    if longer.contains(other) && other != address {
                        let j = choose|j: int| 0 <= j < longer.len() && longer[j] == other;
                        assert(shorter[j] == other);
                    }
                    assert(before.contains_key(other) <==> shorter.contains(other));
                }
            }
            i = i + 1;
        }
        let remaining_pieces: usize = pieces.len();
        let board = Corkboard { pieces, remaining_pieces, peers };
        proof {
            assert(listed@.take(i as int) =~= listed@);
            assert(board@.pieces =~= unfetched_pieces(meta_info@.info.pieces));
            lemma_missing_all(meta_info@.info.pieces);
        }
        board
    }

    /// Note that a piece has been fetched.
    pub fn notify_piece_completion(&mut self)
        requires
            old(self)@.remaining_pieces > 0,
        ensures
            final(self)@ == (BoardView {
                remaining_pieces: old(self)@.remaining_pieces - 1,
                ..old(self)@
            }),
    {
        self.remaining_pieces = self.remaining_pieces - 1;
    }

    fn is_complete(&self) -> (complete: bool)
        ensures
            complete == all_fetched(self@.pieces),
    {
        let mut i: usize = 0;
        while i < self.pieces.len()
            invariant
                0 <= i <= self.pieces.len(),
                forall|j: int| 0 <= j < i ==> (#[trigger] self@.pieces[j]).state is Fetched,
            decreases self.pieces.len() - i,
        {
            assert(self@.pieces[i as int] == self.pieces@[i as int]@);
            if !self.pieces[i].is_fetched() {
                return false;
            }
            i = i + 1;
        }
        true
    }

    /// The first piece that nobody has taken up and that a peer has.
    pub fn find_piece(&self, bitfield: &Vec<bool>) -> (piece_id: Option<usize>)
        ensures
            match piece_id {
                Some(piece_id) => next_unfetched(self@.pieces, bitfield@, 0) == Some(
                    piece_id as int,
                ) && piece_id < self@.pieces.len(),
                None => next_unfetched(self@.pieces, bitfield@, 0) is None,
            },
    {
        let mut i: usize = 0;
        while i < self.pieces.len() && i < bitfield.len()
            invariant
                0 <= i <= self.pieces.len(),
                next_unfetched(self@.pieces, bitfield@, 0) == next_unfetched(
                    self@.pieces,
                    bitfield@,
                    i as int,
                ),
            decreases self.pieces.len() - i,
        {
            assert(self@.pieces[i as int] == self.pieces@[i as int]@);
            if self.pieces[i].is_unfetched() && bitfield[i] {
                return Some(i);
            }
            i = i + 1;
        }
        None
    }

    fn set_piece_state(&mut self, piece_id: usize, state: PieceState)
        ensures
            final(self)@ == (BoardView {
                pieces: with_piece_state(old(self)@.pieces, piece_id as int, state@),
                ..old(self)@
            }),
    {
        if piece_id < self.pieces.len() {
            let ghost before = self.pieces@;
            let hash: [u8; 20] = self.pieces[piece_id].hash;
            self.pieces.set(piece_id, Piece { hash, state });
            assert(pieces_view(self.pieces@) =~= with_piece_state(
                pieces_view(before),
                piece_id as int,
                state@,
            ));
        }
    }

    /// Look over the connection that there is.
    fn review(&mut self, active: Option<(SocketAddr, &Vec<bool>)>, uses: usize) -> (piece: Option<
        usize,
    >)
        requires
            active matches Some((address, _)) ==> old(self)@.peers.contains_key(address),
        ensures
            ({
                let (chosen, peers) = reviewed(
                    old(self)@,
                    match active {
                        Some((address, bitfield)) => Some((address, bitfield@)),
                        None => None,
                    },
                    uses as int,
                );
                &&& final(self)@ == (BoardView { peers, ..old(self)@ })
                &&& match piece {
                    Some(piece_id) => chosen == Some(piece_id as int),
                    None => chosen is None,
                }
            }),
    {
        let (address, bitfield) = match active {
            Some(active) => active,
            None => return None,
        };
        let state = match self.peers.get(address) {
            Some(peer) => peer.state,
            None => PeerState::Inactive,
        };
        // If it's inactive or recently refreshed, release it
        if state == PeerState::Inactive || state == PeerState::Fresh {
            return None;
        }
        match self.find_piece(bitfield) {
            // If there is no suitable piece, then mark the peer as superceded and release it
            None => {
                self.peers.set_state(address, PeerState::Superceded);
                None
            },
            Some(piece_id) => {
                // If this connection has been used more than a maximum number of times in a row,
                // then release it
                if uses >= MAX_PEER_USES {
                    self.peers.set_state(address, PeerState::Active(false));
                    None
                } else {
                    Some(piece_id)
                }
            },
        }
    }

    /// What a worker does next, given the connection that it has and which pieces that
    /// peer has.
    pub fn plan(&mut self, active: Option<(SocketAddr, &Vec<bool>)>, uses: usize) -> (step:
        WorkerStep)
        requires
            active matches Some((address, _)) ==> all_fetched(old(self)@.pieces) || old(
                self,
            )@.peers.contains_key(address),
        ensures
            planned(
                old(self)@,
                match active {
                    Some((address, bitfield)) => Some((address, bitfield@)),
                    None => None,
                },
                uses as int,
                step,
                final(self)@,
            ),
    {
        // If all pieces have been acquired, exit
        if self.is_complete() {
            return WorkerStep::Exit;
        }
        match self.review(active, uses) {
            Some(piece_id) => {
                // Mark chosen piece as in progress
                self.set_piece_state(piece_id, PieceState::InProgress);
                WorkerStep::Download(piece_id)
            },
            None => match self.peers.fastest_available() {
                // If there is no active peer, find the peer with the best connection that's
                // available to connect to
                Some(address) => WorkerStep::Connect(address),
                // If no peer was found, wait a bit and find a new peer
                None => WorkerStep::Wait,
            },
        }
    }

    /// Take in what an attempt to connect came to: which pieces the peer has, or nothing if
    /// it failed. Gives the piece to download over the connection, if it is kept.
    pub fn connected(&mut self, address: SocketAddr, bitfield: Option<&Vec<bool>>) -> (piece: Option<
        usize,
    >)
        ensures
            ({
                let (chosen, after) = after_connect(
                    old(self)@,
                    address,
                    match bitfield {
                        Some(bitfield) => Some(bitfield@),
                        None => None,
                    },
                );
                &&& final(self)@ == after
                &&& match piece {
                    Some(piece_id) => chosen == Some(piece_id as int),
                    None => chosen is None,
                }
            }),
    {
        match bitfield {
            // If the peer failed to connect, mark it as Errored and find a new peer
            None => {
                self.peers.set_state(address, PeerState::Error);
                None
            },
            // On successful connection, mark the peer as active
            Some(bitfield) => {
                self.peers.set_state(address, PeerState::Active(true));
                match self.find_piece(bitfield) {
                    Some(piece_id) => {
                        self.set_piece_state(piece_id, PieceState::InProgress);
                        Some(piece_id)
                    },
                    // If no pieces are available, mark connection as superceded and look for
                    // another peer
                    None => {
                        self.peers.set_state(address, PeerState::Superceded);
                        None
                    },
                }
            },
        }
    }

    /// Take in what a download came to, if a piece that it completes is still counted as
    /// one that remains.
    pub fn try_downloaded(
        &mut self,
        address: SocketAddr,
        piece_id: usize,
        download: Option<Vec<u8>>,
        duration: usize,
        performance: u64,
    ) -> (kept: Option<bool>)
        ensures
            ({
                let view = match download {
                    Some(data) => Some(data@),
                    None => None,
                };
                match kept {
                    Some(kept) => counted(old(self)@, piece_id as int, view) && (
                        final(self)@,
                        kept,
                    ) == after_download(
                        old(self)@,
                        address,
                        piece_id as int,
                        view,
                        duration,
                        performance,
                    ),
                    None => !counted(old(self)@, piece_id as int, view) && final(self)@ == old(
                        self,
                    )@,
                }
            }),
    {
        if self.remaining_pieces == 0 && piece_id < self.pieces.len() {
            if let Some(data) = &download {
                assert(self@.pieces[piece_id as int] == self.pieces@[piece_id as int]@);
                let hash = sha1_hash(data.as_slice());
                if same_bytes(self.pieces[piece_id].hash.as_slice(), hash.as_slice()) {
                    return None;
                }
            }
        }
        Some(self.downloaded(address, piece_id, download, duration, performance))
    }

    /// Take in what a download came to. Tells whether the connection is kept.
    pub fn downloaded(
        &mut self,
        address: SocketAddr,
        piece_id: usize,
        download: Option<Vec<u8>>,
        duration: usize,
        performance: u64,
    ) -> (kept: bool)
        requires
            counted(
                old(self)@,
                piece_id as int,
                match download {
                    Some(data) => Some(data@),
                    None => None,
                },
            ),
        ensures
            (final(self)@, kept) == after_download(
                old(self)@,
                address,
                piece_id as int,
                match download {
                    Some(data) => Some(data@),
                    None => None,
                },
                duration,
                performance,
            ),
    {
        match download {
            // Error during download
            None => {
                self.peers.set_state(address, PeerState::Error);
                self.set_piece_state(piece_id, PieceState::Unfetched);
                false
            },
            // Piece downloaded successfully
            Some(data) => {
                // Record benchmark of network performance on peer
                self.peers.add_benchmark(
                    address,
                    Benchmark { bytes: data.len(), duration_millis: duration },
                    performance,
                );
                if piece_id < self.pieces.len() {
                    assert(self@.pieces[piece_id as int] == self.pieces@[piece_id as int]@);
                    let hash = sha1_hash(data.as_slice());
                    if same_bytes(self.pieces[piece_id].hash.as_slice(), hash.as_slice()) {
                        // If hash matches, mark piece as downloaded
                        self.set_piece_state(
                            piece_id,
                            PieceState::Fetched(PieceLocation::Memory(data)),
                        );
                        self.notify_piece_completion();
                    } else {
                        // If hash does not match, discard data and re-mark piece as unfetched
                        self.set_piece_state(piece_id, PieceState::Unfetched);
                    }
                }
                true
            },
        }
    }

    /// Take in the list of peers that the tracker gives.
    pub fn refresh_peers(&mut self, listed: &Vec<SocketAddr>)
        ensures
            final(self)@ == (BoardView {
                peers: refreshed(old(self)@.peers, listed@),
                ..old(self)@
            }),
    {
        self.peers.refresh(listed);
    }

    /// Whether every piece that has been fetched is in memory.
    pub fn is_in_memory(&self) -> (in_memory: bool)
        ensures
            in_memory == all_in_memory(self@.pieces),
    {
        let mut i: usize = 0;
        while i < self.pieces.len()
            invariant
                0 <= i <= self.pieces.len(),
                forall|j: int|
                    0 <= j < i && (#[trigger] self@.pieces[j]).state is Fetched
                        ==> self@.pieces[j].state->Fetched_0 is Memory,
            decreases self.pieces.len() - i,
        {
            assert(self@.pieces[i as int] == self.pieces@[i as int]@);
            match &self.pieces[i].state {
                PieceState::Fetched(PieceLocation::Disk(_)) => {
                    return false;
                },
                _ => {},
            }
            i = i + 1;
        }
        true
    }

    /// The data of all pieces, one after the other.
    pub fn collect_data(&self) -> (result: Result<Vec<u8>, BitTorrentError>)
        requires
            all_in_memory(self@.pieces),
        ensures
            outcome(result) == if all_fetched(self@.pieces) {
                Ok(memory_data(self@.pieces))
            } else {
                Err("Unfetched piece data remains!"@)
            },
    {
        let ghost pieces = self@.pieces;
        let mut data: Vec<u8> = Vec::new();
        let mut i: usize = 0;
        assert(data@ =~= memory_data(pieces.take(0)));
        while i < self.pieces.len()
            invariant
                0 <= i <= self.pieces.len(),
                pieces == self@.pieces,
                all_in_memory(pieces),
                forall|j: int| 0 <= j < i ==> (#[trigger] pieces[j]).state is Fetched,
                data@ == memory_data(pieces.take(i as int)),
            decreases self.pieces.len() - i,
        {
            assert(pieces[i as int] == self.pieces@[i as int]@);
            assert(pieces.take(i + 1).drop_last() =~= pieces.take(i as int));
            assert(pieces.take(i + 1).last() == pieces[i as int]);
            match &self.pieces[i].state {
                PieceState::Fetched(PieceLocation::Memory(block)) => {
                    data.extend_from_slice(block.as_slice());
                },
                _ => {
                    return Err(bterror("Unfetched piece data remains!"));
                },
            }
            i = i + 1;
        }
        assert(pieces.take(i as int) =~= pieces);
        Ok(data)
    }
}

proof fn lemma_next_unfetched(pieces: Seq<PieceView>, bitfield: Seq<bool>, from: int)
    requires
        0 <= from,
    ensures
        next_unfetched(pieces, bitfield, from) matches Some(i) ==> from <= i < pieces.len() && i
            < bitfield.len() && bitfield[i] && pieces[i].state is Unfetched,
    decreases pieces.len() - from,
{
    if from < pieces.len() && from < bitfield.len() && !(pieces[from].state is Unfetched
        && bitfield[from]) {
        lemma_next_unfetched(pieces, bitfield, from + 1);
    }
}

proof fn lemma_state_keeps_sound(board: BoardView, piece_id: int, state: PieceStateView)
    requires
        sound(board),
        !(state is Fetched),
        0 <= piece_id < board.pieces.len(),
        !(board.pieces[piece_id].state is Fetched),
    ensures
        sound(BoardView { pieces: with_piece_state(board.pieces, piece_id, state), ..board }),
{
    lemma_missing_update(board.pieces, piece_id, state);
    let after = with_piece_state(board.pieces, piece_id, state);
    assert forall|i: int| 0 <= i < after.len() implies sound_piece(#[trigger] after[i]) by {
        assert(sound_piece(board.pieces[i]));
    }
    assert forall|i: int|
        0 <= i < after.len() && (#[trigger] after[i]).state
            is Fetched implies after[i].state->Fetched_0 is Memory by {
        assert(board.pieces[i].state is Fetched);
    }
}

/// Planning a step and connecting keep the board sound.
pub proof fn plans_keep_sound(
    board: BoardView,
    active: Option<(SocketAddr, Seq<bool>)>,
    uses: int,
    step: WorkerStep,
    after: BoardView,
)
    requires
        sound(board),
        planned(board, active, uses, step, after),
    ensures
        sound(after),
{
    if !all_fetched(board.pieces) {
        let (piece, peers) = reviewed(board, active, uses);
        if let Some(piece_id) = piece {
            lemma_next_unfetched(board.pieces, (active->0).1, 0);
            lemma_state_keeps_sound(board, piece_id, PieceStateView::InProgress);
        }
    }
}

/// Taking in a connection keeps the board sound.
pub proof fn connections_keep_sound(
    board: BoardView,
    address: SocketAddr,
    connected: Option<Seq<bool>>,
)
    requires
        sound(board),
    ensures
        sound(after_connect(board, address, connected).1),
{
    if let Some(bitfield) = connected {
        lemma_next_unfetched(board.pieces, bitfield, 0);
        if let Some(piece_id) = next_unfetched(board.pieces, bitfield, 0) {
            lemma_state_keeps_sound(board, piece_id, PieceStateView::InProgress);
        }
    }
}

/// Taking in the download of a piece that had not been fetched keeps the board sound.
pub proof fn downloads_keep_sound(
    board: BoardView,
    address: SocketAddr,
    piece_id: int,
    download: Option<Seq<u8>>,
    duration: usize,
    performance: u64,
)
    requires
        sound(board),
        0 <= piece_id < board.pieces.len(),
        !(board.pieces[piece_id].state is Fetched),
    ensures
        counted(board, piece_id, download),
        sound(after_download(board, address, piece_id, download, duration, performance).0),
{
    lemma_missing_bound(board.pieces, piece_id);
    lemma_state_keeps_sound(board, piece_id, PieceStateView::Unfetched);
    if let Some(data) = download {
        if board.pieces[piece_id].hash == sha1(data) {
            let state = PieceStateView::Fetched(LocationView::Memory(data));
            lemma_missing_update(board.pieces, piece_id, state);
            let after = with_piece_state(board.pieces, piece_id, state);
            assert forall|i: int| 0 <= i < after.len() implies sound_piece(#[trigger] after[i]) by {
                assert(sound_piece(board.pieces[i]));
            }
            assert forall|i: int|
                0 <= i < after.len() && (#[trigger] after[i]).state
                    is Fetched implies after[i].state->Fetched_0 is Memory by {
                if i != piece_id {
                    assert(board.pieces[i].state is Fetched);
                }
            }
        }
    }
}

/// A piece that a worker is told to download is one that nobody had taken up, and is taken
/// up then: no two workers download the same piece.
pub proof fn no_piece_is_taken_twice(
    board: BoardView,
    active: Option<(SocketAddr, Seq<bool>)>,
    uses: int,
    piece_id: usize,
    after: BoardView,
)
    requires
        board.pieces.len() <= usize::MAX,
        planned(board, active, uses, WorkerStep::Download(piece_id), after),
    ensures
        piece_id < board.pieces.len(),
        board.pieces[piece_id as int].state is Unfetched,
        after.pieces[piece_id as int].state is InProgress,
{
    let (piece, peers) = reviewed(board, active, uses);
    lemma_next_unfetched(board.pieces, (active->0).1, 0);
}

/// What a sound board gives out when everything has been fetched is made of pieces that
/// have their hashes.
pub proof fn collected_pieces_have_hashes(board: BoardView)
    requires
        sound(board),
        all_fetched(board.pieces),
    ensures
        forall|i: int|
            0 <= i < board.pieces.len() ==> match (#[trigger] board.pieces[i]).state {
                PieceStateView::Fetched(LocationView::Memory(data)) => sha1(data)
                    == board.pieces[i].hash,
                _ => false,
            },
{
    assert forall|i: int| 0 <= i < board.pieces.len() implies match (
    #[trigger] board.pieces[i]).state {
        PieceStateView::Fetched(LocationView::Memory(data)) => sha1(data) == board.pieces[i].hash,
        _ => false,
    } by {
        assert(sound_piece(board.pieces[i]));
        assert(board.pieces[i].state is Fetched);
    }
}

} // verus!
