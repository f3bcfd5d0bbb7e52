//! Downloading with workers that share a board of peers and pieces.
//!
//! Each worker refers to a board that is accessible to all of them and tells which peers
//! can be picked up and which pieces are to be fetched. A worker looks at the board
//! before a download, to find a peer to connect to and a piece to acquire, and again
//! afterwards, to check what it downloaded and to put it up.

use vstd::prelude::*;

use crate::download::corkboard::peers::{PeerTable, PeerView};
use crate::error::{bterror, outcome, BitTorrentError};
use crate::info::{hashes, MetaInfo, MetaInfoView};
use crate::net::SocketAddr;
use crate::text::bytes_to_vec;
use crate::util::sha1;

pub mod laws;
pub mod metadata_retriever;
pub mod monitor;
pub mod peer_locator;
pub mod peers;
pub mod seeder;
pub mod watchdog;
pub mod worker;

pub use crate::download::corkboard::peers::{Benchmark, Peer, PeerState};

verus! {

#[derive(Debug)]
pub enum PieceState {
    Unfetched,
    InProgress,
    Fetched(PieceLocation),
}

/// Where the data of a piece are: in memory, or in a file.
#[derive(Debug)]
pub enum PieceLocation {
    Memory(Vec<u8>),
    Disk(String),
}

#[derive(Debug)]
pub struct Piece {
    pub hash: [u8; 20],
    pub state: PieceState,
}

/// What a `PieceLocation` says.
pub enum LocationView {
    Memory(Seq<u8>),
    Disk(Seq<char>),
}

/// What a `PieceState` says.
pub enum PieceStateView {
    Unfetched,
    InProgress,
    Fetched(LocationView),
}

/// What a `Piece` says.
pub struct PieceView {
    pub hash: Seq<u8>,
    pub state: PieceStateView,
}

impl View for PieceLocation {
    type V = LocationView;

    open spec fn view(&self) -> LocationView {
        match self {
            PieceLocation::Memory(data) => LocationView::Memory(data@),
            PieceLocation::Disk(path) => LocationView::Disk(path@),
        }
    }
}

impl View for PieceState {
    type V = PieceStateView;

    open spec fn view(&self) -> PieceStateView {
        match self {
            PieceState::Unfetched => PieceStateView::Unfetched,
            PieceState::InProgress => PieceStateView::InProgress,
            PieceState::Fetched(location) => PieceStateView::Fetched(location@),
        }
    }
}

impl View for Piece {
    type V = PieceView;

    open spec fn view(&self) -> PieceView {
        PieceView { hash: self.hash@, state: self.state@ }
    }
}

impl Clone for PieceLocation {
    fn clone(&self) -> (copy: Self)
        ensures
            copy@ == self@,
    {
        match self {
            PieceLocation::Memory(data) => PieceLocation::Memory(bytes_to_vec(data.as_slice())),
            PieceLocation::Disk(path) => PieceLocation::Disk(path.clone()),
        }
    }
}

impl PieceLocation {
    /// The data, given what reading the file came to for a piece that is on disk.
    pub fn load(&self, read: Result<Vec<u8>, BitTorrentError>) -> (result: Result<
        Vec<u8>,
        BitTorrentError,
    >)
        ensures
            outcome(result) == match self@ {
                LocationView::Memory(data) => Ok(data),
                LocationView::Disk(_) => outcome(read),
            },
    {
        match self {
            PieceLocation::Memory(data) => Ok(bytes_to_vec(data.as_slice())),
            PieceLocation::Disk(_) => read,
        }
    }
}

impl Piece {
    /// A piece of which only the hash is known.
    pub fn new(hash: [u8; 20]) -> (piece: Self)
        ensures
            piece@ == (PieceView { hash: hash@, state: PieceStateView::Unfetched }),
    {
        Piece { hash, state: PieceState::Unfetched }
    }

    pub fn is_fetched(&self) -> (fetched: bool)
        ensures
            fetched == self@.state is Fetched,
    {
        match self.state {
            PieceState::Fetched(_) => true,
            _ => false,
        }
    }

    pub fn is_unfetched(&self) -> (unfetched: bool)
        ensures
            unfetched == self@.state is Unfetched,
    {
        match self.state {
            PieceState::Unfetched => true,
            _ => false,
        }
    }

    pub fn is_in_progress(&self) -> (in_progress: bool)
        ensures
            in_progress == self@.state is InProgress,
    {
        match self.state {
            PieceState::InProgress => true,
            _ => false,
        }
    }
}

/// The board that workers share.
pub struct Corkboard {
    pub meta_info: MetaInfo,
    pub pieces: Vec<Piece>,
    pub peers: PeerTable,
    pub finishing: bool,
    /// the pieces of which data have been found to have their hash
    pub checked: Ghost<Set<int>>,
}

/// What a `Corkboard` says.
pub struct BoardView {
    pub meta_info: MetaInfoView,
    pub pieces: Seq<PieceView>,
    pub peers: Map<SocketAddr, PeerView>,
    pub finishing: bool,
    pub checked: Set<int>,
}

/// What pieces say.
pub open spec fn pieces_view(pieces: Seq<Piece>) -> Seq<PieceView> {
    pieces.map_values(|piece: Piece| piece@)
}

impl View for Corkboard {
    type V = BoardView;

    open spec fn view(&self) -> BoardView {
        BoardView {
            meta_info: self.meta_info@,
            pieces: pieces_view(self.pieces@),
            peers: self.peers@,
            finishing: self.finishing,
            checked: self.checked@,
        }
    }
}

/// Pieces of which only the hashes are known.
pub open spec fn unfetched_pieces(hashes: Seq<Seq<u8>>) -> Seq<PieceView> {
    hashes.map_values(|hash: Seq<u8>| PieceView { hash, state: PieceStateView::Unfetched })
}

/// Whether every piece has been fetched.
pub open spec fn all_fetched(pieces: Seq<PieceView>) -> bool {
    forall|i: int| 0 <= i < pieces.len() ==> (#[trigger] pieces[i]).state is Fetched
}

/// Whether the pieces are those that the metainfo names, every piece that has been fetched
/// passed its hash check, and every piece that is kept in memory has its hash.
pub open spec fn sound(board: BoardView) -> bool {
    &&& board.pieces.len() == board.meta_info.info.pieces.len()
    &&& forall|i: int|
        0 <= i < board.pieces.len() ==> (#[trigger] board.pieces[i]).hash
            == board.meta_info.info.pieces[i]
    &&& forall|i: int|
        0 <= i < board.pieces.len() ==> sound_piece(#[trigger] board.pieces[i])
    &&& forall|i: int|
        0 <= i < board.pieces.len() && (#[trigger] board.pieces[i]).state is Fetched
            ==> board.checked.contains(i)
}

/// Whether a piece that is kept in memory has its hash.
pub open spec fn sound_piece(piece: PieceView) -> bool {
    match piece.state {
        PieceStateView::Fetched(LocationView::Memory(data)) => sha1(data) == piece.hash,
        _ => true,
    }
}

/// Pieces of which one, if it is there, is in another state.
pub open spec fn with_piece_state(
    pieces: Seq<PieceView>,
    piece_id: int,
    state: PieceStateView,
) -> Seq<PieceView> {
    if 0 <= piece_id < pieces.len() {
        pieces.update(piece_id, PieceView { state, ..pieces[piece_id] })
    } else {
        pieces
    }
}

/// Where the data of all pieces are.
pub open spec fn locations(pieces: Seq<PieceView>) -> Result<Seq<LocationView>, Seq<char>> {
    if all_fetched(pieces) {
        Ok(pieces.map_values(|piece: PieceView| piece.state->Fetched_0))
    } else {
        Err("Unfetched piece data remains!"@)
    }
}

/// What locations say.
pub open spec fn locations_view(list: Seq<PieceLocation>) -> Seq<LocationView> {
    list.map_values(|location: PieceLocation| location@)
}

impl Corkboard {
    /// A board with nothing fetched and no peers.
    pub fn new(meta_info: MetaInfo) -> (result: Result<Self, BitTorrentError>)
        ensures
            result is Ok,
            result->Ok_0@ == (BoardView {
                meta_info: meta_info@,
                pieces: unfetched_pieces(meta_info@.info.pieces),
                peers: Map::empty(),
                finishing: false,
                checked: Set::empty(),
            }),
            sound(result->Ok_0@),
    {
        let mut pieces: Vec<Piece> = Vec::new();
        let ghost all = hashes(meta_info.info.pieces@);
        let mut i: usize = 0;
        while i < meta_info.info.pieces.len()
            invariant
                0 <= i <= meta_info.info.pieces.len(),
                all == hashes(meta_info.info.pieces@),
                pieces@.len() == i,
                forall|j: int|
                    0 <= j < i ==> (#[trigger] pieces@[j])@ == (PieceView {
                        hash: all[j],
                        state: PieceStateView::Unfetched,
                    }),
            decreases meta_info.info.pieces.len() - i,
        {
            pieces.push(Piece::new(meta_info.info.pieces[i]));
            i = i + 1;
        }
        let board = Corkboard {
            meta_info,
            pieces,
            peers: PeerTable::new(),
            finishing: false,
            checked: Ghost(Set::empty()),
        };
        assert(board@.pieces =~= unfetched_pieces(meta_info@.info.pieces));
        Ok(board)
    }

    /// Whether every piece has been fetched.
    pub fn is_complete(&self) -> (complete: bool)
        ensures
            complete == all_fetched(self@.pieces),
    {
        let mut i: usize = 0;
        while i < self.pieces.len()
            invariant
                0 <= i <= self.pieces.len(),
                forall|j: int| 0 <= j < i ==> (#[trigger] self@.pieces[j]).state is Fetched,
            decreases self.pieces.len() - i,
        {
            assert(self@.pieces[i as int] == self.pieces@[i as int]@);
            if !self.pieces[i].is_fetched() {
                return false;
            }
            i = i + 1;
        }
        true
    }

    /// Put a piece, if it is there, in another state.
    pub fn set_piece_state(&mut self, piece_id: usize, state: PieceState)
        ensures
            final(self)@ == (BoardView {
                pieces: with_piece_state(old(self)@.pieces, piece_id as int, state@),
                ..old(self)@
            }),
    {
        if piece_id < self.pieces.len() {
            let ghost before = self.pieces@;
            let hash: [u8; 20] = self.pieces[piece_id].hash;
            self.pieces.set(piece_id, Piece { hash, state });
            assert(pieces_view(self.pieces@) =~= with_piece_state(
                pieces_view(before),
                piece_id as int,
                state@,
            ));
        }
    }

    /// Where the data of all pieces are.
    pub fn coallate(&self) -> (result: Result<Vec<PieceLocation>, BitTorrentError>)
        ensures
            match result {
                Ok(list) => locations(self@.pieces) == Ok::<Seq<LocationView>, Seq<char>>(
                    locations_view(list@),
                ),
                Err(error) => locations(self@.pieces) == Err::<Seq<LocationView>, Seq<char>>(
                    error@,
                ),
            },
    {
        let mut list: Vec<PieceLocation> = Vec::new();
        let mut i: usize = 0;
        while i < self.pieces.len()
            invariant
                0 <= i <= self.pieces.len(),
                list@.len() == i,
                forall|j: int|
                    0 <= j < i ==> (#[trigger] self@.pieces[j]).state is Fetched && list@[j]@
                        == self@.pieces[j].state->Fetched_0,
            decreases self.pieces.len() - i,
        {
            assert(self@.pieces[i as int] == self.pieces@[i as int]@);
            match &self.pieces[i].state {
                PieceState::Fetched(location) => {
                    list.push(location.clone());
                },
                _ => {
                    return Err(bterror("Unfetched piece data remains!"));
                },
            }
            i = i + 1;
        }
        proof {
            assert(all_fetched(self@.pieces));
            assert(locations_view(list@) =~= locations(self@.pieces)->Ok_0);
        }
        Ok(list)
    }
}

/// Whether a board is sound does not depend on its peers, nor on whether it is being
/// finished.
pub proof fn peers_keep_sound(
    board: BoardView,
    peers: Map<SocketAddr, PeerView>,
    finishing: bool,
)
    requires
        sound(board),
    ensures
        sound(BoardView { peers, finishing, ..board }),
{
}

/// Every piece that a sound board hands over passed its hash check, and what it hands over
/// from memory has the hashes of the metainfo, piece by piece.
pub proof fn coallated_data_have_hashes(board: BoardView)
    requires
        sound(board),
        locations(board.pieces) is Ok,
    ensures
        locations(board.pieces)->Ok_0.len() == board.meta_info.info.pieces.len(),
        forall|i: int| 0 <= i < board.pieces.len() ==> #[trigger] board.checked.contains(i),
        forall|i: int|
            0 <= i < board.pieces.len() ==> match #[trigger] locations(board.pieces)->Ok_0[i] {
                LocationView::Memory(data) => sha1(data) == board.meta_info.info.pieces[i],
                LocationView::Disk(_) => true,
            },
{
    assert forall|i: int| 0 <= i < board.pieces.len() implies #[trigger] board.checked.contains(
        i,
    ) by {
        assert(board.pieces[i].state is Fetched);
    }
    assert forall|i: int| 0 <= i < board.pieces.len() implies match #[trigger] locations(
        board.pieces,
    )->Ok_0[i] {
        LocationView::Memory(data) => sha1(data) == board.meta_info.info.pieces[i],
        LocationView::Disk(_) => true,
    } by {
        assert(sound_piece(board.pieces[i]));
        assert(board.pieces[i].hash == board.meta_info.info.pieces[i]);
        assert(board.pieces[i].state is Fetched);
    }
}

/// The settings of a download.
#[derive(Debug)]
pub struct Config {
    pub workers: usize,
    pub verbose: bool,
    pub temp_path: String,
    pub peer_id: String,
    pub port: u16,
}

impl Default for Config {
    fn default() -> (config: Self)
        ensures
            config.workers == 32,
            !config.verbose,
            config.temp_path@ == "tmp/in-progress/"@,
            config.peer_id@ == "00112233445566778899"@,
            config.port == 6881,
    {
        Config {
            workers: 32,
            verbose: false,
            temp_path: "tmp/in-progress/".to_string(),
            peer_id: "00112233445566778899".to_string(),
            port: 6881,
        }
    }
}

impl Clone for Config {
    fn clone(&self) -> (copy: Self)
        ensures
            copy.workers == self.workers,
            copy.verbose == self.verbose,
            copy.temp_path@ == self.temp_path@,
            copy.peer_id@ == self.peer_id@,
            copy.port == self.port,
    {
        Config {
            workers: self.workers,
            verbose: self.verbose,
            temp_path: self.temp_path.clone(),
            peer_id: self.peer_id.clone(),
            port: self.port,
        }
    }
}

/// What a download tells.
#[derive(Debug)]
pub enum Event {
    Start,
    PeerLocator(crate::download::corkboard::peer_locator::Event),
    MetadataRetrieval(crate::download::corkboard::metadata_retriever::Event),
    MetaInfoLocated(MetaInfo),
    Tracker(crate::tracker::multimodal::Event),
    DownloadInitialized,
    Seeder(crate::download::corkboard::seeder::Event),
    Watchdog(crate::download::corkboard::watchdog::Event),
    SubtaskInitialized,
    WorkersInitialized,
    DownloadFinished,
    DataCoallated,
    Finish,
}

} // verus!
