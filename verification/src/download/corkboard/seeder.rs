//! The seeder, which feeds torrent data back to peers that connect.

use vstd::prelude::*;
use vstd::slice::slice_subrange;
use vstd::utf8::{decode_utf8, valid_utf8};

use crate::download::corkboard::{
    Corkboard, LocationView, Piece, PieceLocation, PieceState, PieceStateView, PieceView,
};
use crate::error::{bterror, bterror_with, outcome, BitTorrentError};
use crate::peer::message::{
    HandshakeMessage, MessageView, PeerMessage, PieceMessage, RequestMessage,
};
use crate::peer::tcp::piece::{
    chunk_count, chunk_length, chunks_make_up_piece, chunks_of, piece_data, CHUNK_SIZE,
};
use crate::util::sha1;
use crate::text::{bytes_to_vec, decimal_nat, push_decimal, string_from_utf8, utf8_error_text};

verus! {

/// time in between non-blocking tcp listener requests (milliseconds)
pub const INTERVAL: u64 = 1_000;

/// What the seeder tells.
#[derive(Clone, Copy, Debug, PartialEq, Eq, Structural)]
pub enum Event {
    Start,
}

/// The id of a peer that has shaken hands, as text.
pub fn peer_id_text(handshake: &HandshakeMessage) -> (result: Result<String, BitTorrentError>)
    ensures
        outcome(result) == if valid_utf8(handshake@.peer_id) {
            Ok(decode_utf8(handshake@.peer_id))
        } else {
            Err("Peer id not bytes: "@ + utf8_error_text(handshake@.peer_id))
        },
{
    match string_from_utf8(bytes_to_vec(handshake.peer_id.as_slice())) {
        Ok(text) => Ok(text),
        Err(complaint) => Err(bterror_with("Peer id not bytes: ", complaint.as_str())),
    }
}

/// Which pieces can be served.
pub open spec fn fetched_bits(pieces: Seq<PieceView>) -> Seq<bool> {
    pieces.map_values(|piece: PieceView| piece.state is Fetched)
}

/// Which pieces can be served.
pub fn served_bitfield(board: &Corkboard) -> (bits: Vec<bool>)
    ensures
        bits@ == fetched_bits(board@.pieces),
{
    let mut bits: Vec<bool> = Vec::new();
    let mut i: usize = 0;
    while i < board.pieces.len()
        invariant
            0 <= i <= board.pieces.len(),
            bits@.len() == i,
            forall|j: int|
                0 <= j < i ==> #[trigger] bits@[j] == (board.pieces@[j]@.state is Fetched),
        decreases board.pieces.len() - i,
    {
        bits.push(board.pieces[i].is_fetched());
        i = i + 1;
    }
    assert(bits@ =~= fetched_bits(board@.pieces));
    bits
}

/// Where the data for a request are.
pub open spec fn requested_location(
    pieces: Seq<PieceView>,
    request: RequestMessage,
) -> Result<LocationView, Seq<char>> {
    if request.index < pieces.len() && pieces[request.index as int].state is Fetched {
        Ok(pieces[request.index as int].state->Fetched_0)
    } else {
        Err("Piece "@ + decimal_nat(request.index as nat) + " is not fetched"@)
    }
}

/// Where the data for a request are.
pub fn find_location(board: &Corkboard, request: RequestMessage) -> (result: Result<
    PieceLocation,
    BitTorrentError,
>)
    ensures
        outcome(result) == requested_location(board@.pieces, request),
{
    let index: usize = request.index as usize;
    if index < board.pieces.len() {
        assert(board@.pieces[index as int] == board.pieces@[index as int]@);
        match &board.pieces[index].state {
            PieceState::Fetched(location) => {
                return Ok(location.clone());
            },
            _ => {},
        }
    }
    let mut text = "Piece ".to_string();
    push_decimal(&mut text, request.index as u128);
    text.append(" is not fetched");
    Err(BitTorrentError::new(text))
}

/// What is done about a message from a peer that data are served to.
#[derive(Debug)]
pub enum SeederStep {
    Ignore,
    /// tell the peer that it may ask
    Unchoke,
    /// answer a request with data from a place
    Serve(RequestMessage, PieceLocation),
    /// give the connection up
    Fail(BitTorrentError),
}

/// What a `SeederStep` says.
pub enum SeederStepView {
    Ignore,
    Unchoke,
    Serve(RequestMessage, LocationView),
    Fail(Seq<char>),
}

impl View for SeederStep {
    type V = SeederStepView;

    open spec fn view(&self) -> SeederStepView {
        match self {
            SeederStep::Ignore => SeederStepView::Ignore,
            SeederStep::Unchoke => SeederStepView::Unchoke,
            SeederStep::Serve(request, location) => SeederStepView::Serve(*request, location@),
            SeederStep::Fail(error) => SeederStepView::Fail(error@),
        }
    }
}

/// What is done about a message, given whether the peer has shown interest; and whether
/// it has then. The address is that of the peer as it is shown.
pub open spec fn seeder_step(
    pieces: Seq<PieceView>,
    interested: bool,
    message: MessageView,
    address: Seq<char>,
) -> (SeederStepView, bool) {
    if !interested {
        match message {
            MessageView::Interested => (SeederStepView::Unchoke, true),
            MessageView::NotInterested => (
                SeederStepView::Fail(address + " was not interested"@),
                false,
            ),
            _ => (SeederStepView::Ignore, false),
        }
    } else {
        match message {
            MessageView::Request(request) => match requested_location(pieces, request) {
                Ok(location) => (SeederStepView::Serve(request, location), true),
                Err(complaint) => (SeederStepView::Fail(complaint), true),
            },
            _ => (SeederStepView::Ignore, true),
        }
    }
}

/// A connection over which data are served.
#[derive(Debug)]
pub struct SeederSession {
    /// whether the peer has shown interest
    pub interested: bool,
}

impl SeederSession {
    pub fn new() -> (session: Self)
        ensures
            !session.interested,
    {
        SeederSession { interested: false }
    }

    /// React to a message from the peer.
    pub fn receive(&mut self, board: &Corkboard, message: &PeerMessage, address: &str) -> (step:
        SeederStep)
        ensures
            (step@, final(self).interested) == seeder_step(
                board@.pieces,
                old(self).interested,
                message@,
                address@,
            ),
    {
        if !self.interested {
            match message {
                PeerMessage::Interested => {
                    self.interested = true;
                    SeederStep::Unchoke
                },
                PeerMessage::NotInterested => SeederStep::Fail(
                    BitTorrentError::new(address.to_string().concat(" was not interested")),
                ),
                _ => SeederStep::Ignore,
            }
        } else {
            match message {
                PeerMessage::Request(request) => match find_location(board, *request) {
                    Ok(location) => SeederStep::Serve(*request, location),
                    Err(error) => SeederStep::Fail(error),
                },
                _ => SeederStep::Ignore,
            }
        }
    }
}

/// Nothing is served before the peer has shown interest, and nothing that has not been
/// fetched.
pub proof fn serves_only_what_is_fetched(
    pieces: Seq<PieceView>,
    interested: bool,
    message: MessageView,
    address: Seq<char>,
)
    ensures
        seeder_step(pieces, interested, message, address).0 matches SeederStepView::Serve(
            request,
            location,
        ) ==> interested && message == MessageView::Request(request) && request.index
            < pieces.len() && pieces[request.index as int].state == PieceStateView::Fetched(
            location,
        ),
{
}

/// The part of a piece that a request asks for.
pub open spec fn requested_part(data: Seq<u8>, request: RequestMessage) -> Result<
    Seq<u8>,
    Seq<char>,
> {
    if request.begin + request.length <= data.len() {
        Ok(data.subrange(request.begin as int, request.begin + request.length))
    } else {
        Err("Invalid chunk data"@)
    }
}

/// The answer to a request, given the data of the piece.
pub open spec fn answer_to(data: Seq<u8>, request: RequestMessage) -> Result<
    MessageView,
    Seq<char>,
> {
    match requested_part(data, request) {
        Ok(part) => Ok(
            MessageView::Piece(
                crate::peer::message::PieceView {
                    index: request.index,
                    begin: request.begin,
                    block: part,
                },
            ),
        ),
        Err(complaint) => Err(complaint),
    }
}

/// The answer to a request, given the data of the piece.
pub fn answer(request: RequestMessage, data: &[u8]) -> (result: Result<
    PeerMessage,
    BitTorrentError,
>)
    requires
        request.begin + request.length <= u32::MAX,
    ensures
        outcome(result) == answer_to(data@, request),
{
    let begin: usize = request.begin as usize;
    let end: usize = (request.begin + request.length) as usize;
    if end <= data.len() {
        let block = bytes_to_vec(slice_subrange(data, begin, end));
        Ok(PeerMessage::Piece(PieceMessage { index: request.index, begin: request.begin, block }))
    } else {
        Err(bterror("Invalid chunk data"))
    }
}

/// Whether a request can be answered at all.
pub fn can_answer(request: RequestMessage) -> (can: bool)
    ensures
        can == (request.begin + request.length <= u32::MAX),
{
    request.length <= u32::MAX - request.begin
}

/// The answer to the request for a chunk of a piece holds that chunk.
pub proof fn chunks_are_served(data: Seq<u8>, index: u32, i: int)
    requires
        data.len() <= u32::MAX,
        0 <= i < chunk_count(data.len() as int),
    ensures
        ({
            let request = chunk_request(data.len() as int, index, i);
            &&& requested_part(data, request) == Ok::<Seq<u8>, Seq<char>>(chunks_of(data)[i].1)
            &&& request.begin == chunks_of(data)[i].0
        }),
{
    assert(i * CHUNK_SIZE < data.len());
}

/// The request for a chunk of a piece.
pub open spec fn chunk_request(size: int, index: u32, i: int) -> RequestMessage {
    RequestMessage {
        index,
        begin: (i * CHUNK_SIZE) as u32,
        length: chunk_length(size, i * CHUNK_SIZE) as u32,
    }
}

/// The answers to the requests for all chunks of a piece make up the piece.
pub proof fn served_chunks_make_up_piece(data: Seq<u8>, index: u32)
    requires
        data.len() <= u32::MAX,
    ensures
        ({
            let size = data.len() as int;
            let blocks = Seq::new(
                chunk_count(size) as nat,
                |i: int|
                    (
                        chunk_request(size, index, i).begin,
                        requested_part(data, chunk_request(size, index, i))->Ok_0,
                    ),
            );
            piece_data(blocks, sha1(data)) == Ok::<Seq<u8>, Seq<char>>(data)
        }),
{
    let size = data.len() as int;
    let blocks = Seq::new(
        chunk_count(size) as nat,
        |i: int|
            (
                chunk_request(size, index, i).begin,
                requested_part(data, chunk_request(size, index, i))->Ok_0,
            ),
    );
    assert forall|i: int| 0 <= i < blocks.len() implies #[trigger] blocks[i] == chunks_of(
        data,
    )[i] by {
        chunks_are_served(data, index, i);
    }
    assert(blocks =~= chunks_of(data));
    chunks_make_up_piece(data, blocks, sha1(data));
}

} // verus!
