//! Downloading one piece from a peer, in chunks of which a few are asked for at a time.

use std::collections::VecDeque;

use vstd::prelude::*;

use crate::collate::{blocks_view, collate, data_of, in_order, shuffled_blocks_collate, Block};
use crate::error::{bterror, outcome, BitTorrentError};
use crate::info::{total_length, InfoView, MetaInfo};
use crate::peer::message::{MessageView, PeerMessage, PieceMessage, RequestMessage};
use crate::text::same_bytes;
use crate::util::{bytes_to_hex, hex_text, sha1, sha1_hash};

verus! {

/// size of individual piece chunks to request from peer (bytes)
pub const CHUNK_SIZE: u32 = 16384;

/// number of requests that can be in flight at once
pub const IN_FLIGHT: usize = 4;

/// maximum number of allowed rejections before the peer is disconnected
pub const MAX_REJECTIONS: usize = 64;

/// How far the download of a piece has come.
#[derive(Debug)]
pub struct PieceDownload {
    pub piece_id: u32,
    /// the size of the piece
    pub chunk_size: u32,
    /// where the chunks begin that are still to be asked for
    pub chunks: VecDeque<u32>,
    pub total_chunks: usize,
    /// the numbers and data of the blocks that have arrived
    pub blocks: Vec<(u32, Vec<u8>)>,
    pub in_flight: usize,
    pub rejections: usize,
    /// whether the peer takes no requests
    pub choked: bool,
}

/// What a `PieceDownload` says.
pub struct PieceDownloadView {
    pub piece_id: u32,
    pub chunk_size: u32,
    pub chunks: Seq<u32>,
    pub total_chunks: nat,
    pub blocks: Seq<Block>,
    pub in_flight: int,
    pub rejections: int,
    pub choked: bool,
}

impl View for PieceDownload {
    type V = PieceDownloadView;

    open spec fn view(&self) -> PieceDownloadView {
        PieceDownloadView {
            piece_id: self.piece_id,
            chunk_size: self.chunk_size,
            chunks: self.chunks@,
            total_chunks: self.total_chunks as nat,
            blocks: blocks_view(self.blocks@),
            in_flight: self.in_flight as int,
            rejections: self.rejections as int,
            choked: self.choked,
        }
    }
}

/// The size of a piece: the last one may be shorter. It is kept in 32 bits.
pub open spec fn piece_size(piece_id: int, piece_length: int, total: int) -> int {
    let left = total - piece_id * piece_length;
    (if left < piece_length {
        left
    } else {
        piece_length
    }) % 0x1_0000_0000
}

/// How many chunks a piece has.
pub open spec fn chunk_count(size: int) -> int {
    (size + CHUNK_SIZE - 1) / CHUNK_SIZE as int
}

/// Where the chunks of a piece begin.
pub open spec fn chunk_starts(size: int) -> Seq<u32> {
    Seq::new(chunk_count(size) as nat, |i: int| (i * CHUNK_SIZE) as u32)
}

/// How long the chunk is that begins at a place.
pub open spec fn chunk_length(size: int, begin: int) -> int {
    if size - begin < CHUNK_SIZE {
        size - begin
    } else {
        CHUNK_SIZE as int
    }
}

/// The download of a piece of a torrent when it starts.
pub open spec fn started(info: InfoView, piece_id: u32, choked: bool) -> PieceDownloadView {
    let size = piece_size(piece_id as int, info.piece_length, total_length(info.file_info));
    PieceDownloadView {
        piece_id,
        chunk_size: size as u32,
        chunks: chunk_starts(size),
        total_chunks: chunk_count(size) as nat,
        blocks: seq![],
        in_flight: 0,
        rejections: 0,
        choked,
    }
}

/// Whether all chunks have arrived.
pub open spec fn is_whole(state: PieceDownloadView) -> bool {
    state.blocks.len() >= state.total_chunks
}

/// The next request of a download, if one may be sent.
pub open spec fn next_request_of(state: PieceDownloadView) -> Option<RequestMessage> {
    if state.in_flight < IN_FLIGHT && !state.choked && state.chunks.len() > 0 {
        Some(
            RequestMessage {
                index: state.piece_id,
                begin: state.chunks[0],
                length: chunk_length(state.chunk_size as int, state.chunks[0] as int) as u32,
            },
        )
    } else {
        None
    }
}

/// The state after the next request has been sent.
pub open spec fn after_request(state: PieceDownloadView) -> PieceDownloadView {
    if next_request_of(state) is Some {
        PieceDownloadView {
            chunks: state.chunks.drop_first(),
            in_flight: state.in_flight + 1,
            ..state
        }
    } else {
        state
    }
}

/// The state after a message from the peer.
pub open spec fn after_message(state: PieceDownloadView, message: MessageView) -> PieceDownloadView {
    match message {
        MessageView::Piece(piece) => PieceDownloadView {
            blocks: state.blocks.push((piece.begin, piece.block)),
            in_flight: state.in_flight - 1,
            ..state
        },
        MessageView::RejectRequest(request) => PieceDownloadView {
            chunks: state.chunks.push(request.begin),
            in_flight: state.in_flight - 1,
            rejections: state.rejections + 1,
            ..state
        },
        MessageView::Choke => PieceDownloadView { choked: true, ..state },
        MessageView::Unchoke => PieceDownloadView { choked: false, ..state },
        _ => state,
    }
}

/// Whether a message answers a request.
pub open spec fn is_answer(message: MessageView) -> bool {
    message is Piece || message is RejectRequest
}

/// The data of a piece, given the blocks that have arrived and the hash that it should
/// have.
pub open spec fn piece_data(blocks: Seq<Block>, hash: Seq<u8>) -> Result<Seq<u8>, Seq<char>> {
    let data = data_of(in_order(blocks));
    if sha1(data) == hash {
        Ok(data)
    } else {
        Err(
            "Piece hash mismatch: meta info hash: "@ + hex_text(hash) + ", actual hash: "@
                + hex_text(sha1(data)),
        )
    }
}

impl PieceDownload {
    /// Whether not too many requests have been rejected.
    pub open spec fn active(self) -> bool {
        self.rejections < MAX_REJECTIONS
    }

    /// Start the download of a piece.
    pub fn new(meta_info: Option<&MetaInfo>, piece_id: u32, choked: bool) -> (result: Result<
        Self,
        BitTorrentError,
    >)
        requires
            meta_info matches Some(meta_info) ==> piece_id * meta_info@.info.piece_length
                <= total_length(meta_info@.info.file_info) <= usize::MAX,
        ensures
            match (meta_info, result) {
                (Some(meta_info), Ok(download)) => download.active() && download@ == started(
                    meta_info@.info,
                    piece_id,
                    choked,
                ),
                (None, Err(error)) => error@ == "Can't download a file without meta info!"@,
                _ => false,
            },
    {
        let meta_info = match meta_info {
            Some(meta_info) => meta_info,
            None => return Err(bterror("Can't download a file without meta info!")),
        };
        let piece_length: usize = meta_info.info.piece_length;
        let piece_offset: usize = piece_id as usize * piece_length;
        let left: usize = meta_info.length() - piece_offset;
        let shorter: usize = if left < piece_length {
            left
        } else {
            piece_length
        };
        let chunk_size: u32 = (shorter as u64 % 0x1_0000_0000) as u32;
        let mut chunks: VecDeque<u32> = VecDeque::new();
        let mut begin: u64 = 0;
        let ghost mut n: int = 0;
        assert(chunks@ =~= chunk_starts(chunk_size as int).take(0));
        while begin < chunk_size as u64
            invariant
                0 <= n <= chunk_count(chunk_size as int),
                begin == n * CHUNK_SIZE,
                begin < chunk_size + CHUNK_SIZE,
                chunks@ == chunk_starts(chunk_size as int).take(n),
            decreases chunk_count(chunk_size as int) - n,
        {
            proof {
                assert(n < chunk_count(chunk_size as int));
                assert(chunk_starts(chunk_size as int)[n] == begin);
                assert(chunk_starts(chunk_size as int).take(n + 1) =~= chunk_starts(
                    chunk_size as int,
                ).take(n).push(begin as u32));
                n = n + 1;
            }
            chunks.push_back(begin as u32);
            begin = begin + CHUNK_SIZE as u64;
        }
        assert(n == chunk_count(chunk_size as int));
        assert(chunks@ =~= chunk_starts(chunk_size as int));
        let total_chunks: usize = chunks.len();
        let blocks: Vec<(u32, Vec<u8>)> = Vec::new();
        assert(blocks_view(blocks@) =~= seq![]);
        Ok(
            PieceDownload {
                piece_id,
                chunk_size,
                chunks,
                total_chunks,
                blocks,
                in_flight: 0,
                rejections: 0,
                choked,
            },
        )
    }

    /// Whether all chunks have arrived.
    pub fn is_complete(&self) -> (complete: bool)
        ensures
            complete == is_whole(self@),
    {
        self.blocks.len() >= self.total_chunks
    }

    /// Whether the next chunk lies within the piece. A peer that rejects a request that
    /// it never got can name a chunk that does not.
    pub fn can_request(&self) -> (can: bool)
        ensures
            can == (self@.chunks.len() > 0 ==> self@.chunks[0] <= self@.chunk_size),
    {
        if self.chunks.len() > 0 {
            self.chunks[0] <= self.chunk_size
        } else {
            true
        }
    }

    /// The next request, if one may be sent.
    pub fn next_request(&mut self) -> (request: Option<RequestMessage>)
        requires
            old(self)@.chunks.len() > 0 ==> old(self)@.chunks[0] <= old(self)@.chunk_size,
        ensures
            request == next_request_of(old(self)@),
            final(self)@ == after_request(old(self)@),
            old(self).active() ==> final(self).active(),
    {
        if self.in_flight < IN_FLIGHT && !self.choked {
            match self.chunks.pop_front() {
                Some(begin) => {
                    assert(self.chunks@ =~= old(self)@.chunks.drop_first());
                    let left: u32 = self.chunk_size - begin;
                    let length: u32 = if left < CHUNK_SIZE {
                        left
                    } else {
                        CHUNK_SIZE
                    };
                    self.in_flight = self.in_flight + 1;
                    Some(RequestMessage { index: self.piece_id, begin, length })
                },
                None => None,
            }
        } else {
            None
        }
    }

    /// React to a message from the peer.
    pub fn receive(&mut self, message: PeerMessage) -> (result: Result<(), BitTorrentError>)
        requires
            old(self).active(),
            is_answer(message@) ==> old(self)@.in_flight > 0,
        ensures
            final(self)@ == after_message(old(self)@, message@),
            match result {
                Ok(_) => final(self).active(),
                Err(error) => final(self)@.rejections >= MAX_REJECTIONS && error@
                    == "Too many rejections"@,
            },
    {
        match message {
            PeerMessage::Piece(piece) => {
                let ghost before = self.blocks@;
                let PieceMessage { index: _, begin, block } = piece;
                let ghost view = (begin, block@);
                self.blocks.push((begin, block));
                assert(blocks_view(self.blocks@) =~= blocks_view(before).push(view));
                self.in_flight = self.in_flight - 1;
            },
            PeerMessage::RejectRequest(request) => {
                self.chunks.push_back(request.begin);
                self.in_flight = self.in_flight - 1;
                self.rejections = self.rejections + 1;
                if self.rejections >= MAX_REJECTIONS {
                    return Err(bterror("Too many rejections"));
                }
            },
            PeerMessage::Choke => {
                self.choked = true;
            },
            PeerMessage::Unchoke => {
                self.choked = false;
            },
            _ => {},
        }
        Ok(())
    }

    /// The data of the piece, once all chunks have arrived.
    pub fn finish(self, meta_info: &MetaInfo) -> (result: Result<Vec<u8>, BitTorrentError>)
        requires
            self.piece_id < meta_info@.info.pieces.len(),
        ensures
            outcome(result) == piece_data(
                self@.blocks,
                meta_info@.info.pieces[self@.piece_id as int],
            ),
    {
        let check_hash: [u8; 20] = meta_info.info.pieces[self.piece_id as usize];
        let full_piece = collate(self.blocks);
        let hash = sha1_hash(full_piece.as_slice());
        if same_bytes(hash.as_slice(), check_hash.as_slice()) {
            Ok(full_piece)
        } else {
            let mut text = "Piece hash mismatch: meta info hash: ".to_string();
            text.append(bytes_to_hex(check_hash.as_slice()).as_str());
            text.append(", actual hash: ");
            text.append(bytes_to_hex(hash.as_slice()).as_str());
            Err(BitTorrentError::new(text))
        }
    }
}

/// The chunks of some data.
pub open spec fn chunks_of(data: Seq<u8>) -> Seq<Block> {
    Seq::new(
        chunk_count(data.len() as int) as nat,
        |i: int|
            (
                (i * CHUNK_SIZE) as u32,
                data.subrange(
                    i * CHUNK_SIZE,
                    i * CHUNK_SIZE + chunk_length(data.len() as int, i * CHUNK_SIZE),
                ),
            ),
    )
}

proof fn lemma_chunks_join(data: Seq<u8>, n: int)
    requires
        0 <= n <= chunk_count(data.len() as int),
    ensures
        data_of(chunks_of(data).take(n)) == data.take(
            if n * CHUNK_SIZE < data.len() {
                n * CHUNK_SIZE
            } else {
                data.len() as int
            },
        ),
    decreases n,
{
    let taken = chunks_of(data).take(n);
    if n == 0 {
        assert(data.take(0) =~= seq![]);
    } else {
        lemma_chunks_join(data, n - 1);
        assert(taken.drop_last() =~= chunks_of(data).take(n - 1));
        let begin = (n - 1) * CHUNK_SIZE;
        let end = begin + chunk_length(data.len() as int, begin);
        assert(begin < data.len());
        assert(taken.last().1 == data.subrange(begin, end));
        assert(data.take(begin) + data.subrange(begin, end) =~= data.take(end));
    }
}

/// The chunks of a piece, in whatever order they arrive, make up the piece; it is
/// returned if it has the right hash.
pub proof fn chunks_make_up_piece(data: Seq<u8>, blocks: Seq<Block>, hash: Seq<u8>)
    requires
        data.len() <= u32::MAX,
        blocks.to_multiset() == chunks_of(data).to_multiset(),
    ensures
        data_of(in_order(blocks)) == data,
        hash == sha1(data) ==> piece_data(blocks, hash) == Ok::<Seq<u8>, Seq<char>>(data),
{
    let chunks = chunks_of(data);
    assert forall|i: int, j: int| 0 <= i < j < chunks.len() implies (#[trigger] chunks[i]).0 < (
    #[trigger] chunks[j]).0 by {
        assert(i * CHUNK_SIZE < j * CHUNK_SIZE <= (chunk_count(data.len() as int) - 1) * CHUNK_SIZE
            < data.len());
    }
    shuffled_blocks_collate(blocks, chunks);
    let n = chunk_count(data.len() as int);
    lemma_chunks_join(data, n);
    assert(chunks.take(n) =~= chunks);
    assert(data.take(data.len() as int) =~= data);
}

/// Requests that are in flight, chunks that are still to be asked for and blocks that
/// have arrived are together as many as there are chunks, however the download goes.
pub open spec fn accounted(state: PieceDownloadView) -> bool {
    state.in_flight + state.chunks.len() + state.blocks.len() == state.total_chunks
}

/// No chunk is lost: every step keeps the chunks accounted for.
pub proof fn steps_keep_account(state: PieceDownloadView, message: MessageView)
    requires
        accounted(state),
    ensures
        accounted(after_request(state)),
        accounted(after_message(state, message)),
{
}

/// There are never more requests in flight than allowed.
pub proof fn in_flight_is_bounded(state: PieceDownloadView, message: MessageView)
    requires
        state.in_flight <= IN_FLIGHT,
    ensures
        after_request(state).in_flight <= IN_FLIGHT,
        after_message(state, message).in_flight <= IN_FLIGHT,
{
}

/// A download is complete when no request is in flight and no chunk is to be asked for.
pub proof fn complete_when_nothing_is_owed(state: PieceDownloadView)
    requires
        accounted(state),
        state.in_flight == 0,
        state.chunks.len() == 0,
    ensures
        state.blocks.len() == state.total_chunks,
{
}

/// A download in which no chunk is lost is whole exactly when nothing is owed any more.
pub proof fn whole_when_nothing_is_owed(state: PieceDownloadView)
    requires
        accounted(state),
        state.in_flight >= 0,
    ensures
        is_whole(state) <==> state.in_flight == 0 && state.chunks.len() == 0,
{
}

/// A peer is put up with until it has refused sixty-four requests.
pub proof fn refusals_are_put_up_with(download: PieceDownload)
    ensures
        download.active() <==> download@.rejections < 64,
{
}

} // verus!
