//! Downloading torrents.

use vstd::prelude::*;

use crate::collate::{blocks_view, collate, data_of, in_order, shuffled_blocks_collate, Block};
use crate::data_proxy::piece_of_data;
use crate::error::{bterror, BitTorrentError};
use crate::net::SocketAddr;

pub mod corkboard;
pub mod laws;

verus! {

/// The peer that a single piece is downloaded from: the first that the tracker names.
pub fn first_peer(peers: &Vec<SocketAddr>) -> (result: Result<SocketAddr, BitTorrentError>)
    ensures
        match result {
            Ok(peer) => peers@.len() > 0 && peer == peers@[0],
            Err(error) => peers@.len() == 0 && error@ == "Tracker has no peers"@,
        },
{
    if peers.len() > 0 {
        Ok(peers[0])
    } else {
        Err(bterror("Tracker has no peers"))
    }
}

/// What becomes of a piece that a worker took from the queue.
#[derive(Clone, Copy, Debug, PartialEq, Eq, Structural)]
pub enum PieceOutcome {
    /// hand the data over
    Deliver,
    /// put the piece back in the queue, with the reason for a failure to do so
    Requeue,
}

/// What becomes of a piece: it is delivered if the peer has it and the download
/// succeeded, and put back in the queue otherwise.
pub fn piece_outcome(available: bool, downloaded: bool) -> (outcome: PieceOutcome)
    ensures
        outcome == if available && downloaded {
            PieceOutcome::Deliver
        } else {
            PieceOutcome::Requeue
        },
{
    if available && downloaded {
        PieceOutcome::Deliver
    } else {
        PieceOutcome::Requeue
    }
}

/// The file made of the pieces that were delivered, in whatever order they came.
pub fn assemble_file(pieces: Vec<(u32, Vec<u8>)>) -> (data: Vec<u8>)
    ensures
        data@ == data_of(in_order(blocks_view(pieces@))),
{
    collate(pieces)
}

/// How many pieces data have.
pub open spec fn piece_count(len: int, piece_length: int) -> int {
    (len + piece_length - 1) / piece_length
}

/// The pieces of data with their numbers.
pub open spec fn numbered_pieces(data: Seq<u8>, piece_length: int) -> Seq<Block> {
    Seq::new(
        piece_count(data.len() as int, piece_length) as nat,
        |i: int| (i as u32, piece_of_data(data, piece_length, i)),
    )
}

/// Every piece begins within the data.
pub proof fn lemma_piece_starts(len: int, piece_length: int, n: int)
    requires
        0 < piece_length,
        0 <= len,
        0 <= n < piece_count(len, piece_length),
    ensures
        0 <= n * piece_length < len,
{
    let count = piece_count(len, piece_length);
    vstd::arithmetic::div_mod::lemma_fundamental_div_mod(len + piece_length - 1, piece_length);
    vstd::arithmetic::div_mod::lemma_mod_bound(len + piece_length - 1, piece_length);
    assert(n * piece_length <= (count - 1) * piece_length) by (nonlinear_arith)
        requires
            n <= count - 1,
            0 < piece_length,
    ;
    assert(piece_length * count == (count - 1) * piece_length + piece_length) by (nonlinear_arith);
    assert(0 <= n * piece_length) by (nonlinear_arith)
        requires
            0 <= n,
            0 < piece_length,
    ;
}

proof fn lemma_pieces_join(data: Seq<u8>, piece_length: int, n: int)
    requires
        0 < piece_length,
        0 <= n <= piece_count(data.len() as int, piece_length),
    ensures
        data_of(numbered_pieces(data, piece_length).take(n)) == data.take(
            if n * piece_length < data.len() {
                n * piece_length
            } else {
                data.len() as int
            },
        ),
    decreases n,
{
    let taken = numbered_pieces(data, piece_length).take(n);
    if n == 0 {
        assert(0 * piece_length == 0) by (nonlinear_arith);
        assert(data.take(0) =~= seq![]);
    } else {
        lemma_pieces_join(data, piece_length, n - 1);
        lemma_piece_starts(data.len() as int, piece_length, n - 1);
        assert(taken.drop_last() =~= numbered_pieces(data, piece_length).take(n - 1));
        let begin = (n - 1) * piece_length;
        assert(n * piece_length == begin + piece_length) by (nonlinear_arith)
            requires
                begin == (n - 1) * piece_length,
        ;
        let end = if data.len() - begin < piece_length {
            data.len() as int
        } else {
            begin + piece_length
        };
        assert(taken.last().1 == data.subrange(begin, end));
        assert(data.take(begin) + data.subrange(begin, end) =~= data.take(end));
    }
}

/// The pieces of a file, in whatever order they are delivered, make up the file.
pub proof fn pieces_make_up_file(data: Seq<u8>, piece_length: int, blocks: Seq<Block>)
    requires
        0 < piece_length,
        piece_count(data.len() as int, piece_length) <= u32::MAX,
        blocks.to_multiset() == numbered_pieces(data, piece_length).to_multiset(),
    ensures
        data_of(in_order(blocks)) == data,
{
    let pieces = numbered_pieces(data, piece_length);
    let n = piece_count(data.len() as int, piece_length);
    shuffled_blocks_collate(blocks, pieces);
    vstd::arithmetic::div_mod::lemma_div_pos_is_pos(
        data.len() + piece_length - 1,
        piece_length,
    );
    lemma_pieces_join(data, piece_length, n);
    assert(pieces.take(n) =~= pieces);
    assert(data.len() <= n * piece_length) by {
        vstd::arithmetic::div_mod::lemma_fundamental_div_mod(
            data.len() + piece_length - 1,
            piece_length,
        );
        vstd::arithmetic::div_mod::lemma_mod_bound(data.len() + piece_length - 1, piece_length);
        vstd::arithmetic::mul::lemma_mul_is_commutative(n, piece_length);
    }
    assert(data.take(data.len() as int) =~= data);
}

} // verus!
