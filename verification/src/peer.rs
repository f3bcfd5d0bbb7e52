//! Connections to peers and what is said over them.

use vstd::prelude::*;

pub mod message;
pub mod tcp;
pub mod utp;

verus! {

/// What a peer connection tells the one who opened it.
#[derive(Clone, Copy, Debug, PartialEq, Eq, Structural)]
pub enum Event {
    Start,
}

/// Whether a peer has a piece available to download, given which pieces it has.
pub fn has(bitfield: &Vec<bool>, piece_id: usize) -> (available: bool)
    ensures
        available == (piece_id < bitfield@.len() && bitfield@[piece_id as int]),
{
    piece_id < bitfield.len() && bitfield[piece_id]
}

} // verus!
