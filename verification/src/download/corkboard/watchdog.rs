//! The watchdog, which puts peers on the board as they are found.

use vstd::prelude::*;

use crate::download::corkboard::peers::{fresh_peer, Peer, PeerState, PeerView};
use crate::download::corkboard::{BoardView, Corkboard};
use crate::net::SocketAddr;

verus! {

/// What the watchdog tells.
#[derive(Clone, Copy, Debug, PartialEq, Eq, Structural)]
pub enum Event {
    Start,
}

/// A known peer that has been found again: attempts to connect to it count anew, and it
/// is fresh unless it has failed or is in use.
pub open spec fn found_again(peer: PeerView) -> PeerView {
    PeerView {
        connection_attempts: 0,
        state: if peer.state == PeerState::Error || peer.state == PeerState::Active(true)
            || peer.state == PeerState::Connecting {
            peer.state
        } else {
            PeerState::Fresh
        },
        ..peer
    }
}

/// The board after a peer has been found.
pub open spec fn with_found_peer(board: BoardView, address: SocketAddr) -> BoardView {
    BoardView {
        peers: board.peers.insert(
            address,
            if board.peers.contains_key(address) {
                found_again(board.peers[address])
            } else {
                fresh_peer()
            },
        ),
        ..board
    }
}

/// Put a peer on the board that has been found.
pub fn add_peer(board: &mut Corkboard, address: SocketAddr)
    ensures
        final(board)@ == with_found_peer(old(board)@, address),
{
    match board.peers.get(address) {
        Some(peer) => {
            let mut copy = peer.clone();
            copy.connection_attempts = 0;
            if !(copy.state == PeerState::Error || copy.state == PeerState::Active(true)
                || copy.state == PeerState::Connecting) {
                copy.state = PeerState::Fresh;
            }
            board.peers.set(address, copy);
        },
        None => {
            board.peers.set(address, Peer::new());
        },
    }
}

/// Finding a peer again changes nothing once it has been found.
pub proof fn found_twice_is_found_once(board: BoardView, address: SocketAddr)
    ensures
        with_found_peer(with_found_peer(board, address), address) == with_found_peer(
            board,
            address,
        ),
{
    let once = with_found_peer(board, address);
    assert(with_found_peer(once, address).peers =~= once.peers);
}

/// A peer that has failed stays so when it is found again, and one that is in use stays
/// in use.
pub proof fn found_keeps_use(board: BoardView, address: SocketAddr)
    requires
        board.peers.contains_key(address),
    ensures
        ({
            let before = board.peers[address].state;
            let after = with_found_peer(board, address).peers[address].state;
            before == PeerState::Error || before == PeerState::Active(true) || before
                == PeerState::Connecting ==> after == before
        }),
{
}

} // verus!
