//! What the figures of a download tell.

use vstd::prelude::*;

use crate::download::corkboard::monitor::{
    fetched_ids, ids_where, in_progress_ids, listed_numbers, numbers, pieces_are_counted_once,
    unfetched_ids, Statistics,
};
use crate::download::corkboard::peers::{in_state, PeerState, PeerView};
use crate::download::corkboard::{BoardView, PieceView};
use crate::net::SocketAddr;
use crate::text::{decimal, decimal_nat, decimal_reads_back, unsigned_of_text};

verus! {

proof fn lemma_ids(pieces: Seq<PieceView>, holds: spec_fn(PieceView) -> bool, limit: int)
    requires
        0 <= limit <= pieces.len(),
    ensures
        forall|i: int|
            ids_where(pieces, holds, limit).contains(i) <==> 0 <= i < limit && holds(
                #[trigger] pieces[i],
            ),
        forall|a: int, b: int|
            0 <= a < b < ids_where(pieces, holds, limit).len() ==> #[trigger] ids_where(
                pieces,
                holds,
                limit,
            )[a] < #[trigger] ids_where(pieces, holds, limit)[b],
        forall|a: int|
            0 <= a < ids_where(pieces, holds, limit).len() ==> 0 <= #[trigger] ids_where(
                pieces,
                holds,
                limit,
            )[a] < limit,
    decreases limit,
{
    if limit > 0 {
        lemma_ids(pieces, holds, limit - 1);
        let before = ids_where(pieces, holds, limit - 1);
        let ids = ids_where(pieces, holds, limit);
        assert forall|i: int|
            ids.contains(i) <==> 0 <= i < limit && holds(#[trigger] pieces[i]) by {
            if 0 <= i < limit && holds(pieces[i]) {
                if i == limit - 1 {
                    assert(ids[before.len() as int] == i);
                } else {
                    assert(before.contains(i));
                    let a = choose|a: int| 0 <= a < before.len() && before[a] == i;
                    assert(ids[a] == i);
                }
            }
            if ids.contains(i) {
                let a = choose|a: int| 0 <= a < ids.len() && ids[a] == i;
                if a < before.len() {
                    assert(before[a] == i);
                    assert(before.contains(i));
                }
            }
        }
    }
}

/// Every piece is listed with those in its state, once and in the order of the pieces.
pub proof fn pieces_are_listed_by_state(pieces: Seq<PieceView>, i: int)
    requires
        0 <= i < pieces.len(),
    ensures
        unfetched_ids(pieces).contains(i) <==> pieces[i].state is Unfetched,
        in_progress_ids(pieces).contains(i) <==> pieces[i].state is InProgress,
        fetched_ids(pieces).contains(i) <==> pieces[i].state is Fetched,
        forall|a: int, b: int|
            0 <= a < b < unfetched_ids(pieces).len() ==> #[trigger] unfetched_ids(pieces)[a]
                < #[trigger] unfetched_ids(pieces)[b],
        forall|a: int, b: int|
            0 <= a < b < in_progress_ids(pieces).len() ==> #[trigger] in_progress_ids(pieces)[a]
                < #[trigger] in_progress_ids(pieces)[b],
{
    let n = pieces.len() as int;
    lemma_ids(pieces, |piece: PieceView| piece.state is Unfetched, n);
    lemma_ids(pieces, |piece: PieceView| piece.state is InProgress, n);
    lemma_ids(pieces, |piece: PieceView| piece.state is Fetched, n);
    assert(pieces[i] == pieces[i]);
}

/// Numbers are listed one behind the other, all of them, with commas between them.
pub proof fn numbers_are_listed(a: Seq<usize>, b: Seq<usize>)
    requires
        a.len() > 0,
        b.len() > 0,
    ensures
        listed_numbers(a + b) == listed_numbers(a) + seq![',', ' '] + listed_numbers(b),
        a.len() == 1 ==> unsigned_of_text(listed_numbers(a)) == Some(a[0] as int),
    decreases b.len(),
{
    reveal_strlit(", ");
    assert(", "@ =~= seq![',', ' ']);
    decimal_reads_back(a[0] as int);
    let all = a + b;
    assert(all.drop_last() =~= a + b.drop_last());
    assert(all.last() == b.last());
    if b.len() == 1 {
        assert(all.drop_last() =~= a);
    } else {
        numbers_are_listed(a, b.drop_last());
        assert(listed_numbers(all) =~= listed_numbers(a) + seq![',', ' '] + listed_numbers(b));
    }
}

/// Whether a line tells a number behind a name.
pub open spec fn tells(line: Seq<char>, name: Seq<char>, n: int) -> bool {
    &&& line.len() >= name.len()
    &&& line.take(name.len() as int) == name
    &&& unsigned_of_text(line.skip(name.len() as int)) == Some(n)
}

proof fn lemma_tells(name: Seq<char>, n: nat)
    ensures
        tells(name + decimal_nat(n), name, n as int),
{
    let line = name + decimal_nat(n);
    decimal_reads_back(n as int);
    assert(line.take(name.len() as int) =~= name);
    assert(line.skip(name.len() as int) =~= decimal(n as int));
}

/// The report tells each figure behind its name; the pieces that are still to be fetched are
/// listed if there are fewer than fifty.
pub proof fn report_tells_figures(statistics: Statistics)
    ensures
        ({
            let lines = statistics.report_lines();
            let missing = statistics.unfetched_ids@.len() + statistics.in_progress_ids@.len();
            &&& lines.len() == if missing < 50 {
                23int
            } else {
                20
            }
            &&& tells(lines[4], "Total Peers:   "@, statistics.total_peers as int)
            &&& tells(lines[5], "Fresh:         "@, statistics.fresh as int)
            &&& tells(lines[6], "Active:        "@, statistics.active as int)
            &&& tells(lines[7], "Connecting:    "@, statistics.connecting as int)
            &&& tells(lines[8], "Connected:     "@, statistics.connected as int)
            &&& tells(lines[9], "Superceded:    "@, statistics.superceded as int)
            &&& tells(lines[10], "Error:         "@, statistics.error as int)
            &&& tells(lines[13], "Total Pieces:  "@, statistics.total_pieces as int)
            &&& tells(lines[14], "Unfetched:     "@, statistics.unfetched_ids@.len() as int)
            &&& tells(lines[15], "In Progress:   "@, statistics.in_progress_ids@.len() as int)
            &&& tells(lines[16], "Fetched:       "@, statistics.fetched as int)
            &&& missing < 50 ==> lines[18] == "Unfetched ids: "@ + ("["@ + listed_numbers(
                statistics.unfetched_ids@,
            ) + "]"@)
            &&& missing < 50 ==> lines[19] == "In Progress ids: "@ + ("["@ + listed_numbers(
                statistics.in_progress_ids@,
            ) + "]"@)
        }),
{
    lemma_tells("Total Peers:   "@, statistics.total_peers as nat);
    lemma_tells("Fresh:         "@, statistics.fresh as nat);
    lemma_tells("Active:        "@, statistics.active as nat);
    lemma_tells("Connecting:    "@, statistics.connecting as nat);
    lemma_tells("Connected:     "@, statistics.connected as nat);
    lemma_tells("Superceded:    "@, statistics.superceded as nat);
    lemma_tells("Error:         "@, statistics.error as nat);
    lemma_tells("Total Pieces:  "@, statistics.total_pieces as nat);
    lemma_tells("Unfetched:     "@, statistics.unfetched_ids@.len());
    lemma_tells("In Progress:   "@, statistics.in_progress_ids@.len());
    lemma_tells("Fetched:       "@, statistics.fetched as nat);
}

/// The summary begins with how many of the peers are connected to and ends with how many of
/// the pieces have been downloaded.
pub proof fn summary_tells_progress(statistics: Statistics)
    ensures
        ({
            let text = statistics.summary_text();
            let peers = decimal_nat(statistics.connected as nat) + "/"@ + decimal_nat(
                statistics.total_peers as nat,
            );
            let pieces = decimal_nat(statistics.fetched as nat) + "/"@ + decimal_nat(
                statistics.total_pieces as nat,
            );
            text == "Connected to "@ + peers + (" peers, downloaded "@ + pieces + " pieces"@)
        }),
{
    let peers = decimal_nat(statistics.connected as nat) + "/"@ + decimal_nat(
        statistics.total_peers as nat,
    );
    let pieces = decimal_nat(statistics.fetched as nat) + "/"@ + decimal_nat(
        statistics.total_pieces as nat,
    );
    assert(statistics.summary_text() =~= "Connected to "@ + peers + (" peers, downloaded "@ + pieces
        + " pieces"@));
}

/// The figures of a board count each piece once, and the pieces that they list are those in
/// the state that they are listed under.
pub proof fn figures_fit_board(statistics: Statistics, board: BoardView, i: int)
    requires
        statistics.describes(board),
    ensures
        statistics.unfetched_ids@.len() + statistics.in_progress_ids@.len() + statistics.fetched
            == board.pieces.len(),
        statistics.total_pieces == board.pieces.len(),
        0 <= i < statistics.unfetched_ids@.len() ==> statistics.unfetched_ids@[i]
            < board.pieces.len() && board.pieces[statistics.unfetched_ids@[i] as int].state
            is Unfetched,
{
    pieces_are_counted_once(board.pieces);
    let ids = unfetched_ids(board.pieces);
    assert(numbers(statistics.unfetched_ids@).len() == statistics.unfetched_ids@.len());
    assert(numbers(statistics.in_progress_ids@).len() == statistics.in_progress_ids@.len());
    if 0 <= i < statistics.unfetched_ids@.len() {
        assert(ids[i] == statistics.unfetched_ids@[i]);
        lemma_ids(
            board.pieces,
            |piece: PieceView| piece.state is Unfetched,
            board.pieces.len() as int,
        );
        assert(ids.contains(ids[i]));
        assert(board.pieces[ids[i]] == board.pieces[ids[i]]);
    }
}

/// A peer is counted under its state and under no other.
pub proof fn peers_are_counted_by_state(
    peers: Map<SocketAddr, PeerView>,
    address: SocketAddr,
    state: PeerState,
)
    ensures
        in_state(peers, state).contains(address) <==> peers.contains_key(address)
            && peers[address].state == state,
        in_state(peers, state).subset_of(peers.dom()),
{
}

} // verus!
