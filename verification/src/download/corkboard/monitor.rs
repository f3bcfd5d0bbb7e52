//! The monitor, which tells how a download is going.

use vstd::prelude::*;

use crate::download::corkboard::peers::{in_state, PeerState};
use crate::download::corkboard::{BoardView, Corkboard, PieceView};
use crate::text::{decimal_nat, push_decimal, texts};

pub mod laws;

verus! {

/// time between reports (milliseconds)
pub const INTERVAL: u64 = 5_000;

/// with fewer pieces left than this, they are listed
pub const FEW_PIECES: usize = 50;

/// How many peers and pieces are in which state.
#[derive(Debug)]
pub struct Statistics {
    pub total_peers: usize,
    pub fresh: usize,
    pub connecting: usize,
    pub active: usize,
    pub connected: usize,
    pub superceded: usize,
    pub error: usize,
    pub total_pieces: usize,
    pub unfetched_ids: Vec<usize>,
    pub in_progress_ids: Vec<usize>,
    pub fetched: usize,
}

/// The numbers of the pieces for which something holds, below a limit.
pub open spec fn ids_where(
    pieces: Seq<PieceView>,
    holds: spec_fn(PieceView) -> bool,
    limit: int,
) -> Seq<int>
    decreases limit,
{
    if limit <= 0 {
        seq![]
    } else if holds(pieces[limit - 1]) {
        ids_where(pieces, holds, limit - 1).push(limit - 1)
    } else {
        ids_where(pieces, holds, limit - 1)
    }
}

/// The numbers of the pieces that nobody has taken up.
pub open spec fn unfetched_ids(pieces: Seq<PieceView>) -> Seq<int> {
    ids_where(pieces, |piece: PieceView| piece.state is Unfetched, pieces.len() as int)
}

/// The numbers of the pieces that are being downloaded.
pub open spec fn in_progress_ids(pieces: Seq<PieceView>) -> Seq<int> {
    ids_where(pieces, |piece: PieceView| piece.state is InProgress, pieces.len() as int)
}

/// The numbers of the pieces that have been fetched.
pub open spec fn fetched_ids(pieces: Seq<PieceView>) -> Seq<int> {
    ids_where(pieces, |piece: PieceView| piece.state is Fetched, pieces.len() as int)
}

/// Numbers as integers.
pub open spec fn numbers(list: Seq<usize>) -> Seq<int> {
    list.map_values(|n: usize| n as int)
}

/// Numbers in decimal with commas between them.
pub open spec fn listed_numbers(list: Seq<usize>) -> Seq<char>
    decreases list.len(),
{
    if list.len() == 0 {
        seq![]
    } else if list.len() == 1 {
        decimal_nat(list[0] as nat)
    } else {
        listed_numbers(list.drop_last()) + ", "@ + decimal_nat(list.last() as nat)
    }
}

/// Numbers listed in brackets.
fn list_numbers(list: &Vec<usize>) -> (text: String)
    ensures
        text@ == "["@ + listed_numbers(list@) + "]"@,
{
    let mut text = "[".to_string();
    let mut i: usize = 0;
    assert("["@ =~= "["@ + listed_numbers(list@.take(0)));
    while i < list.len()
        invariant
            0 <= i <= list.len(),
            text@ == "["@ + listed_numbers(list@.take(i as int)),
        decreases list.len() - i,
    {
        assert(list@.take(i + 1).drop_last() =~= list@.take(i as int));
        assert(list@.take(i + 1).last() == list@[i as int]);
        if i > 0 {
            text.append(", ");
        }
        push_decimal(&mut text, list[i] as u128);
        i = i + 1;
        assert(text@ =~= "["@ + listed_numbers(list@.take(i as int)));
    }
    assert(list@.take(i as int) =~= list@);
    text.append("]");
    text
}

/// A line that counts something.
fn counted_line(name: &str, count: usize) -> (line: String)
    ensures
        line@ == name@ + decimal_nat(count as nat),
{
    let mut line = name.to_string();
    push_decimal(&mut line, count as u128);
    line
}

impl Statistics {
    /// Whether statistics are those of a board.
    pub open spec fn describes(self, board: BoardView) -> bool {
        &&& self.total_peers == board.peers.dom().len()
        &&& self.fresh == in_state(board.peers, PeerState::Fresh).len()
        &&& self.connecting == in_state(board.peers, PeerState::Connecting).len()
        &&& self.active == in_state(board.peers, PeerState::Active(false)).len()
        &&& self.connected == in_state(board.peers, PeerState::Active(true)).len()
        &&& self.superceded == in_state(board.peers, PeerState::Superceded).len()
        &&& self.error == in_state(board.peers, PeerState::Error).len()
        &&& self.total_pieces == board.pieces.len()
        &&& numbers(self.unfetched_ids@) == unfetched_ids(board.pieces)
        &&& numbers(self.in_progress_ids@) == in_progress_ids(board.pieces)
        &&& self.fetched == fetched_ids(board.pieces).len()
    }

    /// The figures in one line.
    pub open spec fn summary_text(self) -> Seq<char> {
        "Connected to "@ + decimal_nat(self.connected as nat) + "/"@ + decimal_nat(
            self.total_peers as nat,
        ) + " peers, downloaded "@ + decimal_nat(self.fetched as nat) + "/"@ + decimal_nat(
            self.total_pieces as nat,
        ) + " pieces"@
    }

    /// The lines of a report that count peers and pieces.
    pub open spec fn count_lines(self) -> Seq<Seq<char>> {
        seq![
            ""@,
            "----------------------------"@,
            ""@,
            "Peer Stats:"@,
            "Total Peers:   "@ + decimal_nat(self.total_peers as nat),
            "Fresh:         "@ + decimal_nat(self.fresh as nat),
            "Active:        "@ + decimal_nat(self.active as nat),
            "Connecting:    "@ + decimal_nat(self.connecting as nat),
            "Connected:     "@ + decimal_nat(self.connected as nat),
            "Superceded:    "@ + decimal_nat(self.superceded as nat),
            "Error:         "@ + decimal_nat(self.error as nat),
            ""@,
            "Piece Stats:"@,
            "Total Pieces:  "@ + decimal_nat(self.total_pieces as nat),
            "Unfetched:     "@ + decimal_nat(self.unfetched_ids@.len()),
            "In Progress:   "@ + decimal_nat(self.in_progress_ids@.len()),
            "Fetched:       "@ + decimal_nat(self.fetched as nat),
        ]
    }

    /// The lines of a report that list the pieces that are left.
    pub open spec fn id_lines(self) -> Seq<Seq<char>> {
        seq![
            ""@,
            "Unfetched ids: "@ + ("["@ + listed_numbers(self.unfetched_ids@) + "]"@),
            "In Progress ids: "@ + ("["@ + listed_numbers(self.in_progress_ids@) + "]"@),
        ]
    }

    /// The lines of the report of a verbose download; pieces are listed if few are left.
    pub open spec fn report_lines(self) -> Seq<Seq<char>> {
        self.count_lines() + (if self.unfetched_ids@.len() + self.in_progress_ids@.len()
            < FEW_PIECES {
            self.id_lines()
        } else {
            seq![]
        }) + seq![""@, "----------------------------"@, ""@]
    }

    /// The statistics of a board.
    pub fn of(board: &Corkboard) -> (statistics: Self)
        ensures
            statistics.describes(board@),
    {
        let ghost pieces = board@.pieces;
        let ghost unfetched = |piece: PieceView| piece.state is Unfetched;
        let ghost in_progress = |piece: PieceView| piece.state is InProgress;
        let ghost is_fetched = |piece: PieceView| piece.state is Fetched;
        let mut unfetched_ids: Vec<usize> = Vec::new();
        let mut in_progress_ids: Vec<usize> = Vec::new();
        let mut fetched: usize = 0;
        let mut i: usize = 0;
        assert(numbers(unfetched_ids@) =~= seq![]);
        assert(numbers(in_progress_ids@) =~= seq![]);
        while i < board.pieces.len()
            invariant
                0 <= i <= board.pieces.len(),
                fetched <= i,
                pieces == board@.pieces,
                unfetched == |piece: PieceView| piece.state is Unfetched,
                in_progress == |piece: PieceView| piece.state is InProgress,
                is_fetched == |piece: PieceView| piece.state is Fetched,
                numbers(unfetched_ids@) == ids_where(pieces, unfetched, i as int),
                numbers(in_progress_ids@) == ids_where(pieces, in_progress, i as int),
                fetched == ids_where(pieces, is_fetched, i as int).len(),
            decreases board.pieces.len() - i,
        {
            assert(pieces[i as int] == board.pieces@[i as int]@);
            let piece = &board.pieces[i];
            if piece.is_unfetched() {
                let ghost before = unfetched_ids@;
                unfetched_ids.push(i);
                assert(numbers(unfetched_ids@) =~= numbers(before).push(i as int));
            }
            if piece.is_in_progress() {
                let ghost before = in_progress_ids@;
                in_progress_ids.push(i);
                assert(numbers(in_progress_ids@) =~= numbers(before).push(i as int));
            }
            if piece.is_fetched() {
                fetched = fetched + 1;
            }
            i = i + 1;
        }
        Statistics {
            total_peers: board.peers.len(),
            fresh: board.peers.count(PeerState::Fresh),
            connecting: board.peers.count(PeerState::Connecting),
            active: board.peers.count(PeerState::Active(false)),
            connected: board.peers.count(PeerState::Active(true)),
            superceded: board.peers.count(PeerState::Superceded),
            error: board.peers.count(PeerState::Error),
            total_pieces: board.pieces.len(),
            unfetched_ids,
            in_progress_ids,
            fetched,
        }
    }

    /// The report of a download that is not verbose, without the time.
    pub fn summary(&self) -> (text: String)
        ensures
            text@ == self.summary_text(),
    {
        let mut text = "Connected to ".to_string();
        push_decimal(&mut text, self.connected as u128);
        text.append("/");
        push_decimal(&mut text, self.total_peers as u128);
        text.append(" peers, downloaded ");
        push_decimal(&mut text, self.fetched as u128);
        text.append("/");
        push_decimal(&mut text, self.total_pieces as u128);
        text.append(" pieces");
        text
    }

    /// The lines of the report of a verbose download.
    pub fn report(&self) -> (lines: Vec<String>)
        ensures
            texts(lines@) == self.report_lines(),
    {
        let rule = "----------------------------";
        let mut lines = vec![
            "".to_string(),
            rule.to_string(),
            "".to_string(),
            "Peer Stats:".to_string(),
            counted_line("Total Peers:   ", self.total_peers),
            counted_line("Fresh:         ", self.fresh),
            counted_line("Active:        ", self.active),
            counted_line("Connecting:    ", self.connecting),
            counted_line("Connected:     ", self.connected),
            counted_line("Superceded:    ", self.superceded),
            counted_line("Error:         ", self.error),
            "".to_string(),
            "Piece Stats:".to_string(),
            counted_line("Total Pieces:  ", self.total_pieces),
            counted_line("Unfetched:     ", self.unfetched_ids.len()),
            counted_line("In Progress:   ", self.in_progress_ids.len()),
            counted_line("Fetched:       ", self.fetched),
        ];
        assert(texts(lines@) =~= self.count_lines());
        if self.lists_pieces() {
            let mut listed = vec![
                "".to_string(),
                "Unfetched ids: ".to_string().concat(list_numbers(&self.unfetched_ids).as_str()),
                "In Progress ids: ".to_string().concat(
                    list_numbers(&self.in_progress_ids).as_str(),
                ),
            ];
            assert(texts(listed@) =~= self.id_lines());
            let ghost before = lines@;
            let ghost added = listed@;
            lines.append(&mut listed);
            assert(texts(lines@) =~= texts(before) + texts(added));
        }
        let ghost before = lines@;
        lines.push("".to_string());
        lines.push(rule.to_string());
        lines.push("".to_string());
        assert(texts(lines@) =~= texts(before) + seq![""@, rule@, ""@]);
        assert(texts(lines@) =~= self.report_lines());
        lines
    }

    /// Whether the pieces that are left are listed one by one.
    pub fn lists_pieces(&self) -> (few: bool)
        ensures
            few == (self.unfetched_ids@.len() + self.in_progress_ids@.len() < FEW_PIECES),
    {
        self.unfetched_ids.len() < FEW_PIECES && self.in_progress_ids.len() < FEW_PIECES
            - self.unfetched_ids.len()
    }
}

proof fn lemma_pieces_counted(pieces: Seq<PieceView>, limit: int)
    requires
        0 <= limit <= pieces.len(),
    ensures
        ids_where(pieces, |piece: PieceView| piece.state is Unfetched, limit).len() + ids_where(
            pieces,
            |piece: PieceView| piece.state is InProgress,
            limit,
        ).len() + ids_where(pieces, |piece: PieceView| piece.state is Fetched, limit).len()
            == limit,
    decreases limit,
{
    if limit > 0 {
        lemma_pieces_counted(pieces, limit - 1);
    }
}

/// Every piece is counted in one state.
pub proof fn pieces_are_counted_once(pieces: Seq<PieceView>)
    ensures
        unfetched_ids(pieces).len() + in_progress_ids(pieces).len() + fetched_ids(pieces).len()
            == pieces.len(),
{
    lemma_pieces_counted(pieces, pieces.len() as int);
}

} // verus!
