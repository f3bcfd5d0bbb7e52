//! Reading downloaded data from pieces that are in memory or on disk.

use vstd::prelude::*;
use vstd::slice::slice_subrange;

use crate::download::corkboard::PieceLocation;
use crate::error::{outcome, BitTorrentError};
use crate::text::{bytes_to_vec, decimal_nat, push_decimal};

verus! {

/// The data of a download, of which some have been read.
#[derive(Debug)]
pub struct DataProxy {
    pub pieces: Vec<PieceLocation>,
    pub piece_length: usize,
    pub length: usize,
    pub cursor: usize,
}

/// Bytes of one piece that are read next.
#[derive(Clone, Copy, Debug, PartialEq, Eq, Structural)]
pub struct Span {
    pub piece: usize,
    pub offset: usize,
    pub len: usize,
}

/// The bytes that are read next, up to a number and within one piece.
pub open spec fn next_span_of(piece_length: int, length: int, cursor: int, want: int) -> Option<
    (int, int, int),
> {
    if cursor < length && 0 < want {
        let piece = cursor / piece_length;
        let offset = cursor % piece_length;
        let left = length - piece * piece_length;
        let size = if left < piece_length {
            left
        } else {
            piece_length
        };
        Some(
            (
                piece,
                offset,
                if size - offset < want {
                    size - offset
                } else {
                    want
                },
            ),
        )
    } else {
        None
    }
}

/// The bytes of a span out of the data of its piece, and the cursor behind them.
pub open spec fn taken(data: Seq<u8>, offset: int, len: int, cursor: int) -> (Seq<u8>, int) {
    (data.subrange(offset, offset + len), cursor + len)
}

impl DataProxy {
    pub fn new(pieces: Vec<PieceLocation>, piece_length: usize, length: usize) -> (proxy: Self)
        ensures
            proxy.pieces == pieces,
            proxy.piece_length == piece_length,
            proxy.length == length,
            proxy.cursor == 0,
    {
        DataProxy { pieces, piece_length, length, cursor: 0 }
    }

    /// The bytes that are read next, if more are wanted and there are any.
    pub fn next_span(&self, want: usize) -> (span: Option<Span>)
        requires
            self.cursor < self.length && want > 0 ==> self.piece_length > 0,
        ensures
            match span {
                Some(span) => next_span_of(
                    self.piece_length as int,
                    self.length as int,
                    self.cursor as int,
                    want as int,
                ) == Some((span.piece as int, span.offset as int, span.len as int)),
                None => next_span_of(
                    self.piece_length as int,
                    self.length as int,
                    self.cursor as int,
                    want as int,
                ) is None,
            },
    {
        if self.cursor >= self.length || want == 0 {
            return None;
        }
        proof {
            lemma_span(
                self.piece_length as int,
                self.length as int,
                self.cursor as int,
                want as int,
            );
        }
        let piece: usize = self.cursor / self.piece_length;
        let piece_offset: usize = piece * self.piece_length;
        let offset: usize = self.cursor % self.piece_length;
        let left: usize = self.length - piece_offset;
        let size: usize = if left < self.piece_length {
            left
        } else {
            self.piece_length
        };
        let len: usize = if size - offset < want {
            size - offset
        } else {
            want
        };
        Some(Span { piece, offset, len })
    }

    /// Where a piece is.
    pub fn location(&self, piece: usize) -> (result: Result<PieceLocation, BitTorrentError>)
        ensures
            outcome(result) == if piece < self.pieces@.len() {
                Ok(self.pieces@[piece as int]@)
            } else {
                Err("Piece index out of range: "@ + decimal_nat(piece as nat))
            },
    {
        if piece < self.pieces.len() {
            Ok(self.pieces[piece].clone())
        } else {
            let mut text = "Piece index out of range: ".to_string();
            push_decimal(&mut text, piece as u128);
            Err(BitTorrentError::new(text))
        }
    }

    /// The complaint about a piece that cannot be loaded, given the reason as it is shown.
    pub fn not_found(piece: usize, reason: &str) -> (error: BitTorrentError)
        ensures
            error@ == "Piece not found: "@ + decimal_nat(piece as nat) + ": "@ + reason@,
    {
        let mut text = "Piece not found: ".to_string();
        push_decimal(&mut text, piece as u128);
        text.append(": ");
        text.append(reason);
        BitTorrentError::new(text)
    }

    /// Whether the data of a piece hold a span, and the span lies ahead.
    pub fn can_take(&self, span: Span, data: &[u8]) -> (can: bool)
        ensures
            can == (span.offset + span.len <= data@.len() && self.cursor + span.len <= usize::MAX),
    {
        span.len <= data.len() && span.offset <= data.len() - span.len && span.len <= usize::MAX
            - self.cursor
    }

    /// Take a span out of the data of its piece.
    pub fn take(&mut self, span: Span, data: &[u8]) -> (bytes: Vec<u8>)
        requires
            span.offset + span.len <= data@.len(),
            old(self).cursor + span.len <= usize::MAX,
        ensures
            (bytes@, final(self).cursor as int) == taken(
                data@,
                span.offset as int,
                span.len as int,
                old(self).cursor as int,
            ),
            final(self).pieces == old(self).pieces,
            final(self).piece_length == old(self).piece_length,
            final(self).length == old(self).length,
    {
        self.cursor = self.cursor + span.len;
        let rest = slice_subrange(data, span.offset, data.len());
        let bytes = slice_subrange(rest, 0, span.len);
        assert(bytes@ =~= data@.subrange(span.offset as int, span.offset + span.len));
        bytes_to_vec(bytes)
    }
}

proof fn lemma_span(piece_length: int, length: int, cursor: int, want: int)
    requires
        0 < piece_length,
        0 <= cursor < length,
        0 < want,
    ensures
        0 <= cursor / piece_length,
        (cursor / piece_length) * piece_length + cursor % piece_length == cursor,
        0 <= cursor % piece_length < piece_length,
        cursor / piece_length <= (cursor / piece_length) * piece_length <= cursor,
        0 <= (cursor / piece_length) * piece_length,
{
    vstd::arithmetic::div_mod::lemma_fundamental_div_mod(cursor, piece_length);
    vstd::arithmetic::mul::lemma_mul_is_commutative(piece_length, cursor / piece_length);
    vstd::arithmetic::div_mod::lemma_div_pos_is_pos(cursor, piece_length);
    assert(cursor / piece_length <= (cursor / piece_length) * piece_length) by (nonlinear_arith)
        requires
            0 < piece_length,
            0 <= cursor / piece_length,
    ;
    assert(0 <= (cursor / piece_length) * piece_length) by (nonlinear_arith)
        requires
            0 < piece_length,
            0 <= cursor / piece_length,
    ;
}

/// A piece of some data: the last one may be shorter.
pub open spec fn piece_of_data(data: Seq<u8>, piece_length: int, piece: int) -> Seq<u8> {
    data.subrange(
        piece * piece_length,
        if data.len() - piece * piece_length < piece_length {
            data.len() as int
        } else {
            piece * piece_length + piece_length
        },
    )
}

/// Each span is made of the bytes that follow those that have been read: it is not
/// empty, it lies within the data and within its piece, and taken out of that piece it
/// gives the data from the cursor on.
pub proof fn spans_follow_data(data: Seq<u8>, piece_length: int, cursor: int, want: int)
    requires
        0 < piece_length,
        0 <= cursor < data.len(),
        0 < want,
    ensures
        ({
            let (piece, offset, len) = next_span_of(
                piece_length,
                data.len() as int,
                cursor,
                want,
            )->0;
            let bytes = piece_of_data(data, piece_length, piece);
            &&& 0 < len <= want
            &&& cursor + len <= data.len()
            &&& 0 <= offset
            &&& offset + len <= bytes.len()
            &&& bytes.subrange(offset, offset + len) == data.subrange(cursor, cursor + len)
        }),
{
    lemma_span(piece_length, data.len() as int, cursor, want);
    let (piece, offset, len) = next_span_of(piece_length, data.len() as int, cursor, want)->0;
    let bytes = piece_of_data(data, piece_length, piece);
    assert(bytes.subrange(offset, offset + len) =~= data.subrange(cursor, cursor + len));
}

/// What is read span by span from a cursor on, until as many bytes as wanted are read or
/// there are no more.
pub open spec fn read_from(data: Seq<u8>, piece_length: int, cursor: int, want: int) -> Seq<u8>
    decreases data.len() - cursor,
{
    match next_span_of(piece_length, data.len() as int, cursor, want) {
        Some((piece, offset, len)) => {
            let (bytes, next) = taken(
                piece_of_data(data, piece_length, piece),
                offset,
                len,
                cursor,
            );
            if cursor < next <= data.len() {
                bytes + read_from(data, piece_length, next, want - len)
            } else {
                seq![]
            }
        },
        None => seq![],
    }
}

/// Where a read ends that begins at a cursor and wants a number of bytes.
pub open spec fn read_end(len: int, cursor: int, want: int) -> int {
    if want < len - cursor {
        cursor + want
    } else {
        len
    }
}

/// Reading span by span gives exactly the bytes that follow the cursor, across the borders
/// of pieces: as many as are wanted, or all that are left.
pub proof fn spans_read_next_bytes(data: Seq<u8>, piece_length: int, cursor: int, want: int)
    requires
        0 < piece_length,
        0 <= cursor <= data.len(),
        0 <= want,
    ensures
        read_from(data, piece_length, cursor, want) == data.subrange(
            cursor,
            read_end(data.len() as int, cursor, want),
        ),
    decreases data.len() - cursor,
{
    let end = read_end(data.len() as int, cursor, want);
    if cursor < data.len() && 0 < want {
        spans_follow_data(data, piece_length, cursor, want);
        let (piece, offset, len) = next_span_of(
            piece_length,
            data.len() as int,
            cursor,
            want,
        )->0;
        spans_read_next_bytes(data, piece_length, cursor + len, want - len);
        assert(data.subrange(cursor, cursor + len) + data.subrange(cursor + len, end)
            =~= data.subrange(cursor, end));
    } else {
        assert(data.subrange(cursor, end) =~= seq![]);
    }
}

} // verus!
