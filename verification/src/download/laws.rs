//! What holds of the pieces that a download is made of.

use vstd::prelude::*;

use crate::data_proxy::piece_of_data;
use crate::download::{lemma_piece_starts, piece_count};
use crate::peer::tcp::piece::piece_size;

verus! {

/// A piece that lies within the data has the full length; one that the data end in has
/// what is left of them.
pub proof fn piece_has_its_share(piece_id: int, piece_length: int, total: int)
    requires
        0 <= piece_id,
        0 < piece_length < 0x1_0000_0000,
        piece_id * piece_length <= total,
    ensures
        (piece_id + 1) * piece_length <= total ==> piece_size(piece_id, piece_length, total)
            == piece_length,
        total <= (piece_id + 1) * piece_length ==> piece_id * piece_length + piece_size(
            piece_id,
            piece_length,
            total,
        ) == total,
{
    assert((piece_id + 1) * piece_length == piece_id * piece_length + piece_length)
        by (nonlinear_arith);
    let left = total - piece_id * piece_length;
    if left < piece_length {
        vstd::arithmetic::div_mod::lemma_small_mod(left as nat, 0x1_0000_0000);
    } else {
        vstd::arithmetic::div_mod::lemma_small_mod(piece_length as nat, 0x1_0000_0000);
    }
}

/// The size of a piece is how many of the data's bytes it has.
pub proof fn piece_size_is_length(data: Seq<u8>, piece_length: int, piece_id: int)
    requires
        0 < piece_length < 0x1_0000_0000,
        0 <= piece_id < piece_count(data.len() as int, piece_length),
    ensures
        piece_size(piece_id, piece_length, data.len() as int) == piece_of_data(
            data,
            piece_length,
            piece_id,
        ).len(),
        piece_size(piece_id, piece_length, data.len() as int) > 0,
{
    lemma_piece_starts(data.len() as int, piece_length, piece_id);
    piece_has_its_share(piece_id, piece_length, data.len() as int);
    assert((piece_id + 1) * piece_length == piece_id * piece_length + piece_length)
        by (nonlinear_arith);
}

/// The sizes of the first pieces together.
pub open spec fn sum_of_sizes(count: nat, piece_length: int, total: int) -> int
    decreases count,
{
    if count == 0 {
        0
    } else {
        sum_of_sizes((count - 1) as nat, piece_length, total) + piece_size(
            count - 1,
            piece_length,
            total,
        )
    }
}

/// Each piece begins where the ones before it end.
pub proof fn pieces_follow_each_other(count: nat, piece_length: int, total: int)
    requires
        0 < piece_length < 0x1_0000_0000,
        0 <= total,
        count < piece_count(total, piece_length),
    ensures
        sum_of_sizes(count, piece_length, total) == count * piece_length,
    decreases count,
{
    if count > 0 {
        let before = (count - 1) as nat;
        pieces_follow_each_other(before, piece_length, total);
        lemma_piece_starts(total, piece_length, before as int);
        lemma_piece_starts(total, piece_length, count as int);
        piece_has_its_share(before as int, piece_length, total);
        assert(count * piece_length == before * piece_length + piece_length) by (nonlinear_arith)
            requires
                count == before + 1,
        ;
    } else {
        assert(0 * piece_length == 0) by (nonlinear_arith);
    }
}

/// The sizes of all pieces add up to the length of the data.
pub proof fn piece_sizes_add_up(piece_length: int, total: int)
    requires
        0 < piece_length < 0x1_0000_0000,
        0 <= total,
    ensures
        piece_count(total, piece_length) >= 0,
        sum_of_sizes(piece_count(total, piece_length) as nat, piece_length, total) == total,
{
    let count = piece_count(total, piece_length);
    vstd::arithmetic::div_mod::lemma_fundamental_div_mod(total + piece_length - 1, piece_length);
    vstd::arithmetic::div_mod::lemma_mod_bound(total + piece_length - 1, piece_length);
    vstd::arithmetic::div_mod::lemma_div_pos_is_pos(total + piece_length - 1, piece_length);
    assert(total <= count * piece_length) by (nonlinear_arith)
        requires
            total + piece_length - 1 < piece_length * count + piece_length,
    ;
    if count == 0 {
        assert(count * piece_length == 0) by (nonlinear_arith)
            requires
                count == 0,
        ;
    } else {
        let last = (count - 1) as nat;
        pieces_follow_each_other(last, piece_length, total);
        lemma_piece_starts(total, piece_length, last as int);
        piece_has_its_share(last as int, piece_length, total);
    }
}

} // verus!
