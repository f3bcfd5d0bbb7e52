//! What holds of the values and the report that the commands print.

use vstd::prelude::*;

use crate::bencode::encoded;
use crate::bencode::standard::{standard, standard_all, standard_is_read, standardizable};
use crate::bencode::{ingested, ingested_leaves_tail, Benc};
use crate::commands::{all_ingested, report_of};
use crate::info::{info_benc, total_length, MetaInfoView};
use crate::text::{decimal_reads_back, unsigned_of_text};
use crate::util::{hex_decoded, hex_text_reads_back, sha1};

verus! {

/// Values one behind the other are all read, in their order.
pub proof fn all_values_are_read(values: Seq<Benc>)
    requires
        forall|i: int| 0 <= i < values.len() ==> standardizable(#[trigger] values[i]),
    ensures
        all_ingested(standard_all(values)) == (values, None::<Seq<char>>),
    decreases values.len(),
{
    let bytes = standard_all(values);
    if values.len() == 0 {
        assert(values =~= seq![]);
    } else {
        let rest = values.drop_first();
        assert forall|i: int| 0 <= i < rest.len() implies standardizable(#[trigger] rest[i]) by {
            assert(rest[i] == values[i + 1]);
        }
        all_values_are_read(rest);
        standard_is_read(values[0], standard_all(rest));
        assert(standardizable(values[0]));
        assert(bytes == standard(values[0]) + standard_all(rest));
        ingested_leaves_tail(bytes);
        assert(seq![values[0]] + rest =~= values);
    }
}

/// Where something broken follows values, they are read all the same, and what is wrong is
/// told.
pub proof fn values_before_broken_are_read(values: Seq<Benc>, broken: Seq<u8>)
    requires
        forall|i: int| 0 <= i < values.len() ==> standardizable(#[trigger] values[i]),
        broken.len() > 0,
        ingested(broken).0 is Err,
    ensures
        all_ingested(standard_all(values) + broken) == (
            values,
            Some(ingested(broken).0->Err_0),
        ),
    decreases values.len(),
{
    let bytes = standard_all(values) + broken;
    if values.len() == 0 {
        assert(bytes =~= broken);
        assert(values =~= seq![]);
    } else {
        let rest = values.drop_first();
        assert forall|i: int| 0 <= i < rest.len() implies standardizable(#[trigger] rest[i]) by {
            assert(rest[i] == values[i + 1]);
        }
        values_before_broken_are_read(rest, broken);
        assert(standardizable(values[0]));
        assert(bytes =~= standard(values[0]) + (standard_all(rest) + broken));
        standard_is_read(values[0], standard_all(rest) + broken);
        ingested_leaves_tail(bytes);
        assert(seq![values[0]] + rest =~= values);
    }
}

/// The report tells the first tracker, how many bytes and pieces there are, the info hash,
/// and then the hash of every piece, a line for each, in the order of the pieces.
pub proof fn report_tells_all(meta_info: MetaInfoView)
    requires
        meta_info.announce_list.len() > 0,
        total_length(meta_info.info.file_info) >= 0,
    ensures
        ({
            let lines = report_of(meta_info);
            let pieces = meta_info.info.pieces;
            &&& lines.len() == pieces.len() + 5
            &&& lines[0].skip("Tracker URL: "@.len() as int) == meta_info.announce_list[0]
            &&& unsigned_of_text(lines[1].skip("Length: "@.len() as int)) == Some(
                total_length(meta_info.info.file_info),
            )
            &&& hex_decoded(lines[2].skip("Info Hash: "@.len() as int)) == Some(
                sha1(encoded(info_benc(meta_info.info))),
            )
            &&& unsigned_of_text(lines[3].skip("Piece Length: "@.len() as int)) == Some(
                pieces.len() as int,
            )
            &&& forall|i: int|
                0 <= i < pieces.len() ==> hex_decoded(#[trigger] lines[5 + i]) == Some(pieces[i])
        }),
{
    let lines = report_of(meta_info);
    let pieces = meta_info.info.pieces;
    let total = total_length(meta_info.info.file_info);
    decimal_reads_back(total);
    decimal_reads_back(pieces.len() as int);
    hex_text_reads_back(sha1(encoded(info_benc(meta_info.info))));
    assert(lines[0].skip("Tracker URL: "@.len() as int) =~= meta_info.announce_list[0]);
    assert(lines[1].skip("Length: "@.len() as int) =~= crate::text::decimal(total));
    assert(lines[2].skip("Info Hash: "@.len() as int) =~= crate::util::hex_text(
        sha1(encoded(info_benc(meta_info.info))),
    ));
    assert(lines[3].skip("Piece Length: "@.len() as int) =~= crate::text::decimal(
        pieces.len() as int,
    ));
    assert forall|i: int| 0 <= i < pieces.len() implies hex_decoded(#[trigger] lines[5 + i])
        == Some(pieces[i]) by {
        hex_text_reads_back(pieces[i]);
    }
}

} // verus!
