//! What the commands of the program print.

use vstd::prelude::*;

use crate::bencode::{
    displayed, encoded, ingested, ingested_leaves_tail, list_view, Benc, BencodedValue,
};
use crate::error::{outcome, BitTorrentError};
use crate::info::{info_benc, total_length, MetaInfo, MetaInfoView};
use crate::text::{decimal_nat, decimal_string_u64, texts};
use crate::util::{bytes_to_hex, hex_decoded, hex_error_text, hex_text, hex_to_bytes, sha1};

pub mod laws;

verus! {

/// What the first bencoded value in a text is shown as.
pub fn decode(raw_content: &str) -> (result: Result<String, BitTorrentError>)
    ensures
        outcome(result) == match ingested(vstd::utf8::encode_utf8(raw_content@)).0 {
            Ok(value) => Ok(displayed(value)),
            Err(complaint) => Err(complaint),
        },
{
    let mut content: &[u8] = raw_content.as_bytes();
    match BencodedValue::ingest(&mut content) {
        Ok(value) => Ok(value.display()),
        Err(error) => Err(error),
    }
}

/// The bencoded values that bytes are made of, up to the end or the first that is broken;
/// and what is wrong with that.
pub open spec fn all_ingested(bytes: Seq<u8>) -> (Seq<Benc>, Option<Seq<char>>)
    decreases bytes.len(),
{
    if bytes.len() == 0 {
        (seq![], None)
    } else {
        match ingested(bytes) {
            (Err(complaint), _) => (seq![], Some(complaint)),
            (Ok(value), left) => if left.len() < bytes.len() {
                let (values, complaint) = all_ingested(left);
                (seq![value] + values, complaint)
            } else {
                (seq![value], None)
            },
        }
    }
}

/// The bencoded values that bytes are made of, up to the end or the first that is broken;
/// and what is wrong with that.
pub fn ingest_all(bytes: &[u8]) -> (result: (Vec<BencodedValue>, Option<BitTorrentError>))
    ensures
        ({
            let (values, complaint) = all_ingested(bytes@);
            &&& list_view(result.0@) == values
            &&& match result.1 {
                Some(error) => complaint == Some(error@),
                None => complaint is None,
            }
        }),
{
    let mut values: Vec<BencodedValue> = Vec::new();
    let mut rest: &[u8] = bytes;
    let ghost all = all_ingested(bytes@);
    assert(list_view(values@) + all_ingested(rest@).0 =~= all.0);
    while rest.len() > 0
        invariant
            all == all_ingested(bytes@),
            list_view(values@) + all_ingested(rest@).0 == all.0,
            all_ingested(rest@).1 == all.1,
        decreases rest@.len(),
    {
        let ghost before = rest@;
        let ghost done = values@;
        proof {
            ingested_leaves_tail(before);
        }
        match BencodedValue::ingest(&mut rest) {
            Ok(value) => {
                values.push(value);
                assert(list_view(values@) =~= list_view(done).push(value@));
                assert(list_view(values@) + all_ingested(rest@).0 =~= list_view(done) + (seq![
                    value@,
                ] + all_ingested(rest@).0));
            },
            Err(error) => {
                assert(list_view(values@) =~= all.0);
                return (values, Some(error));
            },
        }
    }
    assert(list_view(values@) =~= all.0);
    (values, None)
}

/// The bencoded values that a text in hexadecimal digits writes.
pub fn decode_hex(raw_content: &str) -> (result: Result<
    (Vec<BencodedValue>, Option<BitTorrentError>),
    BitTorrentError,
>)
    ensures
        match result {
            Ok((values, error)) => {
                &&& hex_decoded(raw_content@) is Some
                &&& list_view(values@) == all_ingested(hex_decoded(raw_content@)->0).0
                &&& match error {
                    Some(error) => all_ingested(hex_decoded(raw_content@)->0).1 == Some(error@),
                    None => all_ingested(hex_decoded(raw_content@)->0).1 is None,
                }
            },
            Err(error) => hex_decoded(raw_content@) is None && error@ == hex_error_text(
                raw_content@,
            ),
        },
{
    match hex_to_bytes(raw_content) {
        Ok(content) => Ok(ingest_all(content.as_slice())),
        Err(error) => Err(error),
    }
}

/// The report on a torrent.
pub open spec fn report_of(meta_info: MetaInfoView) -> Seq<Seq<char>> {
    seq![
        "Tracker URL: "@ + meta_info.announce_list[0],
        "Length: "@ + decimal_nat(total_length(meta_info.info.file_info) as nat),
        "Info Hash: "@ + hex_text(sha1(encoded(info_benc(meta_info.info)))),
        "Piece Length: "@ + decimal_nat(meta_info.info.pieces.len()),
        "Piece Hashes:"@,
    ] + meta_info.info.pieces.map_values(|hash: Seq<u8>| hex_text(hash))
}

/// The lines of the report on a torrent.
pub fn report(meta_info: &MetaInfo) -> (result: Result<Vec<String>, BitTorrentError>)
    requires
        meta_info@.announce_list.len() > 0,
        total_length(meta_info@.info.file_info) <= usize::MAX,
    ensures
        result is Ok,
        texts(result->Ok_0@) == report_of(meta_info@),
{
    let info_hash = match meta_info.info_hash() {
        Ok(info_hash) => info_hash,
        Err(error) => return Err(error),
    };
    let tracker = "Tracker URL: ".to_string().concat(meta_info.announce_list[0].as_str());
    let length = "Length: ".to_string().concat(
        decimal_string_u64(meta_info.length() as u64).as_str(),
    );
    let hash = "Info Hash: ".to_string().concat(bytes_to_hex(info_hash.as_slice()).as_str());
    let count = "Piece Length: ".to_string().concat(
        decimal_string_u64(meta_info.info.pieces.len() as u64).as_str(),
    );
    let mut lines = vec![tracker, length, hash, count, "Piece Hashes:".to_string()];
    let ghost all = report_of(meta_info@);
    let mut i: usize = 0;
    assert(texts(lines@) =~= all.take(5));
    while i < meta_info.info.pieces.len()
        invariant
            0 <= i <= meta_info.info.pieces.len(),
            all == report_of(meta_info@),
            texts(lines@) == all.take(5 + i),
        decreases meta_info.info.pieces.len() - i,
    {
        let ghost before = lines@;
        let line = bytes_to_hex(meta_info.info.pieces[i].as_slice());
        assert(all[5 + i] == line@) by {
            assert(meta_info@.info.pieces[i as int] == meta_info.info.pieces@[i as int]@);
        }
        let ghost shown = line@;
        lines.push(line);
        assert(texts(lines@) =~= texts(before).push(shown));
        assert(all.take(5 + i + 1) =~= all.take(5 + i).push(shown));
        i = i + 1;
    }
    assert(all.take(5 + i) =~= all);
    Ok(lines)
}

} // verus!
