//! Trackers whose peers are handed on as text.

use vstd::prelude::*;
use vstd::slice::slice_subrange;

use crate::be::{be_value, read_be_u32};
use crate::bencode::encode::{base64_encoded, bytes_of_text, encode_base64};
use crate::decode::{consumed, Decoder};
use crate::error::{bterror, outcome, BitTorrentError};
use crate::info::{total_length, MetaInfo};
use crate::json::Value;
use crate::text::{decimal_nat, decimal_string_u64};
use crate::tracker::multimodal::answered_id;
use crate::util::{querystring_encode, querystring_text, sha1};

verus! {

/// The peers that a tracker names, as text, and how long it asks to be left alone
/// (seconds).
#[derive(Debug)]
pub struct SuccessfulTrackerResponse {
    pub interval: usize,
    pub peers: String,
}

/// What a `SuccessfulTrackerResponse` says.
pub struct SuccessView {
    pub interval: int,
    pub peers: Seq<char>,
}

impl View for SuccessfulTrackerResponse {
    type V = SuccessView;

    open spec fn view(&self) -> SuccessView {
        SuccessView { interval: self.interval as int, peers: self.peers@ }
    }
}

/// The address at which a tracker is asked over HTTP.
pub open spec fn http_query_of(
    announce: Seq<char>,
    hash: Seq<u8>,
    length: nat,
    peer_id: Seq<char>,
    port: nat,
) -> Seq<char> {
    announce + "?info_hash="@ + querystring_text(hash) + "&peer_id="@ + peer_id + "&port="@
        + decimal_nat(port) + "&uploaded=0&downloaded=0&left="@ + decimal_nat(length)
        + "&compact=1"@
}

/// The address at which a tracker is asked over HTTP.
pub fn http_query(announce: &str, meta_info: &MetaInfo, peer_id: &str, port: u16) -> (result: Result<
    String,
    BitTorrentError,
>)
    requires
        total_length(meta_info@.info.file_info) <= usize::MAX,
    ensures
        result is Ok,
        result->Ok_0@ == http_query_of(
            announce@,
            sha1(crate::bencode::encoded(crate::info::info_benc(meta_info@.info))),
            total_length(meta_info@.info.file_info) as nat,
            peer_id@,
            port as nat,
        ),
{
    let hash = match meta_info.info_hash() {
        Ok(hash) => hash,
        Err(error) => return Err(error),
    };
    let mut url = announce.to_string();
    url.append("?info_hash=");
    url.append(querystring_encode(hash.as_slice()).as_str());
    url.append("&peer_id=");
    url.append(peer_id);
    url.append("&port=");
    url.append(decimal_string_u64(port as u64).as_str());
    url.append("&uploaded=0&downloaded=0&left=");
    url.append(decimal_string_u64(meta_info.length() as u64).as_str());
    url.append("&compact=1");
    Ok(url)
}

/// The value in the body of a tracker's answer over HTTP.
pub fn read_http_value(body: &[u8]) -> (result: Result<Value, BitTorrentError>)
    ensures
        outcome(result) == consumed(body@).0,
{
    let mut rest: &[u8] = body;
    Decoder::new().consume_bencoded_value(&mut rest)
}

/// Whether the answer to an announcement is as long as it is looked at.
pub open spec fn answer_complete(transaction_id: u32, response: Seq<u8>) -> bool {
    response.len() >= 8 && (answered_id(response) == transaction_id ==> response.len() >= 20)
}

/// What the answer to an announcement comes to: its peers are marked as base64.
pub open spec fn text_answer(transaction_id: u32, response: Seq<u8>) -> Result<
    SuccessView,
    Seq<char>,
> {
    if answered_id(response) != transaction_id {
        Err("Invalid transaction id in announce response"@)
    } else {
        Ok(
            SuccessView {
                interval: be_value(response.subrange(8, 12)) as int,
                peers: "base64:"@ + base64_encoded(response.skip(20)),
            },
        )
    }
}

/// What the answer to an announcement comes to. Encoding its peers gives the bytes that
/// the tracker sent.
pub fn finish_announce(transaction_id: u32, response: &[u8]) -> (result: Result<
    SuccessfulTrackerResponse,
    BitTorrentError,
>)
    requires
        answer_complete(transaction_id, response@),
    ensures
        outcome(result) == text_answer(transaction_id, response@),
        result matches Ok(success) ==> bytes_of_text(success@.peers) == Ok::<Seq<u8>, Seq<char>>(
            response@.skip(20),
        ),
{
    if read_be_u32(slice_subrange(response, 4, 8)) != transaction_id {
        return Err(bterror("Invalid transaction id in announce response"));
    }
    let interval: usize = read_be_u32(slice_subrange(response, 8, 12)) as usize;
    let rest = slice_subrange(response, 20, response.len());
    assert(rest@ =~= response@.skip(20));
    let written = encode_base64(rest);
    let peers = "base64:".to_string().concat(written.as_str());
    proof {
        let n = "base64:"@.len() as int;
        assert(peers@.take(n) =~= "base64:"@);
        assert(peers@.skip(n) =~= written@);
    }
    Ok(SuccessfulTrackerResponse { interval, peers })
}

/// Whether the answer to an announcement is as long as it is looked at.
pub fn can_finish_announce(transaction_id: u32, response: &[u8]) -> (can: bool)
    ensures
        can == answer_complete(transaction_id, response@),
{
    if response.len() < 8 {
        false
    } else {
        read_be_u32(slice_subrange(response, 4, 8)) != transaction_id || response.len() >= 20
    }
}

} // verus!
