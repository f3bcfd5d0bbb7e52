//! Trackers that are asked over HTTP or UDP.

use std::collections::VecDeque;

use vstd::prelude::*;
use vstd::slice::slice_subrange;
use vstd::utf8::encode_utf8;

use crate::be::{be_bytes, be_value, read_be_u32, read_be_u64, write_be};
use crate::bencode::{ingested, BencodedValue};
use crate::bytes::escaped;
use crate::error::{bterror, bterror_with, outcome, BitTorrentError};
use crate::info::total_length;
use crate::net::SocketAddr;
use crate::peer::message::Codec;
use crate::text::{
    chars_of, chars_start_with, decimal_nat, decimal_string_u64, find_char, is_digit, some_text,
    texts,
};
use crate::torrent_source::{source_hash, SourceView, TorrentSource};
use crate::tracker::{addresses_of, tracker_response_of, whole_peers, TrackerResponse, TrackerView};
use crate::util::{querystring_encode, querystring_text};

pub mod laws;
pub mod requests;

verus! {

/// how long an answer is waited for (milliseconds)
pub const TRACKER_QUERY_TIMEOUT: u64 = 60_000;

/// What a tracker tells.
#[derive(Debug)]
pub enum Event {
    Created,
    CycledTracker(TrackerConnectionTypeEvent),
    Query(TrackerConnectionTypeEvent, QueryEvent),
}

#[derive(Debug)]
pub enum TrackerConnectionTypeEvent {
    Http(String),
    Udp(SocketAddr),
    Nothing,
}

#[derive(Debug)]
pub enum QueryEvent {
    Start,
    Http(HttpQueryEvent),
    Udp(UdpQueryEvent),
}

#[derive(Debug)]
pub enum HttpQueryEvent {
    Start,
    Queried,
    SuccessResponse(PeerAnnounceResponse),
    FailureResponse(String),
}

#[derive(Debug)]
pub enum UdpQueryEvent {
    Start,
    Connect,
    Announce,
    AnnounceResponse(PeerAnnounceResponse),
}

/// The peers that a tracker names, and how long it asks to be left alone (seconds).
#[derive(Debug)]
pub struct PeerAnnounceResponse {
    pub interval: u64,
    pub peers: Vec<SocketAddr>,
}

/// What a `PeerAnnounceResponse` says.
pub struct AnnounceView {
    pub interval: int,
    pub peers: Seq<SocketAddr>,
}

impl View for PeerAnnounceResponse {
    type V = AnnounceView;

    open spec fn view(&self) -> AnnounceView {
        AnnounceView { interval: self.interval as int, peers: self.peers@ }
    }
}

/// The first group that a regular expression captures in a text.
pub uninterp spec fn text_captured(pattern: Seq<char>, text: Seq<char>) -> Option<Seq<char>>;

/// How many of the characters from a position on are the digits `0` to `9`.
pub open spec fn digits_run(text: Seq<char>, at: int) -> int
    decreases text.len() - at,
{
    if 0 <= at < text.len() && is_digit(text[at]) {
        1 + digits_run(text, at + 1)
    } else {
        0
    }
}

/// The host and port after `udp://`, up to a port that is made of the digits `0` to `9`
/// and ends at the end of the text or at an ASCII character.
pub open spec fn plain_host(url: Seq<char>) -> Option<Seq<char>> {
    if url.len() >= 6 && url.take(6) == "udp://"@ {
        let rest = url.skip(6);
        match find_char(rest, ':') {
            Some(colon) => {
                let n = digits_run(rest, colon + 1);
                let end = colon + 1 + n;
                if 0 < colon && 0 < n && (end == rest.len() || rest[end] <= '\u{7f}') {
                    Some(rest.take(end))
                } else {
                    None
                }
            },
            None => None,
        }
    } else {
        None
    }
}

/// `regex::Regex::captures`, for the pattern of the addresses of UDP trackers: the first
/// group, which is a host without a colon, a colon and digits. Where the text begins with
/// `udp://` and a plain host and port, the match begins at once and the group is that
/// host and port.
#[verifier::external_body]
fn capture_text(pattern: &str, text: &str) -> (group: Option<String>)
    requires
        pattern@ == "udp://([^:]+:\\d+)(/announce)?"@,
    ensures
        some_text(group) == text_captured(pattern@, text@),
        plain_host(text@) is Some ==> some_text(group) == plain_host(text@),
{
    regex::Regex::new(pattern)
        .unwrap()
        .captures(text)
        .and_then(|found| found.get(1))
        .map(|group| group.as_str().to_string())
}

/// The host and port in the address of a UDP tracker.
pub open spec fn host_of(url: Seq<char>) -> Option<Seq<char>> {
    match plain_host(url) {
        Some(host) => Some(host),
        None => text_captured("udp://([^:]+:\\d+)(/announce)?"@, url),
    }
}

/// How a tracker is asked.
#[derive(Debug)]
pub enum TrackerAddress {
    /// over HTTP, at an address
    Http(String),
    /// over UDP, at a host and port
    Udp(String),
}

/// What a `TrackerAddress` says.
pub enum TrackerAddressView {
    Http(Seq<char>),
    Udp(Seq<char>),
}

impl View for TrackerAddress {
    type V = TrackerAddressView;

    open spec fn view(&self) -> TrackerAddressView {
        match self {
            TrackerAddress::Http(url) => TrackerAddressView::Http(url@),
            TrackerAddress::Udp(host) => TrackerAddressView::Udp(host@),
        }
    }
}

pub open spec fn starts_with(text: Seq<char>, prefix: Seq<char>) -> bool {
    text.len() >= prefix.len() && text.take(prefix.len() as int) == prefix
}

/// How a tracker is asked, given its address.
pub open spec fn tracker_address_of(url: Seq<char>) -> Result<TrackerAddressView, Seq<char>> {
    if starts_with(url, "http"@) {
        Ok(TrackerAddressView::Http(url))
    } else if starts_with(url, "udp"@) {
        match host_of(url) {
            Some(host) => Ok(TrackerAddressView::Udp(host)),
            None => Err("Invalid tracker url: "@ + url),
        }
    } else {
        Err("Unrecognized tracker protocol: "@ + url)
    }
}

impl TrackerAddress {
    /// How a tracker is asked, given its address.
    pub fn new(url: String) -> (result: Result<Self, BitTorrentError>)
        ensures
            outcome(result) == tracker_address_of(url@),
    {
        let chars = chars_of(url.as_str());
        if chars_start_with(chars.as_slice(), "http") {
            Ok(TrackerAddress::Http(url))
        } else if chars_start_with(chars.as_slice(), "udp") {
            match capture_text("udp://([^:]+:\\d+)(/announce)?", url.as_str()) {
                Some(host) => Ok(TrackerAddress::Udp(host)),
                None => Err(bterror_with("Invalid tracker url: ", url.as_str())),
            }
        } else {
            Err(bterror_with("Unrecognized tracker protocol: ", url.as_str()))
        }
    }
}

/// The next tracker of a queue, if there is one, and the queue without it.
pub open spec fn after_taking(trackers: Seq<Seq<char>>) -> (Option<Seq<char>>, Seq<Seq<char>>) {
    if trackers.len() == 0 {
        (None, trackers)
    } else {
        (Some(trackers[0]), trackers.drop_first())
    }
}

/// Take the next tracker off a queue: its address, and how it is asked.
pub fn next_tracker(trackers: &mut VecDeque<String>) -> (next: Option<
    (String, Result<TrackerAddress, BitTorrentError>),
>)
    ensures
        (
            match next {
                Some((url, _)) => Some(url@),
                None => None,
            },
            texts(final(trackers)@),
        ) == after_taking(texts(old(trackers)@)),
        match next {
            Some((url, result)) => {
                &&& old(trackers)@.len() > 0
                &&& url@ == old(trackers)@[0]@
                &&& outcome(result) == tracker_address_of(url@)
                &&& final(trackers)@ == old(trackers)@.drop_first()
            },
            None => old(trackers)@.len() == 0 && final(trackers)@ == old(trackers)@,
        },
{
    match trackers.pop_front() {
        Some(url) => {
            assert(trackers@ =~= old(trackers)@.drop_first());
            assert(texts(trackers@) =~= texts(old(trackers)@).drop_first());
            let result = TrackerAddress::new(url.clone());
            Some((url, result))
        },
        None => None,
    }
}

/// How much of a torrent is left, as far as it is known.
pub open spec fn left_of(source: SourceView) -> int {
    match source {
        SourceView::File(meta_info) => total_length(meta_info.info.file_info),
        SourceView::Magnet(_) => 0,
    }
}

/// The address at which a tracker is asked over HTTP.
pub open spec fn http_query_of(
    announce: Seq<char>,
    source: SourceView,
    peer_id: Seq<char>,
    port: nat,
) -> Seq<char> {
    announce + "?info_hash="@ + querystring_text(source_hash(source)) + "&peer_id="@ + peer_id
        + "&port="@ + decimal_nat(port) + "&uploaded=0&downloaded=0&left="@ + decimal_nat(
        left_of(source) as nat,
    ) + "&compact=1"@
}

/// The address at which a tracker is asked over HTTP.
pub fn http_query(announce: &str, torrent_source: &TorrentSource, peer_id: &str, port: u16) -> (
result: Result<String, BitTorrentError>)
    requires
        left_of(torrent_source@) <= usize::MAX,
    ensures
        result is Ok,
        result->Ok_0@ == http_query_of(announce@, torrent_source@, peer_id@, port as nat),
{
    let hash = match torrent_source.hash() {
        Ok(hash) => hash,
        Err(error) => return Err(error),
    };
    let left: usize = match torrent_source {
        TorrentSource::File(meta_info) => meta_info.length(),
        TorrentSource::Magnet(_) => 0,
    };
    let mut url = announce.to_string();
    url.append("?info_hash=");
    url.append(querystring_encode(hash.as_slice()).as_str());
    url.append("&peer_id=");
    url.append(peer_id);
    url.append("&port=");
    url.append(decimal_string_u64(port as u64).as_str());
    url.append("&uploaded=0&downloaded=0&left=");
    url.append(decimal_string_u64(left as u64).as_str());
    url.append("&compact=1");
    Ok(url)
}

/// What a tracker's answer comes to.
pub open spec fn announce_of(response: TrackerView) -> Result<AnnounceView, Seq<char>> {
    match response {
        TrackerView::Success { interval, peers } => Ok(
            AnnounceView { interval: interval % 0x1_0000_0000_0000_0000, peers },
        ),
        TrackerView::Failure { failure_reason } => Err(
            "Tracker query failure: "@ + escaped(failure_reason),
        ),
    }
}

/// What the body of a tracker's answer over HTTP comes to.
pub open spec fn http_answer(body: Seq<u8>) -> Result<AnnounceView, Seq<char>> {
    match ingested(body).0 {
        Err(complaint) => Err(complaint),
        Ok(value) => match tracker_response_of(value) {
            Err(complaint) => Err(complaint),
            Ok(response) => announce_of(response),
        },
    }
}

/// Whether the peers in the body of an answer, if they are looked at, are whole
/// addresses.
pub open spec fn whole_body(body: Seq<u8>) -> bool {
    ingested(body).0 matches Ok(value) ==> whole_peers(value)
}

/// A number of seconds as a `u64` with the same bits.
fn seconds_of(interval: i64) -> (seconds: u64)
    ensures
        seconds == interval as int % 0x1_0000_0000_0000_0000,
{
    if interval >= 0 {
        interval as u64
    } else {
        (interval as i128 + 0x1_0000_0000_0000_0000) as u64
    }
}

/// What a tracker's answer comes to.
pub fn check_response(response: TrackerResponse) -> (result: Result<
    PeerAnnounceResponse,
    BitTorrentError,
>)
    ensures
        outcome(result) == announce_of(response@),
{
    match response {
        TrackerResponse::Success { interval, peers } => Ok(
            PeerAnnounceResponse { interval: seconds_of(interval), peers },
        ),
        TrackerResponse::Failure { failure_reason } => Err(
            bterror_with("Tracker query failure: ", failure_reason.to_string().as_str()),
        ),
    }
}

/// What the body of a tracker's answer over HTTP comes to.
pub fn read_http_answer(body: &[u8]) -> (result: Result<PeerAnnounceResponse, BitTorrentError>)
    requires
        whole_body(body@),
    ensures
        outcome(result) == http_answer(body@),
{
    let mut rest: &[u8] = body;
    match BencodedValue::ingest(&mut rest) {
        Ok(value) => match TrackerResponse::from_bencoded(&value) {
            Ok(response) => check_response(response),
            Err(error) => Err(error),
        },
        Err(error) => Err(error),
    }
}

/// What the body of a tracker's answer over HTTP comes to, unless it holds peers that are
/// not whole addresses.
pub fn try_read_http_answer(body: &[u8]) -> (result: Option<
    Result<PeerAnnounceResponse, BitTorrentError>,
>)
    ensures
        match result {
            Some(result) => whole_body(body@) && outcome(result) == http_answer(body@),
            None => !whole_body(body@),
        },
{
    let mut rest: &[u8] = body;
    let whole = match BencodedValue::ingest(&mut rest) {
        Ok(value) => TrackerResponse::has_whole_peers(&value),
        Err(_) => true,
    };
    if whole {
        Some(read_http_answer(body))
    } else {
        None
    }
}

/// The number by which a UDP tracker knows the protocol.
pub const PROTOCOL_MAGIC: u64 = 0x417_2710_1980;

/// How long a connection to a UDP tracker lasts (seconds).
pub const UDP_CONNECTION_SECONDS: u64 = 60;

/// `rand::random` of a `u32`: any number.
#[verifier::external_body]
fn random_u32() -> (n: u32)
{
    rand::random::<u32>()
}

/// The request for a connection.
pub open spec fn connect_request(transaction_id: u32) -> Seq<u8> {
    be_bytes(PROTOCOL_MAGIC as nat, 8) + be_bytes(0, 4) + be_bytes(transaction_id as nat, 4)
}

/// The announcement of a torrent.
pub open spec fn announce_request(
    connection_id: u64,
    transaction_id: u32,
    source: SourceView,
    peer_id: Seq<char>,
    key: u32,
    port: u16,
) -> Seq<u8> {
    be_bytes(connection_id as nat, 8) + be_bytes(1, 4) + be_bytes(transaction_id as nat, 4)
        + source_hash(source) + encode_utf8(peer_id) + be_bytes(0, 8) + be_bytes(0, 8) + be_bytes(
        0,
        8,
    ) + be_bytes(0, 4) + be_bytes(0, 4) + be_bytes(key as nat, 4) + be_bytes(0xffff_ffff, 4)
        + be_bytes(port as nat, 2)
}

/// The transaction id in an answer.
pub open spec fn answered_id(response: Seq<u8>) -> nat {
    be_value(response.subrange(4, 8))
}

/// Whether the answer to a request for a connection is as long as it is looked at.
pub open spec fn connect_answer_complete(transaction_id: u32, response: Seq<u8>) -> bool {
    response.len() >= 8 && (answered_id(response) == transaction_id ==> response.len() >= 16)
}

/// What the answer to a request for a connection comes to: the id of the connection.
pub open spec fn connect_answer(transaction_id: u32, response: Seq<u8>) -> Result<nat, Seq<char>> {
    if answered_id(response) != transaction_id {
        Err("Invalid transaction id in connection response"@)
    } else {
        Ok(be_value(response.subrange(8, 16)))
    }
}

/// Whether the answer to an announcement is as long as it is looked at, with whole
/// addresses.
pub open spec fn announce_answer_complete(transaction_id: u32, response: Seq<u8>) -> bool {
    response.len() >= 8 && (answered_id(response) == transaction_id ==> response.len() >= 20 && (
    response.len() - 20) % 6 == 0)
}

/// What the answer to an announcement comes to.
pub open spec fn announce_answer(transaction_id: u32, response: Seq<u8>) -> Result<
    AnnounceView,
    Seq<char>,
> {
    if answered_id(response) != transaction_id {
        Err("Invalid transaction id in announce response"@)
    } else {
        Ok(
            AnnounceView {
                interval: be_value(response.subrange(8, 12)) as int,
                peers: addresses_of(response.skip(20)),
            },
        )
    }
}

/// What is known of a connection to a UDP tracker.
#[derive(Debug)]
pub struct UdpTrackerConnection {
    pub connection_id: Option<u64>,
}

/// The request for a connection with a given transaction id.
pub fn encode_connect(transaction_id: u32) -> (bytes: Vec<u8>)
    ensures
        bytes@ == connect_request(transaction_id),
{
    let mut out = write_be(PROTOCOL_MAGIC as u128, 8);
    let mut action = write_be(0, 4);
    let mut transaction = write_be(transaction_id as u128, 4);
    out.append(&mut action);
    out.append(&mut transaction);
    out
}

/// Whether a connection is to be asked for, given how long ago that was done (whole
/// seconds).
pub open spec fn is_outdated(elapsed: Option<u64>) -> bool {
    match elapsed {
        Some(seconds) => seconds > UDP_CONNECTION_SECONDS,
        None => true,
    }
}

impl UdpTrackerConnection {
    pub fn new() -> (connection: Self)
        ensures
            connection.connection_id is None,
    {
        UdpTrackerConnection { connection_id: None }
    }

    /// Whether a connection is to be asked for, given how long ago that was done (whole
    /// seconds).
    pub fn needs_connect(elapsed: Option<u64>) -> (needed: bool)
        ensures
            needed == is_outdated(elapsed),
    {
        match elapsed {
            Some(seconds) => seconds > UDP_CONNECTION_SECONDS,
            None => true,
        }
    }

    /// The request for a connection, with a transaction id that is drawn at random.
    pub fn begin_connect() -> (request: (u32, Vec<u8>))
        ensures
            request.1@ == connect_request(request.0),
    {
        let transaction_id: u32 = random_u32();
        (transaction_id, encode_connect(transaction_id))
    }

    /// Whether the answer to a request for a connection is as long as it is looked at.
    pub fn can_finish_connect(transaction_id: u32, response: &[u8]) -> (can: bool)
        ensures
            can == connect_answer_complete(transaction_id, response@),
    {
        if response.len() < 8 {
            false
        } else {
            read_be_u32(slice_subrange(response, 4, 8)) != transaction_id || response.len() >= 16
        }
    }

    /// Take in the answer to a request for a connection.
    pub fn finish_connect(&mut self, transaction_id: u32, response: &[u8]) -> (result: Result<
        (),
        BitTorrentError,
    >)
        requires
            connect_answer_complete(transaction_id, response@),
        ensures
            match connect_answer(transaction_id, response@) {
                Ok(id) => result is Ok && final(self).connection_id == Some(id as u64) && id
                    <= u64::MAX,
                Err(complaint) => {
                    &&& result is Err
                    &&& result->Err_0@ == complaint
                    &&& final(self).connection_id == old(self).connection_id
                },
            },
    {
        if read_be_u32(slice_subrange(response, 4, 8)) != transaction_id {
            return Err(bterror("Invalid transaction id in connection response"));
        }
        self.connection_id = Some(read_be_u64(slice_subrange(response, 8, 16)));
        Ok(())
    }

    /// The announcement of a torrent with given numbers.
    pub fn encode_announce(
        &self,
        transaction_id: u32,
        torrent_source: &TorrentSource,
        peer_id: &str,
        key: u32,
        port: u16,
    ) -> (result: Result<Vec<u8>, BitTorrentError>)
        ensures
            match (self.connection_id, result) {
                (Some(connection_id), Ok(bytes)) => bytes@ == announce_request(
                    connection_id,
                    transaction_id,
                    torrent_source@,
                    peer_id@,
                    key,
                    port,
                ),
                (None, Err(error)) => error@ == "No connection id to use"@,
                _ => false,
            },
    {
        let connection_id: u64 = match self.connection_id {
            Some(connection_id) => connection_id,
            None => return Err(bterror("No connection id to use")),
        };
        let hash = match torrent_source.hash() {
            Ok(hash) => hash,
            Err(error) => return Err(error),
        };
        let mut out = write_be(connection_id as u128, 8);
        let mut action = write_be(1, 4);
        out.append(&mut action);
        let mut transaction = write_be(transaction_id as u128, 4);
        out.append(&mut transaction);
        out.extend_from_slice(hash.as_slice());
        out.extend_from_slice(peer_id.as_bytes());
        let mut downloaded = write_be(0, 8);
        out.append(&mut downloaded);
        let mut left = write_be(0, 8);
        out.append(&mut left);
        let mut uploaded = write_be(0, 8);
        out.append(&mut uploaded);
        let mut event = write_be(0, 4);
        out.append(&mut event);
        let mut ip_address = write_be(0, 4);
        out.append(&mut ip_address);
        let mut key_bytes = write_be(key as u128, 4);
        out.append(&mut key_bytes);
        let mut num_want = write_be(0xffff_ffff, 4);
        out.append(&mut num_want);
        let mut port_bytes = write_be(port as u128, 2);
        out.append(&mut port_bytes);
        Ok(out)
    }

    /// The announcement of a torrent, with a transaction id and a key that are drawn at
    /// random and given back with it.
    pub fn begin_announce(&self, torrent_source: &TorrentSource, peer_id: &str, port: u16) -> (
    result: Result<(u32, u32, Vec<u8>), BitTorrentError>)
        ensures
            match (self.connection_id, result) {
                (Some(connection_id), Ok((transaction_id, key, bytes))) => bytes@
                    == announce_request(
                    connection_id,
                    transaction_id,
                    torrent_source@,
                    peer_id@,
                    key,
                    port,
                ),
                (None, Err(error)) => error@ == "No connection id to use"@,
                _ => false,
            },
    {
        let transaction_id: u32 = random_u32();
        let key: u32 = random_u32();
        match self.encode_announce(transaction_id, torrent_source, peer_id, key, port) {
            Ok(bytes) => Ok((transaction_id, key, bytes)),
            Err(error) => Err(error),
        }
    }

    /// Whether the answer to an announcement is as long as it is looked at, with whole
    /// addresses.
    pub fn can_finish_announce(transaction_id: u32, response: &[u8]) -> (can: bool)
        ensures
            can == announce_answer_complete(transaction_id, response@),
    {
        if response.len() < 8 {
            false
        } else {
            read_be_u32(slice_subrange(response, 4, 8)) != transaction_id || (response.len() >= 20
                && (response.len() - 20) % 6 == 0)
        }
    }

    /// What the answer to an announcement comes to.
    pub fn finish_announce(transaction_id: u32, response: &[u8]) -> (result: Result<
        PeerAnnounceResponse,
        BitTorrentError,
    >)
        requires
            announce_answer_complete(transaction_id, response@),
        ensures
            outcome(result) == announce_answer(transaction_id, response@),
    {
        if read_be_u32(slice_subrange(response, 4, 8)) != transaction_id {
            return Err(bterror("Invalid transaction id in announce response"));
        }
        let interval: u64 = read_be_u32(slice_subrange(response, 8, 12)) as u64;
        let rest = slice_subrange(response, 20, response.len());
        assert(rest@ =~= response@.skip(20));
        match <Vec<SocketAddr>>::decode(rest) {
            Ok(peers) => Ok(PeerAnnounceResponse { interval, peers }),
            Err(error) => Err(error),
        }
    }
}

/// The next peer of a queue, and the queue then.
pub open spec fn after_next(queue: Seq<SocketAddr>) -> (Option<SocketAddr>, Seq<SocketAddr>) {
    if queue.len() == 0 {
        (None, queue)
    } else {
        (Some(queue[0]), queue.drop_first())
    }
}

/// The peer that is handed on at once when a tracker has named some, and the queue then.
pub open spec fn after_refill(queue: Seq<SocketAddr>, named: Seq<SocketAddr>) -> (
    Option<SocketAddr>,
    Seq<SocketAddr>,
) {
    if named.len() == 0 {
        (None, queue)
    } else {
        (Some(named[0]), queue + named.skip(1))
    }
}

/// Peers that a tracker has named and that have not been handed on.
#[derive(Debug)]
pub struct PeerQueue {
    pub peers: VecDeque<SocketAddr>,
}

impl PeerQueue {
    pub fn new() -> (queue: Self)
        ensures
            queue.peers@ == Seq::<SocketAddr>::empty(),
    {
        let queue = PeerQueue { peers: VecDeque::new() };
        assert(queue.peers@ =~= Seq::<SocketAddr>::empty());
        queue
    }

    /// The next peer, if one is left; otherwise the tracker is to be asked.
    pub fn next(&mut self) -> (peer: Option<SocketAddr>)
        ensures
            (peer, final(self).peers@) == after_next(old(self).peers@),
    {
        let peer = self.peers.pop_front();
        assert(peer is Some ==> self.peers@ =~= old(self).peers@.drop_first());
        peer
    }

    /// Take in the peers that a tracker has named: the first is handed on at once, and the
    /// tracker is left alone for a while after it. If there is none, the tracker is to be
    /// asked again.
    pub fn refill(&mut self, peers: &Vec<SocketAddr>) -> (first: Option<SocketAddr>)
        ensures
            (first, final(self).peers@) == after_refill(old(self).peers@, peers@),
    {
        if peers.len() == 0 {
            return None;
        }
        let mut i: usize = 1;
        assert(self.peers@ =~= old(self).peers@ + peers@.subrange(1, 1));
        while i < peers.len()
            invariant
                1 <= i <= peers.len(),
                self.peers@ == old(self).peers@ + peers@.subrange(1, i as int),
            decreases peers.len() - i,
        {
            self.peers.push_back(peers[i]);
            i = i + 1;
            assert(self.peers@ =~= old(self).peers@ + peers@.subrange(1, i as int));
        }
        assert(peers@.subrange(1, i as int) =~= peers@.skip(1));
        Some(peers[0])
    }
}

} // verus!
