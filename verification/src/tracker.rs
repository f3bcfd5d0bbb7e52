//! Trackers, which tell what peers a torrent has.

use vstd::prelude::*;
use vstd::slice::slice_subrange;

use crate::bencode::{entry, Benc, BencodedValue, Number};
use crate::bytes::Bytes;
use crate::error::{bterror, outcome, BitTorrentError};
use crate::info::{bytes_entry, bytes_in, int_entry, int_in};
use crate::net::{v4_of_compact, v4_reads_back, SocketAddr, SocketAddrV4};
use crate::peer::message::Codec;

pub mod dht;
pub mod multimodal;

verus! {

#[derive(Debug)]
pub enum TrackerResponse {
    Success { interval: Number, peers: Vec<SocketAddr> },
    Failure { failure_reason: Bytes },
}

/// What a `TrackerResponse` says.
pub enum TrackerView {
    Success { interval: int, peers: Seq<SocketAddr> },
    Failure { failure_reason: Seq<u8> },
}

impl View for TrackerResponse {
    type V = TrackerView;

    open spec fn view(&self) -> TrackerView {
        match self {
            TrackerResponse::Success { interval, peers } => TrackerView::Success {
                interval: *interval as int,
                peers: peers@,
            },
            TrackerResponse::Failure { failure_reason } => TrackerView::Failure {
                failure_reason: failure_reason@,
            },
        }
    }
}

/// Addresses in compact form, one after the other.
pub open spec fn compact_all(addresses: Seq<SocketAddr>) -> Seq<u8>
    decreases addresses.len(),
{
    if addresses.len() == 0 {
        seq![]
    } else {
        compact_all(addresses.drop_last()) + addresses.last().compact()
    }
}

/// The IPv4 addresses that bytes hold in compact form.
pub open spec fn addresses_of(bytes: Seq<u8>) -> Seq<SocketAddr> {
    Seq::new(
        bytes.len() / 6,
        |i: int| SocketAddr::V4(v4_of_compact(bytes.subrange(6 * i, 6 * i + 6))),
    )
}

impl Codec for Vec<SocketAddr> {
    type Error = BitTorrentError;

    /// Six bytes for each address.
    open spec fn decodable(bytes: Seq<u8>) -> bool {
        bytes.len() % 6 == 0
    }

    fn encode(&self) -> (result: Result<Vec<u8>, BitTorrentError>)
        ensures
            result is Ok,
            result->Ok_0@ == compact_all(self@),
    {
        let mut out: Vec<u8> = Vec::new();
        let mut i: usize = 0;
        assert(out@ =~= compact_all(self@.take(0)));
        while i < self.len()
            invariant
                0 <= i <= self.len(),
                out@ == compact_all(self@.take(i as int)),
            decreases self.len() - i,
        {
            let mut bytes = Bytes::from_socket_addr(self[i]).into_inner();
            out.append(&mut bytes);
            assert(self@.take(i + 1).drop_last() =~= self@.take(i as int));
            i = i + 1;
        }
        assert(self@.take(i as int) =~= self@);
        Ok(out)
    }

    /// only decodes ipv4 sockets
    fn decode(bytes: &[u8]) -> (result: Result<Self, BitTorrentError>)
        ensures
            result is Ok,
            result->Ok_0@ == addresses_of(bytes@),
    {
        let mut out: Vec<SocketAddr> = Vec::new();
        let len: usize = bytes.len();
        let mut at: usize = 0;
        while at < len
            invariant
                at <= len,
                len == bytes@.len(),
                len % 6 == 0,
                at % 6 == 0,
                out@.len() == at / 6,
                forall|i: int|
                    0 <= i < at / 6 ==> #[trigger] out@[i] == SocketAddr::V4(
                        v4_of_compact(bytes@.subrange(6 * i, 6 * i + 6)),
                    ),
            decreases len - at,
        {
            let chunk = slice_subrange(bytes, at, at + 6);
            assert(6 * (at / 6) == at);
            out.push(SocketAddr::V4(SocketAddrV4::from_bytes(chunk)));
            at = at + 6;
        }
        assert(out@ =~= addresses_of(bytes@));
        Ok(out)
    }
}

proof fn lemma_compact_all(addresses: Seq<SocketAddr>, i: int)
    requires
        forall|j: int| 0 <= j < addresses.len() ==> (#[trigger] addresses[j]) is V4,
        0 <= i < addresses.len(),
    ensures
        compact_all(addresses).len() == 6 * addresses.len(),
        compact_all(addresses).subrange(6 * i, 6 * i + 6) == addresses[i].compact(),
    decreases addresses.len(),
{
    let head = addresses.drop_last();
    let bytes = compact_all(addresses);
    assert(addresses[addresses.len() - 1] is V4);
    v4_reads_back(addresses.last()->V4_0);
    assert(addresses.last().compact().len() == 6);
    assert(forall|j: int| 0 <= j < head.len() ==> head[j] == addresses[j]);
    if head.len() > 0 {
        lemma_compact_all(head, if i < head.len() {
            i
        } else {
            0
        });
    }
    if i < head.len() {
        assert(bytes.subrange(6 * i, 6 * i + 6) =~= compact_all(head).subrange(6 * i, 6 * i + 6));
    } else {
        assert(bytes.subrange(6 * i, 6 * i + 6) =~= addresses.last().compact());
    }
}

/// IPv4 addresses read back from their compact form.
pub proof fn addresses_read_back(addresses: Seq<SocketAddr>)
    requires
        forall|j: int| 0 <= j < addresses.len() ==> (#[trigger] addresses[j]) is V4,
    ensures
        addresses_of(compact_all(addresses)) == addresses,
        compact_all(addresses).len() == 6 * addresses.len(),
{
    let bytes = compact_all(addresses);
    if addresses.len() > 0 {
        lemma_compact_all(addresses, 0);
    }
    assert forall|i: int| 0 <= i < addresses.len() implies #[trigger] addresses_of(bytes)[i]
        == addresses[i] by {
        lemma_compact_all(addresses, i);
        assert(addresses[i] is V4);
        v4_reads_back(addresses[i]->V4_0);
    }
    assert(addresses_of(bytes) =~= addresses);
}

/// Whether the peers in a tracker's response, if they are looked at, are whole
/// addresses.
pub open spec fn whole_peers(value: Benc) -> bool {
    value matches Benc::Dict(pairs) ==> (bytes_in(entry(pairs, "peers"@)) is Some && int_in(
        entry(pairs, "interval"@),
    ) is Some ==> bytes_in(entry(pairs, "peers"@))->0.len() % 6 == 0)
}

/// What a tracker's response says.
pub open spec fn tracker_response_of(value: Benc) -> Result<TrackerView, Seq<char>> {
    match value {
        Benc::Dict(pairs) => match bytes_in(entry(pairs, "peers"@)) {
            Some(peers) => match int_in(entry(pairs, "interval"@)) {
                Some(interval) => Ok(
                    TrackerView::Success { interval, peers: addresses_of(peers) },
                ),
                None => Err("Interval missing"@),
            },
            None => match bytes_in(entry(pairs, "failure reason"@)) {
                Some(failure_reason) => Ok(TrackerView::Failure { failure_reason }),
                None => Err("Invalid tracker response"@),
            },
        },
        _ => Err("Invalid tracker response"@),
    }
}

impl TrackerResponse {
    /// Read a tracker's response.
    pub fn from_bencoded(value: &BencodedValue) -> (result: Result<Self, BitTorrentError>)
        requires
            whole_peers(value@),
        ensures
            outcome(result) == tracker_response_of(value@),
    {
        let response = match value.as_dict() {
            Some(response) => response,
            None => return Err(bterror("Invalid tracker response")),
        };
        match bytes_entry(response, "peers") {
            Some(peers) => match int_entry(response, "interval") {
                Some(interval) => match <Vec<SocketAddr>>::decode(peers.0.as_slice()) {
                    Ok(peers) => Ok(TrackerResponse::Success { interval, peers }),
                    Err(error) => Err(error),
                },
                None => Err(bterror("Interval missing")),
            },
            None => match bytes_entry(response, "failure reason") {
                Some(failure_reason) => Ok(
                    TrackerResponse::Failure { failure_reason: failure_reason.clone() },
                ),
                None => Err(bterror("Invalid tracker response")),
            },
        }
    }

    /// Whether the peers in a response, if they are looked at, are whole addresses.
    pub fn has_whole_peers(value: &BencodedValue) -> (whole: bool)
        ensures
            whole == whole_peers(value@),
    {
        match value.as_dict() {
            Some(response) => match bytes_entry(response, "peers") {
                Some(peers) => int_entry(response, "interval").is_none() || peers.0.len() % 6 == 0,
                None => true,
            },
            None => true,
        }
    }
}

} // verus!
