//! What holds of every tracker.

use vstd::prelude::*;

use crate::be::{be_bytes, be_bytes_read_back, lemma_be_bytes_len, lemma_be_limits};
use crate::net::SocketAddr;
use crate::text::{find_char, is_digit, lemma_find_char};
use crate::torrent_source::{source_hash, SourceView};
use crate::tracker::multimodal::{
    after_next, after_refill, after_taking, announce_answer, announce_answer_complete,
    announce_request, connect_answer, connect_answer_complete, connect_request, digits_run,
    starts_with, tracker_address_of, AnnounceView, TrackerAddressView,
};
use crate::tracker::{addresses_read_back, compact_all};

verus! {

/// The answer to a request for a connection gives the id of the connection if it names
/// the transaction, whatever it begins with.
pub proof fn connection_is_given(action: u32, transaction_id: u32, connection_id: u64)
    ensures
        ({
            let response = be_bytes(action as nat, 4) + be_bytes(transaction_id as nat, 4)
                + be_bytes(connection_id as nat, 8);
            &&& connect_answer_complete(transaction_id, response)
            &&& connect_answer(transaction_id, response) == Ok::<nat, Seq<char>>(
                connection_id as nat,
            )
        }),
{
    let response = be_bytes(action as nat, 4) + be_bytes(transaction_id as nat, 4) + be_bytes(
        connection_id as nat,
        8,
    );
    lemma_be_limits();
    lemma_be_bytes_len(action as nat, 4);
    lemma_be_bytes_len(transaction_id as nat, 4);
    lemma_be_bytes_len(connection_id as nat, 8);
    be_bytes_read_back(transaction_id as nat, 4);
    be_bytes_read_back(connection_id as nat, 8);
    assert(response.subrange(4, 8) =~= be_bytes(transaction_id as nat, 4));
    assert(response.subrange(8, 16) =~= be_bytes(connection_id as nat, 8));
}

/// The answer to an announcement gives the interval and the IPv4 addresses that it was
/// made of, if it names the transaction.
pub proof fn announced_peers_are_given(
    action: u32,
    transaction_id: u32,
    interval: u32,
    leechers: u32,
    seeders: u32,
    peers: Seq<SocketAddr>,
)
    requires
        forall|j: int| 0 <= j < peers.len() ==> (#[trigger] peers[j]) is V4,
    ensures
        ({
            let response = be_bytes(action as nat, 4) + be_bytes(transaction_id as nat, 4)
                + be_bytes(interval as nat, 4) + be_bytes(leechers as nat, 4) + be_bytes(
                seeders as nat,
                4,
            ) + compact_all(peers);
            &&& announce_answer_complete(transaction_id, response)
            &&& announce_answer(transaction_id, response) == Ok::<AnnounceView, Seq<char>>(
                AnnounceView { interval: interval as int, peers },
            )
        }),
{
    let response = be_bytes(action as nat, 4) + be_bytes(transaction_id as nat, 4) + be_bytes(
        interval as nat,
        4,
    ) + be_bytes(leechers as nat, 4) + be_bytes(seeders as nat, 4) + compact_all(peers);
    lemma_be_limits();
    lemma_be_bytes_len(action as nat, 4);
    lemma_be_bytes_len(transaction_id as nat, 4);
    lemma_be_bytes_len(interval as nat, 4);
    lemma_be_bytes_len(leechers as nat, 4);
    lemma_be_bytes_len(seeders as nat, 4);
    be_bytes_read_back(transaction_id as nat, 4);
    be_bytes_read_back(interval as nat, 4);
    addresses_read_back(peers);
    assert(response.subrange(4, 8) =~= be_bytes(transaction_id as nat, 4));
    assert(response.subrange(8, 12) =~= be_bytes(interval as nat, 4));
    assert(response.skip(20) =~= compact_all(peers));
}

/// A request for a connection takes sixteen bytes.
pub proof fn connect_request_length(transaction_id: u32)
    ensures
        connect_request(transaction_id).len() == 16,
{
    lemma_be_bytes_len(crate::tracker::multimodal::PROTOCOL_MAGIC as nat, 8);
    lemma_be_bytes_len(0, 4);
    lemma_be_bytes_len(transaction_id as nat, 4);
}

/// An announcement takes ninety-eight bytes, for a hash and a peer id of twenty.
pub proof fn announce_request_length(
    connection_id: u64,
    transaction_id: u32,
    source: SourceView,
    peer_id: Seq<char>,
    key: u32,
    port: u16,
)
    requires
        source_hash(source).len() == 20,
        vstd::utf8::encode_utf8(peer_id).len() == 20,
    ensures
        announce_request(connection_id, transaction_id, source, peer_id, key, port).len() == 98,
{
    lemma_be_bytes_len(connection_id as nat, 8);
    lemma_be_bytes_len(1, 4);
    lemma_be_bytes_len(transaction_id as nat, 4);
    lemma_be_bytes_len(0, 8);
    lemma_be_bytes_len(0, 4);
    lemma_be_bytes_len(key as nat, 4);
    lemma_be_bytes_len(0xffff_ffff, 4);
    lemma_be_bytes_len(port as nat, 2);
}

proof fn lemma_digits_run(text: Seq<char>, at: int, n: int)
    requires
        0 <= at,
        0 <= n,
        at + n <= text.len(),
        forall|i: int| at <= i < at + n ==> is_digit(#[trigger] text[i]),
        at + n < text.len() ==> !is_digit(text[at + n]),
    ensures
        digits_run(text, at) == n,
    decreases n,
{
    if n > 0 {
        assert(is_digit(text[at]));
        lemma_digits_run(text, at + 1, n - 1);
    }
}

/// The address of a UDP tracker is asked at its host and port, with or without a path
/// after them.
pub proof fn udp_host_is_found(host: Seq<char>, port: Seq<char>, path: Seq<char>)
    requires
        host.len() > 0,
        forall|i: int| 0 <= i < host.len() ==> host[i] != ':',
        port.len() > 0,
        forall|i: int| 0 <= i < port.len() ==> is_digit(#[trigger] port[i]),
        path.len() > 0 ==> path[0] == '/',
    ensures
        tracker_address_of("udp://"@ + host + seq![':'] + port + path) == Ok::<
            TrackerAddressView,
            Seq<char>,
        >(TrackerAddressView::Udp(host + seq![':'] + port)),
{
    reveal_strlit("udp://");
    reveal_strlit("udp");
    reveal_strlit("http");
    let url = "udp://"@ + host + seq![':'] + port + path;
    let rest = host + seq![':'] + port + path;
    assert(url.take(6) =~= "udp://"@);
    assert(url.skip(6) =~= rest);
    assert(url[0] == 'u');
    assert(!starts_with(url, "http"@)) by {
        if starts_with(url, "http"@) {
            assert(url.take(4)[0] == url[0]);
        }
    }
    assert(url.take(3) =~= "udp"@);
    lemma_find_char(rest, ':');
    let colon = host.len() as int;
    assert(rest[colon] == ':');
    assert forall|i: int| 0 <= i < colon implies rest[i] != ':' by {
        assert(rest[i] == host[i]);
    }
    assert(find_char(rest, ':') == Some(colon));
    let n = port.len() as int;
    assert forall|i: int| colon + 1 <= i < colon + 1 + n implies is_digit(#[trigger] rest[i]) by {
        assert(rest[i] == port[i - colon - 1]);
    }
    assert(path.len() > 0 ==> rest[colon + 1 + n] == path[0]);
    lemma_digits_run(rest, colon + 1, n);
    assert(rest.take(colon + 1 + n) =~= host + seq![':'] + port);
}

/// The peers that a queue hands on until it is empty.
pub open spec fn handed_on(queue: Seq<SocketAddr>) -> Seq<SocketAddr>
    decreases queue.len(),
{
    match after_next(queue) {
        (Some(peer), rest) => if rest.len() < queue.len() {
            seq![peer] + handed_on(rest)
        } else {
            seq![peer]
        },
        (None, _) => seq![],
    }
}

proof fn lemma_handed_on(queue: Seq<SocketAddr>)
    ensures
        handed_on(queue) == queue,
    decreases queue.len(),
{
    if queue.len() > 0 {
        lemma_handed_on(queue.drop_first());
        assert(seq![queue[0]] + queue.drop_first() =~= queue);
    } else {
        assert(queue =~= seq![]);
    }
}

/// The peers that are handed on after a tracker has named some are those that it named,
/// each once and in that order.
pub proof fn named_peers_are_handed_on(named: Seq<SocketAddr>)
    requires
        named.len() > 0,
    ensures
        ({
            let (first, queue) = after_refill(seq![], named);
            first is Some && seq![first->0] + handed_on(queue) == named
        }),
{
    let (first, queue) = after_refill(seq![], named);
    lemma_handed_on(queue);
    assert(seq![named[0]] + (Seq::<SocketAddr>::empty() + named.skip(1)) =~= named);
}

/// The peers that a tracker names come behind those that have not been handed on, but for
/// the first, which is handed on at once; none is lost. A tracker that names none changes
/// nothing.
pub proof fn waiting_peers_are_kept(queue: Seq<SocketAddr>, named: Seq<SocketAddr>)
    ensures
        ({
            let (first, after) = after_refill(queue, named);
            &&& named.len() == 0 ==> first is None && after == queue
            &&& named.len() > 0 ==> first == Some(named[0]) && handed_on(after) == handed_on(queue)
                + named.skip(1)
        }),
{
    lemma_handed_on(queue);
    lemma_handed_on(after_refill(queue, named).1);
}

/// The trackers that are taken off a list until it is empty.
pub open spec fn all_taken(trackers: Seq<Seq<char>>) -> Seq<Seq<char>>
    decreases trackers.len(),
{
    match after_taking(trackers) {
        (Some(url), rest) => if rest.len() < trackers.len() {
            seq![url] + all_taken(rest)
        } else {
            seq![url]
        },
        (None, _) => seq![],
    }
}

/// All trackers are asked, each once and in their order.
pub proof fn trackers_are_taken_in_order(trackers: Seq<Seq<char>>)
    ensures
        all_taken(trackers) == trackers,
    decreases trackers.len(),
{
    if trackers.len() > 0 {
        trackers_are_taken_in_order(trackers.drop_first());
        assert(seq![trackers[0]] + trackers.drop_first() =~= trackers);
    } else {
        assert(trackers =~= seq![]);
    }
}

} // verus!
