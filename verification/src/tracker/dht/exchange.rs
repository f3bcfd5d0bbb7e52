//! Asking nodes of the distributed hash table, and going on to the nodes they name.

use vstd::prelude::*;

use crate::bencode::{encoded, ingested, BencodedValue};
use crate::bytes::{escaped, Bytes};
use crate::error::{outcome, BitTorrentError};
use crate::net::SocketAddr;
use crate::text::{decimal_nat, push_decimal, same_bytes, texts};
use crate::tracker::dht::{
    krpc_benc, krpc_of, nodes_view, same_node, whole_nodes, writable, DhtMessage, DhtView,
    KrpcMessage, KrpcView, Node, NodeAddress, NodeAddressView, NodeView, Query, QueryView,
};

verus! {

/// The strings of a JSON array, or what `serde_json` says about bytes that are none.
pub uninterp spec fn json_strings(bytes: Seq<u8>) -> Result<Seq<Seq<char>>, Seq<char>>;

/// `serde_json::from_slice` to a vector of strings.
#[verifier::external_body]
fn strings_from_json(bytes: &[u8]) -> (result: Result<Vec<String>, String>)
    ensures
        match result {
            Ok(list) => json_strings(bytes@) == Ok::<Seq<Seq<char>>, Seq<char>>(texts(list@)),
            Err(complaint) => json_strings(bytes@) == Err::<Seq<Seq<char>>, Seq<char>>(
                complaint@,
            ),
        },
{
    serde_json::from_slice::<Vec<String>>(bytes).map_err(|error| error.to_string())
}

/// Nodes of which only the domains are known.
pub open spec fn domain_nodes(domains: Seq<Seq<char>>) -> Seq<NodeView> {
    domains.map_values(
        |domain: Seq<char>|
            NodeView { id: None, address: NodeAddressView::Domain(domain) },
    )
}

/// Nodes of which only the domains are known.
pub fn bootstrap_nodes(domains: &Vec<String>) -> (nodes: Vec<Node>)
    ensures
        nodes_view(nodes@) == domain_nodes(texts(domains@)),
{
    let mut nodes: Vec<Node> = Vec::new();
    let mut i: usize = 0;
    while i < domains.len()
        invariant
            0 <= i <= domains.len(),
            nodes@.len() == i,
            forall|j: int|
                0 <= j < i ==> (#[trigger] nodes@[j])@ == (NodeView {
                    id: None,
                    address: NodeAddressView::Domain(domains@[j]@),
                }),
        decreases domains.len() - i,
    {
        nodes.push(Node { id: None, address: NodeAddress::Domain(domains[i].clone()) });
        i = i + 1;
    }
    assert(nodes_view(nodes@) =~= domain_nodes(texts(domains@)));
    nodes
}

/// The nodes to start from, given a file that lists their domains.
pub fn read_bootstrap_nodes(file: &[u8]) -> (result: Result<Vec<Node>, BitTorrentError>)
    ensures
        match result {
            Ok(nodes) => json_strings(file@) is Ok && nodes_view(nodes@) == domain_nodes(
                json_strings(file@)->Ok_0,
            ),
            Err(error) => json_strings(file@) == Err::<Seq<Seq<char>>, Seq<char>>(error@),
        },
{
    match strings_from_json(file) {
        Ok(domains) => Ok(bootstrap_nodes(&domains)),
        Err(complaint) => Err(BitTorrentError::new(complaint)),
    }
}

/// `rand::random` of two bytes: any two bytes.
#[verifier::external_body]
fn random_bytes() -> (bytes: [u8; 2])
{
    rand::random::<[u8; 2]>()
}

/// A message with a transaction id in bytes.
pub open spec fn request_bytes(transaction_id: Seq<u8>, message: DhtView) -> Seq<u8> {
    encoded(krpc_benc(KrpcView { transaction_id, dht_message: message }))
}

/// A message with a given transaction id in bytes.
pub fn encode_request(transaction_id: &Bytes, message: DhtMessage) -> (result: Result<
    Vec<u8>,
    BitTorrentError,
>)
    requires
        writable(message@),
    ensures
        result is Ok,
        result->Ok_0@ == request_bytes(transaction_id@, message@),
{
    let krpc_message = KrpcMessage {
        transaction_id: transaction_id.clone(),
        dht_message: message,
    };
    krpc_message.to_bencoded().encode()
}

/// A message with a transaction id that is drawn at random, in bytes.
pub fn begin_exchange(message: DhtMessage) -> (request: (Bytes, Result<Vec<u8>, BitTorrentError>))
    requires
        writable(message@),
    ensures
        request.0@.len() == 2,
        request.1 is Ok,
        request.1->Ok_0@ == request_bytes(request.0@, message@),
{
    let drawn = random_bytes();
    let transaction_id = Bytes::from_slice(drawn.as_slice());
    let bytes = encode_request(&transaction_id, message);
    (transaction_id, bytes)
}

/// What the answer to a message comes to, given its transaction id.
pub open spec fn answer_of(transaction_id: Seq<u8>, answer: KrpcView) -> Result<
    DhtView,
    Seq<char>,
> {
    if answer.transaction_id != transaction_id {
        Err(
            "Response transaction id does not match: recieved "@ + escaped(answer.transaction_id)
                + ", expected "@ + escaped(transaction_id),
        )
    } else {
        match answer.dht_message {
            DhtView::Error(code, error) => Err(
                "Error response from DHT node: code "@ + decimal_nat(code as nat) + ": "@ + error,
            ),
            message => Ok(message),
        }
    }
}

/// What the bytes of an answer come to.
pub open spec fn answered(transaction_id: Seq<u8>, bytes: Seq<u8>) -> Result<DhtView, Seq<char>> {
    match ingested(bytes).0 {
        Err(complaint) => Err(complaint),
        Ok(value) => match krpc_of(value) {
            Err(complaint) => Err(complaint),
            Ok(answer) => answer_of(transaction_id, answer),
        },
    }
}

/// Whether the nodes in the bytes of an answer, if they are looked at, are whole.
pub open spec fn whole_answer(bytes: Seq<u8>) -> bool {
    ingested(bytes).0 matches Ok(value) ==> whole_nodes(value)
}

/// What an answer comes to, given the transaction id of the message.
pub fn check_answer(transaction_id: &Bytes, answer: KrpcMessage) -> (result: Result<
    DhtMessage,
    BitTorrentError,
>)
    ensures
        outcome(result) == answer_of(transaction_id@, answer@),
{
    if !same_bytes(answer.transaction_id.0.as_slice(), transaction_id.0.as_slice()) {
        let mut text = "Response transaction id does not match: recieved ".to_string();
        text.append(answer.transaction_id.to_string().as_str());
        text.append(", expected ");
        text.append(transaction_id.to_string().as_str());
        return Err(BitTorrentError::new(text));
    }
    match answer.dht_message {
        DhtMessage::Error(code, error) => {
            let mut text = "Error response from DHT node: code ".to_string();
            push_decimal(&mut text, code as u128);
            text.append(": ");
            text.append(error.as_str());
            Err(BitTorrentError::new(text))
        },
        message => Ok(message),
    }
}

/// What the bytes of an answer come to, given the transaction id of the message.
pub fn finish_exchange(transaction_id: &Bytes, response: &[u8]) -> (result: Result<
    DhtMessage,
    BitTorrentError,
>)
    requires
        whole_answer(response@),
    ensures
        outcome(result) == answered(transaction_id@, response@),
{
    let mut rest: &[u8] = response;
    match BencodedValue::ingest(&mut rest) {
        Ok(value) => match KrpcMessage::from_bencoded(&value) {
            Ok(answer) => check_answer(transaction_id, answer),
            Err(error) => Err(error),
        },
        Err(error) => Err(error),
    }
}

/// What the bytes of an answer come to, unless they hold nodes that are not whole.
pub fn try_finish_exchange(transaction_id: &Bytes, response: &[u8]) -> (result: Option<
    Result<DhtMessage, BitTorrentError>,
>)
    ensures
        match result {
            Some(result) => whole_answer(response@) && outcome(result) == answered(
                transaction_id@,
                response@,
            ),
            None => !whole_answer(response@),
        },
{
    let mut rest: &[u8] = response;
    let whole = match BencodedValue::ingest(&mut rest) {
        Ok(value) => KrpcMessage::has_whole_nodes(&value),
        Err(_) => true,
    };
    if whole {
        Some(finish_exchange(transaction_id, response))
    } else {
        None
    }
}

/// What a node's answer leads to.
#[derive(Debug)]
pub struct CrawlStep {
    /// nodes to ask
    pub nodes: Vec<Node>,
    /// whether the node is to be asked again
    pub keep: bool,
    /// peers that were found
    pub peers: Vec<SocketAddr>,
}

/// Whether a node is among others.
pub open spec fn among(nodes: Seq<NodeView>, node: NodeView) -> bool {
    exists|i: int| 0 <= i < nodes.len() && same_node(#[trigger] nodes[i], node)
}

/// The nodes that are not among others.
pub open spec fn unseen(nodes: Seq<NodeView>, seen: Seq<NodeView>) -> Seq<NodeView>
    decreases nodes.len(),
{
    if nodes.len() == 0 {
        seq![]
    } else if among(seen, nodes.last()) {
        unseen(nodes.drop_last(), seen)
    } else {
        unseen(nodes.drop_last(), seen).push(nodes.last())
    }
}

/// The peers and nodes of a node's answer; any other outcome has none.
pub open spec fn found_in(reply: Option<DhtView>) -> (Seq<SocketAddr>, Seq<NodeView>) {
    match reply {
        Some(DhtView::Response { nodes, peers, .. }) => (
            match peers {
                Some(peers) => peers,
                None => seq![],
            },
            match nodes {
                Some(nodes) => nodes,
                None => seq![],
            },
        ),
        _ => (seq![], seq![]),
    }
}

/// What a node's answer leads to, and the nodes that are marked as seen then.
pub struct CrawlView {
    pub nodes: Seq<NodeView>,
    pub keep: bool,
    pub peers: Seq<SocketAddr>,
    pub seen: Seq<NodeView>,
}

/// What the answer of a node leads to, given the nodes that are marked as seen.
pub open spec fn crawled(
    seen: Seq<NodeView>,
    node: NodeView,
    reply: Option<DhtView>,
) -> CrawlView {
    let (peers, nodes) = found_in(reply);
    CrawlView {
        nodes: unseen(nodes, seen),
        keep: peers.len() > 0,
        peers,
        seen: if peers.len() > 0 {
            seen
        } else {
            seen.push(node)
        },
    }
}

/// Whether a node is among others.
pub fn is_among(nodes: &Vec<Node>, node: &Node) -> (found: bool)
    ensures
        found == among(nodes_view(nodes@), node@),
{
    let mut i: usize = 0;
    while i < nodes.len()
        invariant
            0 <= i <= nodes.len(),
            forall|j: int| 0 <= j < i ==> !same_node(#[trigger] nodes_view(nodes@)[j], node@),
        decreases nodes.len() - i,
    {
        assert(nodes_view(nodes@)[i as int] == nodes@[i as int]@);
        if nodes[i].is_same(node) {
            return true;
        }
        i = i + 1;
    }
    false
}

/// Take in the answer of a node: what to do with the nodes and peers that it names, and
/// with the node itself. A node that named peers is asked again; any other is marked as
/// seen.
pub fn crawl_step(seen: &mut Vec<Node>, node: &Node, reply: Option<DhtMessage>) -> (step: CrawlStep)
    ensures
        crawled(
            nodes_view(old(seen)@),
            node@,
            match reply {
                Some(message) => Some(message@),
                None => None,
            },
        ) == (CrawlView {
            nodes: nodes_view(step.nodes@),
            keep: step.keep,
            peers: step.peers@,
            seen: nodes_view(final(seen)@),
        }),
{
    let mut peers: Vec<SocketAddr> = Vec::new();
    let mut nodes: Vec<Node> = Vec::new();
    assert(nodes_view(nodes@) =~= seq![]);
    match reply {
        Some(DhtMessage::Response { id: _, token: _, nodes: named, peers: found }) => {
            if let Some(found) = found {
                peers = found;
            }
            if let Some(named) = named {
                nodes = named;
            }
        },
        _ => {},
    }
    let ghost all = nodes_view(nodes@);
    let ghost marked = nodes_view(seen@);
    let mut fresh: Vec<Node> = Vec::new();
    let mut i: usize = 0;
    assert(nodes_view(fresh@) =~= unseen(all.take(0), marked));
    while i < nodes.len()
        invariant
            0 <= i <= nodes.len(),
            all == nodes_view(nodes@),
            marked == nodes_view(seen@),
            nodes_view(fresh@) == unseen(all.take(i as int), marked),
        decreases nodes.len() - i,
    {
        assert(all[i as int] == nodes@[i as int]@);
        assert(all.take(i + 1).drop_last() =~= all.take(i as int));
        assert(all.take(i + 1).last() == all[i as int]);
        if !is_among(seen, &nodes[i]) {
            let ghost before = fresh@;
            fresh.push(nodes[i].clone());
            assert(nodes_view(fresh@) =~= nodes_view(before).push(all[i as int]));
        }
        i = i + 1;
    }
    assert(all.take(i as int) =~= all);
    let keep = peers.len() > 0;
    if !keep {
        let ghost before = seen@;
        seen.push(node.clone());
        assert(nodes_view(seen@) =~= nodes_view(before).push(node@));
    }
    CrawlStep { nodes: fresh, keep, peers }
}

/// The query for the peers of a torrent.
pub fn peers_query(peer_id: &Bytes, info_hash: [u8; 20]) -> (message: DhtMessage)
    ensures
        message@ == DhtView::Query(
            QueryView::GetPeers { id: peer_id@, info_hash: info_hash@ },
        ),
{
    DhtMessage::Query(Query::GetPeers { id: peer_id.clone(), info_hash })
}

/// No node that is gone on to has been marked as seen, and every node that an answer
/// names is gone on to or has been marked.
pub proof fn crawl_goes_on_to_unseen(nodes: Seq<NodeView>, seen: Seq<NodeView>)
    ensures
        forall|i: int| 0 <= i < unseen(nodes, seen).len() ==> !among(
            seen,
            #[trigger] unseen(nodes, seen)[i],
        ),
        forall|i: int|
            0 <= i < nodes.len() ==> among(seen, #[trigger] nodes[i]) || unseen(
                nodes,
                seen,
            ).contains(nodes[i]),
    decreases nodes.len(),
{
    if nodes.len() > 0 {
        let head = nodes.drop_last();
        crawl_goes_on_to_unseen(head, seen);
        let before = unseen(head, seen);
        let after = unseen(nodes, seen);
        assert forall|i: int| 0 <= i < nodes.len() implies among(seen, #[trigger] nodes[i])
            || after.contains(nodes[i]) by {
            if i < head.len() {
                assert(head[i] == nodes[i]);
                if before.contains(nodes[i]) {
                    let j = choose|j: int| 0 <= j < before.len() && before[j] == nodes[i];
                    assert(after[j] == nodes[i]);
                }
            } else if !among(seen, nodes[i]) {
                assert(after[before.len() as int] == nodes[i]);
            }
        }
    }
}

} // verus!
