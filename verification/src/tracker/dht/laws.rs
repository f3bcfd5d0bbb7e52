//! What a message of the distributed hash table keeps when it is written out and read.

use vstd::prelude::*;
use vstd::utf8::{encode_utf8, encode_utf8_decode_utf8};

use crate::bytes::{is_plain_text, plain_text_shown_as_itself};
use crate::info::laws::length_reads_back;
use crate::keymap::{dict_of, dict_of_gives_last, last_put_at};
use crate::bencode::{entry, Benc};
use crate::net::{v4_reads_back, v6_reads_back, SocketAddr};
use crate::tracker::dht::{
    address_bytes, krpc_benc, krpc_entries, krpc_of, node_bytes, nodes_bytes, nodes_of,
    query_arguments, query_name, query_of, response_entries, response_of, same_node, sockets_of,
    whole_nodes, DhtView, KrpcView, NodeView, QueryView,
};

verus! {

/// Whether a node has an id of twenty bytes and an IPv4 address.
pub open spec fn plain_node(node: NodeView) -> bool {
    &&& node.id is Some
    &&& node.id->0.len() == 20
    &&& node.address is Ip
    &&& node.address->Ip_0 is V4
}

proof fn lemma_nodes_bytes(nodes: Seq<NodeView>, i: int)
    requires
        forall|j: int| 0 <= j < nodes.len() ==> plain_node(#[trigger] nodes[j]),
        0 <= i < nodes.len(),
    ensures
        nodes_bytes(nodes).len() == 26 * nodes.len(),
        nodes_bytes(nodes).subrange(26 * i, 26 * i + 20) == nodes[i].id->0,
        nodes_bytes(nodes).subrange(26 * i + 20, 26 * i + 26) == address_bytes(nodes[i].address),
    decreases nodes.len(),
{
    let head = nodes.drop_last();
    let last = nodes.last();
    let bytes = nodes_bytes(nodes);
    assert(plain_node(nodes[nodes.len() - 1]));
    v4_reads_back(last.address->Ip_0->V4_0);
    assert(address_bytes(last.address).len() == 6);
    assert(node_bytes(last).len() == 26);
    assert forall|j: int| 0 <= j < head.len() implies plain_node(#[trigger] head[j]) by {
        assert(head[j] == nodes[j]);
    }
    if head.len() > 0 {
        lemma_nodes_bytes(head, if i < head.len() {
            i
        } else {
            0
        });
    }
    if i < head.len() {
        assert(bytes.subrange(26 * i, 26 * i + 20) =~= nodes_bytes(head).subrange(
            26 * i,
            26 * i + 20,
        ));
        assert(bytes.subrange(26 * i + 20, 26 * i + 26) =~= nodes_bytes(head).subrange(
            26 * i + 20,
            26 * i + 26,
        ));
    } else {
        assert(bytes.subrange(26 * i, 26 * i + 20) =~= last.id->0);
        assert(bytes.subrange(26 * i + 20, 26 * i + 26) =~= address_bytes(last.address));
    }
}

/// Nodes with ids and IPv4 addresses read back from their bytes.
pub proof fn nodes_read_back(nodes: Seq<NodeView>)
    requires
        forall|j: int| 0 <= j < nodes.len() ==> plain_node(#[trigger] nodes[j]),
    ensures
        nodes_of(nodes_bytes(nodes)) == nodes,
        nodes_bytes(nodes).len() == 26 * nodes.len(),
{
    let bytes = nodes_bytes(nodes);
    if nodes.len() > 0 {
        lemma_nodes_bytes(nodes, 0);
    }
    assert forall|i: int| 0 <= i < nodes.len() implies #[trigger] nodes_of(bytes)[i]
        == nodes[i] by {
        lemma_nodes_bytes(nodes, i);
        assert(plain_node(nodes[i]));
        v4_reads_back(nodes[i].address->Ip_0->V4_0);
    }
    assert(nodes_of(bytes) =~= nodes);
}

/// Whether a message reads back from its bencoded value: its hash has twenty bytes, its
/// nodes are plain, its text is shown as it is. Peers in a response are written as one
/// byte string but read from a list, so a response that has any does not.
pub open spec fn plain_dht(message: DhtView) -> bool {
    match message {
        DhtView::Query(QueryView::GetPeers { info_hash, .. }) => info_hash.len() == 20,
        DhtView::Query(QueryView::AnnouncePeer { info_hash, .. }) => info_hash.len() == 20,
        DhtView::Query(_) => true,
        DhtView::Response { nodes, peers, .. } => {
            &&& peers is None
            &&& nodes matches Some(nodes) ==> forall|j: int|
                0 <= j < nodes.len() ==> plain_node(#[trigger] nodes[j])
        },
        DhtView::Error(code, error) => 0 <= code <= usize::MAX && is_plain_text(error),
    }
}

/// An entry whose name does not come again leads to its value.
pub proof fn lemma_entry<T>(entries: Seq<(Seq<char>, T)>, at: int)
    requires
        0 <= at < entries.len(),
        forall|i: int| at < i < entries.len() ==> (#[trigger] entries[i]).0 != entries[at].0,
    ensures
        crate::keymap::lookup(dict_of(entries), encode_utf8(entries[at].0)) == Some(
            entries[at].1,
        ),
{
    dict_of_gives_last(entries, entries[at].0);
    last_put_at(entries, at);
}

/// A name that does not come leads to nothing.
pub proof fn lemma_no_entry<T>(entries: Seq<(Seq<char>, T)>, key: Seq<char>)
    requires
        forall|i: int| 0 <= i < entries.len() ==> (#[trigger] entries[i]).0 != key,
    ensures
        crate::keymap::lookup(dict_of(entries), encode_utf8(key)) is None,
    decreases entries.len(),
{
    dict_of_gives_last(entries, key);
    if entries.len() > 0 {
        assert(entries[entries.len() - 1].0 != key);
        let head = entries.drop_last();
        assert forall|i: int| 0 <= i < head.len() implies (#[trigger] head[i]).0 != key by {
            assert(head[i] == entries[i]);
        }
        lemma_no_entry(head, key);
        dict_of_gives_last(head, key);
    }
}

/// What tells the names of arguments apart.
pub proof fn lemma_argument_names()
    ensures
        "id"@.len() == 2,
        "target"@.len() == 6,
        "info_hash"@.len() == 9,
        "port"@.len() == 4,
        "implied_port"@.len() == 12,
        "token"@.len() == 5,
        "nodes"@.len() == 5,
        "values"@.len() == 6,
        "token"@[0] != "nodes"@[0],
{
    reveal_strlit("id");
    reveal_strlit("target");
    reveal_strlit("info_hash");
    reveal_strlit("port");
    reveal_strlit("implied_port");
    reveal_strlit("token");
    reveal_strlit("nodes");
    reveal_strlit("values");
}

proof fn lemma_query_names()
    ensures
        "ping"@.len() == 4,
        "find_node"@.len() == 9,
        "get_peers"@.len() == 9,
        "announce_peer"@.len() == 13,
        "find_node"@[0] != "get_peers"@[0],
{
    reveal_strlit("ping");
    reveal_strlit("find_node");
    reveal_strlit("get_peers");
    reveal_strlit("announce_peer");
}

/// Different names have different bytes.
pub proof fn lemma_distinct_bytes(a: Seq<char>, b: Seq<char>)
    requires
        a != b,
    ensures
        encode_utf8(a) != encode_utf8(b),
{
    encode_utf8_decode_utf8(a);
    encode_utf8_decode_utf8(b);
}

proof fn lemma_query_reads_back(query: QueryView)
    requires
        plain_dht(DhtView::Query(query)),
    ensures
        query_of(dict_of(query_arguments(query)), encode_utf8(query_name(query))) == Ok::<
            QueryView,
            Seq<char>,
        >(query),
{
    let entries = query_arguments(query);
    lemma_argument_names();
    lemma_query_names();
    lemma_distinct_bytes("ping"@, "find_node"@);
    lemma_distinct_bytes("ping"@, "get_peers"@);
    lemma_distinct_bytes("ping"@, "announce_peer"@);
    lemma_distinct_bytes("find_node"@, "get_peers"@);
    lemma_distinct_bytes("find_node"@, "announce_peer"@);
    lemma_distinct_bytes("get_peers"@, "announce_peer"@);
    lemma_entry(entries, 0);
    match query {
        QueryView::Ping { .. } => {},
        QueryView::FindNode { .. } => {
            lemma_entry(entries, 1);
        },
        QueryView::GetPeers { .. } => {
            lemma_entry(entries, 1);
        },
        QueryView::AnnouncePeer { port, .. } => {
            lemma_entry(entries, 1);
            lemma_entry(entries, 2);
            lemma_entry(entries, 3);
            if port is Some {
                lemma_no_entry(entries, "implied_port"@);
            }
        },
    }
}

proof fn lemma_response_reads_back(message: DhtView)
    requires
        message is Response,
        plain_dht(message),
    ensures
        ({
            let entries = response_entries(
                message->id,
                message->token,
                message->nodes,
                message->peers,
            );
            &&& response_of(dict_of(entries)) == Ok::<DhtView, Seq<char>>(message)
            &&& crate::tracker::dht::whole_nodes_in(dict_of(entries))
        }),
{
    let entries = response_entries(message->id, message->token, message->nodes, message->peers);
    lemma_argument_names();
    lemma_entry(entries, 0);
    lemma_entry(entries, 1);
    lemma_entry(entries, 2);
    lemma_entry(entries, 3);
    if let Some(nodes) = message->nodes {
        nodes_read_back(nodes);
    }
}

/// What a message says reads back from its bencoded value.
pub proof fn krpc_reads_back(message: KrpcView)
    requires
        plain_dht(message.dht_message),
    ensures
        whole_nodes(krpc_benc(message)),
        krpc_of(krpc_benc(message)) == Ok::<KrpcView, Seq<char>>(message),
{
    let entries = krpc_entries(message);
    let pairs = dict_of(entries);
    reveal_strlit("t");
    reveal_strlit("y");
    reveal_strlit("q");
    reveal_strlit("a");
    reveal_strlit("r");
    reveal_strlit("e");
    assert("t"@[0] == 't' && "y"@[0] == 'y' && "q"@[0] == 'q' && "a"@[0] == 'a' && "r"@[0] == 'r'
        && "e"@[0] == 'e');
    lemma_distinct_bytes("q"@, "r"@);
    lemma_distinct_bytes("q"@, "e"@);
    lemma_distinct_bytes("r"@, "e"@);
    lemma_entry(entries, 0);
    lemma_entry(entries, 1);
    lemma_entry(entries, 2);
    match message.dht_message {
        DhtView::Query(query) => {
            lemma_entry(entries, 3);
            lemma_query_reads_back(query);
        },
        DhtView::Response { .. } => {
            lemma_response_reads_back(message.dht_message);
        },
        DhtView::Error(code, error) => {
            length_reads_back(code);
            plain_text_shown_as_itself(error);
        },
    }
}

/// Whether nodes are the same does not depend on the order, and a node is the same as
/// itself.
pub proof fn same_node_is_symmetric(a: NodeView, b: NodeView)
    ensures
        same_node(a, a),
        same_node(a, b) == same_node(b, a),
{
}

/// Whether an address keeps everything in compact form: all IPv4 addresses do, and those
/// IPv6 addresses that have no flow and no scope.
pub open spec fn plain_socket(address: SocketAddr) -> bool {
    match address {
        SocketAddr::V4(_) => true,
        SocketAddr::V6(address) => address.flowinfo == 0 && address.scope_id == 0,
    }
}

/// The list of the addresses' compact forms.
pub open spec fn compact_list(addresses: Seq<SocketAddr>) -> Seq<Benc> {
    Seq::new(addresses.len(), |i: int| Benc::Bytes(addresses[i].compact()))
}

/// A list of addresses in compact form gives those addresses, all of them and in that
/// order.
pub proof fn sockets_read_back(addresses: Seq<SocketAddr>)
    requires
        forall|i: int| 0 <= i < addresses.len() ==> plain_socket(#[trigger] addresses[i]),
    ensures
        sockets_of(compact_list(addresses)) == Ok::<_, Seq<char>>(addresses),
    decreases addresses.len(),
{
    if addresses.len() == 0 {
        assert(addresses =~= seq![]);
    } else {
        let head = addresses.drop_last();
        assert forall|i: int| 0 <= i < head.len() implies plain_socket(#[trigger] head[i]) by {
            assert(head[i] == addresses[i]);
        }
        sockets_read_back(head);
        assert(compact_list(addresses).drop_last() =~= compact_list(head));
        assert(plain_socket(addresses[addresses.len() - 1]));
        match addresses.last() {
            SocketAddr::V4(address) => {
                v4_reads_back(address);
            },
            SocketAddr::V6(address) => {
                v6_reads_back(address);
            },
        }
        assert(head.push(addresses.last()) =~= addresses);
    }
}

/// A response that lists addresses in compact form under `values` gives those addresses.
pub proof fn response_gives_values(response: Seq<(Seq<u8>, Benc)>, addresses: Seq<SocketAddr>)
    requires
        entry(response, "id"@) matches Some(Benc::Bytes(_)),
        entry(response, "values"@) == Some(Benc::List(compact_list(addresses))),
        forall|i: int| 0 <= i < addresses.len() ==> plain_socket(#[trigger] addresses[i]),
    ensures
        response_of(response) is Ok,
        response_of(response)->Ok_0 is Response,
        response_of(response)->Ok_0->peers == Some(addresses),
{
    sockets_read_back(addresses);
}

} // verus!
