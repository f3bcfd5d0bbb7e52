//! Under which names the fields of a message stand in its dictionaries, and what the answer
//! to one comes to.

use vstd::prelude::*;
use vstd::utf8::encode_utf8;

use crate::bencode::standard::{standard, standard_is_read, standardizable};
use crate::bencode::{entry, Benc};
use crate::bytes::{is_plain_text, plain_text_shown_as_itself};
use crate::info::as_number;
use crate::info::laws::length_reads_back;
use crate::net::SocketAddr;
use crate::tracker::dht::exchange::{
    among, answer_of, answered, crawl_goes_on_to_unseen, crawled, domain_nodes, found_in, unseen,
};
use crate::tracker::dht::laws::{
    compact_list, lemma_argument_names, lemma_distinct_bytes, lemma_entry, lemma_no_entry,
    nodes_read_back, plain_node, plain_socket, sockets_read_back,
};
use crate::tracker::dht::{
    krpc_benc, krpc_entries, krpc_of, nodes_bytes, query_arguments, query_of, response_entries,
    response_of, same_node, DhtView, KrpcView, NodeAddressView, NodeView, QueryView,
};

verus! {

proof fn lemma_message_names()
    ensures
        "t"@ == seq!['t'],
        "y"@ == seq!['y'],
        "q"@ == seq!['q'],
        "a"@ == seq!['a'],
        "r"@ == seq!['r'],
        "e"@ == seq!['e'],
{
    reveal_strlit("t");
    reveal_strlit("y");
    reveal_strlit("q");
    reveal_strlit("a");
    reveal_strlit("r");
    reveal_strlit("e");
    assert("t"@ =~= seq!['t']);
    assert("y"@ =~= seq!['y']);
    assert("q"@ =~= seq!['q']);
    assert("a"@ =~= seq!['a']);
    assert("r"@ =~= seq!['r']);
    assert("e"@ =~= seq!['e']);
}

/// Whether a value is a byte string that writes some text.
pub open spec fn is_text(value: Option<Benc>, text: Seq<char>) -> bool {
    value == Some(Benc::Bytes(encode_utf8(text)))
}

/// A query has its transaction under `t`, `q` under `y`, its kind under `q`, and under `a`
/// its arguments by name: the sender's id, and the target, the hash, the port or that it is
/// implied, and the token, as the kind asks for them.
pub proof fn query_is_written_by_names(transaction_id: Seq<u8>, query: QueryView)
    ensures
        ({
            let value = krpc_benc(KrpcView { transaction_id, dht_message: DhtView::Query(query) });
            let pairs = value->Dict_0;
            let arguments = entry(pairs, "a"@)->0->Dict_0;
            &&& value is Dict
            &&& entry(pairs, "t"@) == Some(Benc::Bytes(transaction_id))
            &&& is_text(entry(pairs, "y"@), "q"@)
            &&& entry(pairs, "a"@) matches Some(Benc::Dict(_))
            &&& match query {
                QueryView::Ping { id } => is_text(entry(pairs, "q"@), "ping"@) && entry(
                    arguments,
                    "id"@,
                ) == Some(Benc::Bytes(id)),
                QueryView::FindNode { id, target } => is_text(entry(pairs, "q"@), "find_node"@)
                    && entry(arguments, "id"@) == Some(Benc::Bytes(id)) && entry(
                    arguments,
                    "target"@,
                ) == Some(Benc::Bytes(target)),
                QueryView::GetPeers { id, info_hash } => is_text(
                    entry(pairs, "q"@),
                    "get_peers"@,
                ) && entry(arguments, "id"@) == Some(Benc::Bytes(id)) && entry(
                    arguments,
                    "info_hash"@,
                ) == Some(Benc::Bytes(info_hash)),
                QueryView::AnnouncePeer { id, port, info_hash, token } => {
                    &&& is_text(entry(pairs, "q"@), "announce_peer"@)
                    &&& entry(arguments, "id"@) == Some(Benc::Bytes(id))
                    &&& entry(arguments, "info_hash"@) == Some(Benc::Bytes(info_hash))
                    &&& entry(arguments, "token"@) == Some(Benc::Bytes(token))
                    &&& match port {
                        Some(port) => entry(arguments, "port"@) == Some(Benc::Int(port as int))
                            && entry(arguments, "implied_port"@) is None,
                        None => entry(arguments, "implied_port"@) == Some(Benc::Int(1)) && entry(
                            arguments,
                            "port"@,
                        ) is None,
                    }
                },
            }
        }),
{
    let entries = krpc_entries(KrpcView { transaction_id, dht_message: DhtView::Query(query) });
    let arguments = query_arguments(query);
    lemma_message_names();
    lemma_entry(entries, 0);
    lemma_entry(entries, 1);
    lemma_entry(entries, 2);
    lemma_entry(entries, 3);
    lemma_argument_names();
    lemma_entry(arguments, 0);
    match query {
        QueryView::Ping { .. } => {},
        QueryView::FindNode { .. } => {
            lemma_entry(arguments, 1);
        },
        QueryView::GetPeers { .. } => {
            lemma_entry(arguments, 1);
        },
        QueryView::AnnouncePeer { port, .. } => {
            lemma_entry(arguments, 1);
            lemma_entry(arguments, 2);
            lemma_entry(arguments, 3);
            if port is Some {
                lemma_no_entry(arguments, "implied_port"@);
            } else {
                lemma_no_entry(arguments, "port"@);
            }
        },
    }
}

/// A response has its transaction under `t`, `r` under `y`, and its data under `r`: the
/// sender's id, a token, nodes and peers, those last two in compact form.
pub proof fn response_is_written_by_names(
    transaction_id: Seq<u8>,
    id: Seq<u8>,
    token: Option<Seq<u8>>,
    nodes: Option<Seq<NodeView>>,
    peers: Option<Seq<SocketAddr>>,
)
    ensures
        ({
            let value = krpc_benc(
                KrpcView {
                    transaction_id,
                    dht_message: DhtView::Response { id, token, nodes, peers },
                },
            );
            let pairs = value->Dict_0;
            let data = entry(pairs, "r"@)->0->Dict_0;
            &&& value is Dict
            &&& entry(pairs, "t"@) == Some(Benc::Bytes(transaction_id))
            &&& is_text(entry(pairs, "y"@), "r"@)
            &&& entry(pairs, "r"@) matches Some(Benc::Dict(_))
            &&& entry(data, "id"@) == Some(Benc::Bytes(id))
            &&& token matches Some(token) ==> entry(data, "token"@) == Some(Benc::Bytes(token))
            &&& nodes matches Some(nodes) ==> entry(data, "nodes"@) == Some(
                Benc::Bytes(nodes_bytes(nodes)),
            )
            &&& peers matches Some(peers) ==> entry(data, "values"@) == Some(
                Benc::Bytes(crate::tracker::compact_all(peers)),
            )
        }),
{
    let message = DhtView::Response { id, token, nodes, peers };
    let entries = krpc_entries(KrpcView { transaction_id, dht_message: message });
    let data = response_entries(id, token, nodes, peers);
    lemma_message_names();
    lemma_entry(entries, 0);
    lemma_entry(entries, 1);
    lemma_entry(entries, 2);
    lemma_argument_names();
    lemma_entry(data, 0);
    lemma_entry(data, 1);
    lemma_entry(data, 2);
    lemma_entry(data, 3);
}

/// A refusal has its transaction under `t`, `e` under `y`, and under `e` a list of its code
/// and its text.
pub proof fn refusal_is_written_by_names(transaction_id: Seq<u8>, code: int, error: Seq<char>)
    ensures
        ({
            let value = krpc_benc(
                KrpcView { transaction_id, dht_message: DhtView::Error(code, error) },
            );
            let pairs = value->Dict_0;
            &&& value is Dict
            &&& entry(pairs, "t"@) == Some(Benc::Bytes(transaction_id))
            &&& is_text(entry(pairs, "y"@), "e"@)
            &&& entry(pairs, "e"@) == Some(
                Benc::List(seq![Benc::Int(as_number(code)), Benc::Bytes(encode_utf8(error))]),
            )
        }),
{
    let entries = krpc_entries(
        KrpcView { transaction_id, dht_message: DhtView::Error(code, error) },
    );
    lemma_message_names();
    lemma_entry(entries, 0);
    lemma_entry(entries, 1);
    lemma_entry(entries, 2);
}

/// The data of a response are read by their names: the sender's id, a token, all nodes and
/// all peers, in their order.
pub proof fn response_is_read_by_names(
    data: Seq<(Seq<u8>, Benc)>,
    id: Seq<u8>,
    token: Seq<u8>,
    nodes: Seq<NodeView>,
    peers: Seq<SocketAddr>,
)
    requires
        entry(data, "id"@) == Some(Benc::Bytes(id)),
        entry(data, "token"@) == Some(Benc::Bytes(token)),
        entry(data, "nodes"@) == Some(Benc::Bytes(nodes_bytes(nodes))),
        entry(data, "values"@) == Some(Benc::List(compact_list(peers))),
        forall|j: int| 0 <= j < nodes.len() ==> plain_node(#[trigger] nodes[j]),
        forall|j: int| 0 <= j < peers.len() ==> plain_socket(#[trigger] peers[j]),
    ensures
        response_of(data) == Ok::<DhtView, Seq<char>>(
            DhtView::Response { id, token: Some(token), nodes: Some(nodes), peers: Some(peers) },
        ),
{
    nodes_read_back(nodes);
    sockets_read_back(peers);
}

/// What the bytes of a response come to, if they name the transaction that was sent, is
/// what its data say; nothing comes of it if they name another.
pub proof fn response_answers_its_query(
    pairs: Seq<(Seq<u8>, Benc)>,
    data: Seq<(Seq<u8>, Benc)>,
    transaction_id: Seq<u8>,
    sent: Seq<u8>,
    more: Seq<u8>,
)
    requires
        standardizable(Benc::Dict(pairs)),
        entry(pairs, "t"@) == Some(Benc::Bytes(transaction_id)),
        is_text(entry(pairs, "y"@), "r"@),
        entry(pairs, "r"@) == Some(Benc::Dict(data)),
        response_of(data) is Ok,
    ensures
        transaction_id == sent ==> answered(sent, standard(Benc::Dict(pairs)) + more)
            == response_of(data),
        transaction_id != sent ==> answered(sent, standard(Benc::Dict(pairs)) + more) is Err,
{
    standard_is_read(Benc::Dict(pairs), more);
    lemma_message_names();
    lemma_distinct_bytes("q"@, "r"@);
    assert(krpc_of(Benc::Dict(pairs)) is Ok);
    assert(response_of(data)->Ok_0 is Response);
}

/// A refusal is no answer, whatever transaction it names; nor is anything that names
/// another transaction than was sent.
pub proof fn refusals_are_no_answers(sent: Seq<u8>, answer: KrpcView)
    ensures
        answer.dht_message is Error ==> answer_of(sent, answer) is Err,
        answer.transaction_id != sent ==> answer_of(sent, answer) is Err,
        answer.transaction_id == sent && !(answer.dht_message is Error) ==> answer_of(sent, answer)
            == Ok::<DhtView, Seq<char>>(answer.dht_message),
{
}

/// A query that others send is read by the names of its arguments.
pub proof fn query_is_read_by_names(arguments: Seq<(Seq<u8>, Benc)>, id: Seq<u8>, other: Seq<u8>)
    requires
        entry(arguments, "id"@) == Some(Benc::Bytes(id)),
    ensures
        query_of(arguments, encode_utf8("ping"@)) == Ok::<QueryView, Seq<char>>(
            QueryView::Ping { id },
        ),
        entry(arguments, "target"@) == Some(Benc::Bytes(other)) ==> query_of(
            arguments,
            encode_utf8("find_node"@),
        ) == Ok::<QueryView, Seq<char>>(QueryView::FindNode { id, target: other }),
        entry(arguments, "info_hash"@) == Some(Benc::Bytes(other)) && other.len() == 20 ==> query_of(
            arguments,
            encode_utf8("get_peers"@),
        ) == Ok::<QueryView, Seq<char>>(QueryView::GetPeers { id, info_hash: other }),
{
    assert("ping"@ != "find_node"@ && "ping"@ != "get_peers"@ && "find_node"@ != "get_peers"@) by {
        reveal_strlit("ping");
        reveal_strlit("find_node");
        reveal_strlit("get_peers");
        assert("find_node"@[0] != "get_peers"@[0]);
    }
    lemma_distinct_bytes("ping"@, "find_node"@);
    lemma_distinct_bytes("ping"@, "get_peers"@);
    lemma_distinct_bytes("find_node"@, "get_peers"@);
}

/// An announcement that others send is read by the names of its arguments; the port that it
/// names does not count where it says that it is implied.
pub proof fn announcement_is_read_by_names(
    arguments: Seq<(Seq<u8>, Benc)>,
    id: Seq<u8>,
    port: u16,
    info_hash: Seq<u8>,
    token: Seq<u8>,
)
    requires
        entry(arguments, "id"@) == Some(Benc::Bytes(id)),
        entry(arguments, "port"@) == Some(Benc::Int(port as int)),
        entry(arguments, "info_hash"@) == Some(Benc::Bytes(info_hash)),
        entry(arguments, "token"@) == Some(Benc::Bytes(token)),
        info_hash.len() == 20,
    ensures
        entry(arguments, "implied_port"@) is None ==> query_of(
            arguments,
            encode_utf8("announce_peer"@),
        ) == Ok::<QueryView, Seq<char>>(
            QueryView::AnnouncePeer { id, port: Some(port), info_hash, token },
        ),
        entry(arguments, "implied_port"@) == Some(Benc::Int(1)) ==> query_of(
            arguments,
            encode_utf8("announce_peer"@),
        ) == Ok::<QueryView, Seq<char>>(
            QueryView::AnnouncePeer { id, port: None, info_hash, token },
        ),
{
    assert("ping"@ != "announce_peer"@ && "find_node"@ != "announce_peer"@ && "get_peers"@
        != "announce_peer"@) by {
        reveal_strlit("ping");
        reveal_strlit("find_node");
        reveal_strlit("get_peers");
        reveal_strlit("announce_peer");
        assert("announce_peer"@.len() == 13);
    }
    lemma_distinct_bytes("ping"@, "announce_peer"@);
    lemma_distinct_bytes("find_node"@, "announce_peer"@);
    lemma_distinct_bytes("get_peers"@, "announce_peer"@);
}

/// The nodes to go on to are all those that were named and have not been seen, in their
/// order.
pub proof fn unseen_are_all_new(nodes: Seq<NodeView>, seen: Seq<NodeView>)
    ensures
        unseen(nodes, seen) == nodes.filter(|node: NodeView| !among(seen, node)),
    decreases nodes.len(),
{
    reveal(Seq::filter);
    if nodes.len() > 0 {
        unseen_are_all_new(nodes.drop_last(), seen);
    } else {
        assert(unseen(nodes, seen) =~= nodes);
    }
}

/// All peers and nodes that an answer names are found in it; in anything else there are
/// none.
pub proof fn everything_named_is_found(
    id: Seq<u8>,
    token: Option<Seq<u8>>,
    nodes: Seq<NodeView>,
    peers: Seq<SocketAddr>,
)
    ensures
        found_in(
            Some(DhtView::Response { id, token, nodes: Some(nodes), peers: Some(peers) }),
        ) == (peers, nodes),
        found_in(
            Some(DhtView::Response { id, token, nodes: Some(nodes), peers: None }),
        ) == (Seq::<SocketAddr>::empty(), nodes),
        found_in(
            Some(DhtView::Response { id, token, nodes: None, peers: Some(peers) }),
        ) == (peers, Seq::<NodeView>::empty()),
        found_in(None) == (Seq::<SocketAddr>::empty(), Seq::<NodeView>::empty()),
{
}

/// Nodes with ids are told apart by their ids, wherever they are; others by where they are.
pub proof fn nodes_are_told_apart(a: NodeView, b: NodeView)
    ensures
        a.id is Some && b.id is Some && a.id == b.id ==> same_node(a, b),
        a.id is Some && b.id is Some && a.id != b.id ==> !same_node(a, b),
        a.id is None && a.address == b.address ==> same_node(a, b),
        a.id is None && a.address != b.address ==> !same_node(a, b),
{
}

/// The answer of a node gives all peers that it names, and all nodes that it names and that
/// have not been seen. A node is asked again exactly if it named peers; else it is marked,
/// and no answer leads to it again. No mark is taken away.
pub proof fn crawl_comes_to_an_end(
    seen: Seq<NodeView>,
    node: NodeView,
    reply: Option<DhtView>,
    later: Option<DhtView>,
)
    ensures
        ({
            let step = crawled(seen, node, reply);
            let next = crawled(step.seen, node, later);
            &&& step.peers == found_in(reply).0
            &&& step.nodes == found_in(reply).1.filter(|other: NodeView| !among(seen, other))
            &&& step.keep == (step.peers.len() > 0)
            &&& step.keep || among(step.seen, node)
            &&& forall|other: NodeView| #[trigger] among(seen, other) ==> among(step.seen, other)
            &&& !step.keep ==> !next.nodes.contains(node)
        }),
{
    let step = crawled(seen, node, reply);
    let next = crawled(step.seen, node, later);
    unseen_are_all_new(found_in(reply).1, seen);
    crawl_goes_on_to_unseen(found_in(later).1, step.seen);
    if !step.keep {
        assert(step.seen[seen.len() as int] == node);
        assert(same_node(step.seen[seen.len() as int], node));
    }
    assert forall|other: NodeView| #[trigger] among(seen, other) implies among(
        step.seen,
        other,
    ) by {
        let i = choose|i: int| 0 <= i < seen.len() && same_node(#[trigger] seen[i], other);
        assert(same_node(step.seen[i], other));
    }
}

/// Every domain of a list is a node to start from, in the order of the list.
pub proof fn all_domains_are_asked(domains: Seq<Seq<char>>, i: int)
    requires
        0 <= i < domains.len(),
    ensures
        domain_nodes(domains).len() == domains.len(),
        domain_nodes(domains)[i].address == NodeAddressView::Domain(domains[i]),
        domain_nodes(domains)[i].id is None,
{
}

/// A refusal is read from the last two items of its list: a code and a text.
pub proof fn refusal_is_read(
    pairs: Seq<(Seq<u8>, Benc)>,
    transaction_id: Seq<u8>,
    code: int,
    error: Seq<char>,
)
    requires
        entry(pairs, "t"@) == Some(Benc::Bytes(transaction_id)),
        is_text(entry(pairs, "y"@), "e"@),
        entry(pairs, "e"@) == Some(
            Benc::List(seq![Benc::Int(code), Benc::Bytes(encode_utf8(error))]),
        ),
        0 <= code <= i64::MAX,
        code <= usize::MAX,
        is_plain_text(error),
    ensures
        krpc_of(Benc::Dict(pairs)) == Ok::<KrpcView, Seq<char>>(
            KrpcView { transaction_id, dht_message: DhtView::Error(code, error) },
        ),
{
    lemma_message_names();
    lemma_distinct_bytes("q"@, "e"@);
    lemma_distinct_bytes("r"@, "e"@);
    length_reads_back(code);
    plain_text_shown_as_itself(error);
}

} // verus!
