//! The distributed hash table, in which peers are found without a tracker.

use vstd::prelude::*;
use vstd::slice::slice_subrange;
use vstd::utf8::encode_utf8;

use crate::bencode::{
    dict, dict_view, entry, entry_views, list_value, list_view, Benc, BencodedValue, Dict,
};
use crate::bytes::{escaped, Bytes};
use crate::error::{bterror, outcome, BitTorrentError};
use crate::info::{
    as_number, as_usize, bytes_entry, bytes_in, dict_entry, dict_in, int_entry, int_in, list_entry,
    list_in, number_of, usize_of,
};
use crate::keymap::dict_of;
use crate::net::{socket_of_compact, v4_of_compact, SocketAddr, SocketAddrV4};
use crate::text::{array_of_20, decimal_nat, same_bytes, same_text};
use crate::tracker::compact_all;

pub mod exchange;
pub mod laws;
pub mod messages;

verus! {

/// how long an answer is waited for (milliseconds)
pub const DHT_QUERY_TIMEOUT: u64 = 5_000;

#[derive(Debug)]
pub enum NodeAddress {
    Ip(SocketAddr),
    Domain(String),
}

#[derive(Debug)]
pub struct Node {
    pub id: Option<[u8; 20]>,
    pub address: NodeAddress,
}

#[derive(Debug)]
pub struct KrpcMessage {
    pub transaction_id: Bytes,
    pub dht_message: DhtMessage,
}

#[derive(Debug)]
pub enum DhtMessage {
    Query(Query),
    Response {
        id: Bytes,
        token: Option<Bytes>,
        nodes: Option<Vec<Node>>,
        peers: Option<Vec<SocketAddr>>,
    },
    Error(usize, String),
}

#[derive(Debug)]
pub enum Query {
    Ping { id: Bytes },
    FindNode { id: Bytes, target: Bytes },
    GetPeers { id: Bytes, info_hash: [u8; 20] },
    AnnouncePeer { id: Bytes, port: Option<u16>, info_hash: [u8; 20], token: Bytes },
}

/// What a `NodeAddress` says.
pub enum NodeAddressView {
    Ip(SocketAddr),
    Domain(Seq<char>),
}

/// What a `Node` says.
pub struct NodeView {
    pub id: Option<Seq<u8>>,
    pub address: NodeAddressView,
}

/// What a `KrpcMessage` says.
pub struct KrpcView {
    pub transaction_id: Seq<u8>,
    pub dht_message: DhtView,
}

/// What a `DhtMessage` says.
pub enum DhtView {
    Query(QueryView),
    Response {
        id: Seq<u8>,
        token: Option<Seq<u8>>,
        nodes: Option<Seq<NodeView>>,
        peers: Option<Seq<SocketAddr>>,
    },
    Error(int, Seq<char>),
}

/// What a `Query` says.
pub enum QueryView {
    Ping { id: Seq<u8> },
    FindNode { id: Seq<u8>, target: Seq<u8> },
    GetPeers { id: Seq<u8>, info_hash: Seq<u8> },
    AnnouncePeer { id: Seq<u8>, port: Option<u16>, info_hash: Seq<u8>, token: Seq<u8> },
}

impl View for NodeAddress {
    type V = NodeAddressView;

    open spec fn view(&self) -> NodeAddressView {
        match self {
            NodeAddress::Ip(address) => NodeAddressView::Ip(*address),
            NodeAddress::Domain(domain) => NodeAddressView::Domain(domain@),
        }
    }
}

impl View for Node {
    type V = NodeView;

    open spec fn view(&self) -> NodeView {
        NodeView {
            id: match self.id {
                Some(id) => Some(id@),
                None => None,
            },
            address: self.address@,
        }
    }
}

/// What nodes say.
pub open spec fn nodes_view(nodes: Seq<Node>) -> Seq<NodeView> {
    nodes.map_values(|node: Node| node@)
}

impl View for Query {
    type V = QueryView;

    open spec fn view(&self) -> QueryView {
        match self {
            Query::Ping { id } => QueryView::Ping { id: id@ },
            Query::FindNode { id, target } => QueryView::FindNode { id: id@, target: target@ },
            Query::GetPeers { id, info_hash } => QueryView::GetPeers {
                id: id@,
                info_hash: info_hash@,
            },
            Query::AnnouncePeer { id, port, info_hash, token } => QueryView::AnnouncePeer {
                id: id@,
                port: *port,
                info_hash: info_hash@,
                token: token@,
            },
        }
    }
}

impl View for DhtMessage {
    type V = DhtView;

    open spec fn view(&self) -> DhtView {
        match self {
            DhtMessage::Query(query) => DhtView::Query(query@),
            DhtMessage::Response { id, token, nodes, peers } => DhtView::Response {
                id: id@,
                token: match token {
                    Some(token) => Some(token@),
                    None => None,
                },
                nodes: match nodes {
                    Some(nodes) => Some(nodes_view(nodes@)),
                    None => None,
                },
                peers: match peers {
                    Some(peers) => Some(peers@),
                    None => None,
                },
            },
            DhtMessage::Error(code, error) => DhtView::Error(*code as int, error@),
        }
    }
}

impl View for KrpcMessage {
    type V = KrpcView;

    open spec fn view(&self) -> KrpcView {
        KrpcView { transaction_id: self.transaction_id@, dht_message: self.dht_message@ }
    }
}

impl Clone for NodeAddress {
    fn clone(&self) -> (copy: Self)
        ensures
            copy@ == self@,
    {
        match self {
            NodeAddress::Ip(address) => NodeAddress::Ip(*address),
            NodeAddress::Domain(domain) => NodeAddress::Domain(domain.clone()),
        }
    }
}

impl Clone for Node {
    fn clone(&self) -> (copy: Self)
        ensures
            copy@ == self@,
    {
        Node { id: self.id, address: self.address.clone() }
    }
}

/// An address in bytes: the compact form of a socket address, or the text of a domain.
pub open spec fn address_bytes(address: NodeAddressView) -> Seq<u8> {
    match address {
        NodeAddressView::Ip(address) => address.compact(),
        NodeAddressView::Domain(domain) => encode_utf8(domain),
    }
}

/// Whether two nodes are the same: by their ids if both have one, else by their
/// addresses.
pub open spec fn same_node(a: NodeView, b: NodeView) -> bool {
    match (a.id, b.id) {
        (Some(a), Some(b)) => a == b,
        _ => a.address == b.address,
    }
}

impl NodeAddress {
    /// The address in bytes.
    pub fn to_bytes(&self) -> (bytes: Bytes)
        ensures
            bytes@ == address_bytes(self@),
    {
        match self {
            NodeAddress::Ip(address) => Bytes::from_socket_addr(*address),
            NodeAddress::Domain(domain) => Bytes::from_text(domain.as_str()),
        }
    }

    fn is_same(&self, other: &NodeAddress) -> (same: bool)
        ensures
            same == (self@ == other@),
    {
        match (self, other) {
            (NodeAddress::Ip(a), NodeAddress::Ip(b)) => *a == *b,
            (NodeAddress::Domain(a), NodeAddress::Domain(b)) => same_text(a.as_str(), b.as_str()),
            _ => false,
        }
    }
}

impl Node {
    /// Whether two nodes are the same.
    pub fn is_same(&self, other: &Node) -> (same: bool)
        ensures
            same == same_node(self@, other@),
    {
        match (&self.id, &other.id) {
            (Some(a), Some(b)) => same_bytes(a.as_slice(), b.as_slice()),
            _ => self.address.is_same(&other.address),
        }
    }
}

/// The nodes that bytes hold: an id and an IPv4 address in compact form for each.
pub open spec fn nodes_of(bytes: Seq<u8>) -> Seq<NodeView> {
    Seq::new(
        bytes.len() / 26,
        |i: int|
            NodeView {
                id: Some(bytes.subrange(26 * i, 26 * i + 20)),
                address: NodeAddressView::Ip(
                    SocketAddr::V4(v4_of_compact(bytes.subrange(26 * i + 20, 26 * i + 26))),
                ),
            },
    )
}

/// A node with an id in bytes.
pub open spec fn node_bytes(node: NodeView) -> Seq<u8> {
    node.id->0 + address_bytes(node.address)
}

/// Nodes with ids in bytes.
pub open spec fn nodes_bytes(nodes: Seq<NodeView>) -> Seq<u8>
    decreases nodes.len(),
{
    if nodes.len() == 0 {
        seq![]
    } else {
        nodes_bytes(nodes.drop_last()) + node_bytes(nodes.last())
    }
}

/// Whether every node has an id.
pub open spec fn all_have_ids(nodes: Seq<NodeView>) -> bool {
    forall|i: int| 0 <= i < nodes.len() ==> (#[trigger] nodes[i]).id is Some
}

/// The nodes that bytes hold.
pub fn read_nodes(bytes: &[u8]) -> (nodes: Vec<Node>)
    requires
        bytes@.len() % 26 == 0,
    ensures
        nodes_view(nodes@) == nodes_of(bytes@),
{
    let mut out: Vec<Node> = Vec::new();
    let len: usize = bytes.len();
    let mut at: usize = 0;
    while at < len
        invariant
            at <= len,
            len == bytes@.len(),
            len % 26 == 0,
            at % 26 == 0,
            out@.len() == at / 26,
            forall|i: int| 0 <= i < at / 26 ==> (#[trigger] out@[i])@ == nodes_of(bytes@)[i],
        decreases len - at,
    {
        let id = slice_subrange(bytes, at, at + 20);
        let address = slice_subrange(bytes, at + 20, at + 26);
        assert(26 * (at / 26) == at);
        match array_of_20(id) {
            Ok(id) => {
                let node = Node {
                    id: Some(id),
                    address: NodeAddress::Ip(SocketAddr::V4(SocketAddrV4::from_bytes(address))),
                };
                assert(node@ == nodes_of(bytes@)[at as int / 26]);
                out.push(node);
            },
            Err(_) => {
                assert(false);
            },
        }
        at = at + 26;
    }
    assert(nodes_view(out@) =~= nodes_of(bytes@));
    out
}

/// Nodes with ids in bytes.
pub fn write_nodes(nodes: &Vec<Node>) -> (bytes: Bytes)
    requires
        all_have_ids(nodes_view(nodes@)),
    ensures
        bytes@ == nodes_bytes(nodes_view(nodes@)),
{
    let mut out: Vec<u8> = Vec::new();
    let ghost views = nodes_view(nodes@);
    let mut i: usize = 0;
    assert(out@ =~= nodes_bytes(views.take(0)));
    while i < nodes.len()
        invariant
            0 <= i <= nodes.len(),
            views == nodes_view(nodes@),
            all_have_ids(views),
            out@ == nodes_bytes(views.take(i as int)),
        decreases nodes.len() - i,
    {
        let ghost before = out@;
        assert(views[i as int] == nodes@[i as int]@);
        assert(views[i as int].id is Some);
        if let Some(id) = &nodes[i].id {
            out.extend_from_slice(id.as_slice());
        }
        let mut address = nodes[i].address.to_bytes().into_inner();
        out.append(&mut address);
        assert(views.take(i + 1).drop_last() =~= views.take(i as int));
        assert(out@ =~= before + node_bytes(views[i as int]));
        i = i + 1;
    }
    assert(views.take(i as int) =~= views);
    Bytes(out)
}

pub open spec fn text_bytes(text: Seq<char>) -> Benc {
    Benc::Bytes(encode_utf8(text))
}

/// The name of a query.
pub open spec fn query_name(query: QueryView) -> Seq<char> {
    match query {
        QueryView::Ping { .. } => "ping"@,
        QueryView::FindNode { .. } => "find_node"@,
        QueryView::GetPeers { .. } => "get_peers"@,
        QueryView::AnnouncePeer { .. } => "announce_peer"@,
    }
}

/// The arguments of a query.
pub open spec fn query_arguments(query: QueryView) -> Seq<(Seq<char>, Benc)> {
    match query {
        QueryView::Ping { id } => seq![("id"@, Benc::Bytes(id))],
        QueryView::FindNode { id, target } => seq![
            ("id"@, Benc::Bytes(id)),
            ("target"@, Benc::Bytes(target)),
        ],
        QueryView::GetPeers { id, info_hash } => seq![
            ("id"@, Benc::Bytes(id)),
            ("info_hash"@, Benc::Bytes(info_hash)),
        ],
        QueryView::AnnouncePeer { id, port, info_hash, token } => seq![
            ("id"@, Benc::Bytes(id)),
            match port {
                Some(port) => ("port"@, Benc::Int(port as int)),
                None => ("implied_port"@, Benc::Int(1)),
            },
            ("info_hash"@, Benc::Bytes(info_hash)),
            ("token"@, Benc::Bytes(token)),
        ],
    }
}

pub open spec fn some_bytes(bytes: Option<Seq<u8>>) -> Benc {
    match bytes {
        Some(bytes) => Benc::Bytes(bytes),
        None => Benc::Null,
    }
}

/// The data of a response.
pub open spec fn response_entries(
    id: Seq<u8>,
    token: Option<Seq<u8>>,
    nodes: Option<Seq<NodeView>>,
    peers: Option<Seq<SocketAddr>>,
) -> Seq<(Seq<char>, Benc)> {
    seq![
        ("id"@, Benc::Bytes(id)),
        ("token"@, some_bytes(token)),
        (
            "nodes"@,
            match nodes {
                Some(nodes) => Benc::Bytes(nodes_bytes(nodes)),
                None => Benc::Null,
            },
        ),
        (
            "values"@,
            match peers {
                Some(peers) => Benc::Bytes(compact_all(peers)),
                None => Benc::Null,
            },
        ),
    ]
}

/// The entries of a message.
pub open spec fn krpc_entries(message: KrpcView) -> Seq<(Seq<char>, Benc)> {
    let transaction = ("t"@, Benc::Bytes(message.transaction_id));
    match message.dht_message {
        DhtView::Query(query) => seq![
            transaction,
            ("y"@, text_bytes("q"@)),
            ("q"@, text_bytes(query_name(query))),
            ("a"@, Benc::Dict(dict_of(query_arguments(query)))),
        ],
        DhtView::Response { id, token, nodes, peers } => seq![
            transaction,
            ("y"@, text_bytes("r"@)),
            ("r"@, Benc::Dict(dict_of(response_entries(id, token, nodes, peers)))),
        ],
        DhtView::Error(code, error) => seq![
            transaction,
            ("y"@, text_bytes("e"@)),
            ("e"@, Benc::List(seq![Benc::Int(as_number(code)), text_bytes(error)])),
        ],
    }
}

/// A message as a bencoded value.
pub open spec fn krpc_benc(message: KrpcView) -> Benc {
    Benc::Dict(dict_of(krpc_entries(message)))
}

/// Whether the nodes of a message, if it has any, have ids.
pub open spec fn writable(message: DhtView) -> bool {
    message matches DhtView::Response { nodes: Some(nodes), .. } ==> all_have_ids(nodes)
}

fn bytes_value(text: &str) -> (value: BencodedValue)
    ensures
        value@ == text_bytes(text@),
{
    BencodedValue::Bytes(Bytes::from_text(text))
}

fn hash_value(hash: &[u8; 20]) -> (value: BencodedValue)
    ensures
        value@ == Benc::Bytes(hash@),
{
    BencodedValue::Bytes(Bytes::from_slice(hash.as_slice()))
}

fn some_bytes_value(bytes: &Option<Bytes>) -> (value: BencodedValue)
    ensures
        value@ == some_bytes(
            match bytes {
                Some(bytes) => Some(bytes@),
                None => None,
            },
        ),
{
    match bytes {
        Some(bytes) => BencodedValue::Bytes(bytes.clone()),
        None => BencodedValue::Null,
    }
}

impl Query {
    fn name(&self) -> (name: &str)
        ensures
            name@ == query_name(self@),
    {
        match self {
            Query::Ping { .. } => "ping",
            Query::FindNode { .. } => "find_node",
            Query::GetPeers { .. } => "get_peers",
            Query::AnnouncePeer { .. } => "announce_peer",
        }
    }

    fn arguments(&self) -> (value: BencodedValue)
        ensures
            value@ == Benc::Dict(dict_of(query_arguments(self@))),
    {
        let entries = match self {
            Query::Ping { id } => vec![("id", BencodedValue::Bytes(id.clone()))],
            Query::FindNode { id, target } => vec![
                ("id", BencodedValue::Bytes(id.clone())),
                ("target", BencodedValue::Bytes(target.clone())),
            ],
            Query::GetPeers { id, info_hash } => vec![
                ("id", BencodedValue::Bytes(id.clone())),
                ("info_hash", hash_value(info_hash)),
            ],
            Query::AnnouncePeer { id, port, info_hash, token } => {
                let (key, value): (&str, i64) = match port {
                    Some(port) => ("port", *port as i64),
                    None => ("implied_port", 1),
                };
                vec![
                    ("id", BencodedValue::Bytes(id.clone())),
                    (key, BencodedValue::Int(value)),
                    ("info_hash", hash_value(info_hash)),
                    ("token", BencodedValue::Bytes(token.clone())),
                ]
            },
        };
        assert(entry_views(entries@) =~= query_arguments(self@));
        dict(entries)
    }
}

/// Addresses in compact form.
fn write_peers(peers: &Vec<SocketAddr>) -> (bytes: Bytes)
    ensures
        bytes@ == compact_all(peers@),
{
    let mut out: Vec<u8> = Vec::new();
    let mut i: usize = 0;
    assert(out@ =~= compact_all(peers@.take(0)));
    while i < peers.len()
        invariant
            0 <= i <= peers.len(),
            out@ == compact_all(peers@.take(i as int)),
        decreases peers.len() - i,
    {
        let mut bytes = Bytes::from_socket_addr(peers[i]).into_inner();
        out.append(&mut bytes);
        assert(peers@.take(i + 1).drop_last() =~= peers@.take(i as int));
        i = i + 1;
    }
    assert(peers@.take(i as int) =~= peers@);
    Bytes(out)
}

impl KrpcMessage {
    /// The message as a bencoded value.
    pub fn to_bencoded(&self) -> (value: BencodedValue)
        requires
            writable(self@.dht_message),
        ensures
            value@ == krpc_benc(self@),
    {
        let transaction = BencodedValue::Bytes(self.transaction_id.clone());
        let entries = match &self.dht_message {
            DhtMessage::Query(query) => vec![
                ("t", transaction),
                ("y", bytes_value("q")),
                ("q", bytes_value(query.name())),
                ("a", query.arguments()),
            ],
            DhtMessage::Response { id, token, nodes, peers } => {
                let nodes_value = match nodes {
                    Some(nodes) => BencodedValue::Bytes(write_nodes(nodes)),
                    None => BencodedValue::Null,
                };
                let peers_value = match peers {
                    Some(peers) => BencodedValue::Bytes(write_peers(peers)),
                    None => BencodedValue::Null,
                };
                let response = vec![
                    ("id", BencodedValue::Bytes(id.clone())),
                    ("token", some_bytes_value(token)),
                    ("nodes", nodes_value),
                    ("values", peers_value),
                ];
                proof {
                    if let DhtView::Response { id, token, nodes, peers } = self@.dht_message {
                        assert(entry_views(response@) =~= response_entries(
                            id,
                            token,
                            nodes,
                            peers,
                        ));
                    }
                }
                vec![("t", transaction), ("y", bytes_value("r")), ("r", dict(response))]
            },
            DhtMessage::Error(code, error) => {
                let items = vec![
                    BencodedValue::Int(number_of(*code)),
                    bytes_value(error.as_str()),
                ];
                assert(list_view(items@) =~= seq![
                    Benc::Int(as_number(*code as int)),
                    text_bytes(error@),
                ]);
                vec![("t", transaction), ("y", bytes_value("e")), ("e", list_value(items))]
            },
        };
        assert(entry_views(entries@) =~= krpc_entries(self@));
        dict(entries)
    }
}

/// The hash of twenty bytes under a key.
pub open spec fn hash_in(value: Option<Benc>) -> Option<Seq<u8>> {
    match bytes_in(value) {
        Some(bytes) if bytes.len() == 20 => Some(bytes),
        _ => None,
    }
}

/// A query, given its arguments and its name.
pub open spec fn query_of(arguments: Seq<(Seq<u8>, Benc)>, name: Seq<u8>) -> Result<
    QueryView,
    Seq<char>,
> {
    let id = bytes_in(entry(arguments, "id"@));
    let target = bytes_in(entry(arguments, "target"@));
    let info_hash = hash_in(entry(arguments, "info_hash"@));
    let implied_port = int_in(entry(arguments, "implied_port"@)) == Some(1int);
    let port = int_in(entry(arguments, "port"@));
    let token = bytes_in(entry(arguments, "token"@));
    if name == encode_utf8("ping"@) {
        match id {
            None => Err("Invalid KRPC message: missing id"@),
            Some(id) => Ok(QueryView::Ping { id }),
        }
    } else if name == encode_utf8("find_node"@) {
        match (id, target) {
            (None, _) => Err("Invalid KRPC message: missing id"@),
            (_, None) => Err("Invalid KRPC message: missing target"@),
            (Some(id), Some(target)) => Ok(QueryView::FindNode { id, target }),
        }
    } else if name == encode_utf8("get_peers"@) {
        match (id, info_hash) {
            (None, _) => Err("Invalid KRPC message: missing id"@),
            (_, None) => Err("Invalid KRPC message: missing info_hash"@),
            (Some(id), Some(info_hash)) => Ok(QueryView::GetPeers { id, info_hash }),
        }
    } else if name == encode_utf8("announce_peer"@) {
        if id is None {
            Err("Invalid KRPC message: missing id"@)
        } else if !implied_port && port is None {
            Err("Invalid KRPC message: missing port"@)
        } else if info_hash is None {
            Err("Invalid KRPC message: missing info_hash"@)
        } else if token is None {
            Err("Invalid KRPC message: missing token"@)
        } else {
            Ok(
                QueryView::AnnouncePeer {
                    id: id->0,
                    port: if implied_port {
                        None
                    } else {
                        Some((port->0 % 0x1_0000) as u16)
                    },
                    info_hash: info_hash->0,
                    token: token->0,
                },
            )
        }
    } else {
        Err("Invalid KRPC message: invalid query type"@)
    }
}

/// The addresses that the byte strings of a list hold in compact form; its other items
/// are passed over, and the first byte string that holds none is an error.
pub open spec fn sockets_of(items: Seq<Benc>) -> Result<Seq<SocketAddr>, Seq<char>>
    decreases items.len(),
{
    if items.len() == 0 {
        Ok(seq![])
    } else {
        match sockets_of(items.drop_last()) {
            Err(complaint) => Err(complaint),
            Ok(sockets) => match items.last() {
                Benc::Bytes(bytes) => match socket_of_compact(bytes) {
                    Some(socket) => Ok(sockets.push(socket)),
                    None => Err("Invalid socket address: "@ + decimal_nat(bytes.len())),
                },
                _ => Ok(sockets),
            },
        }
    }
}

/// The data of a response.
pub open spec fn response_of(response: Seq<(Seq<u8>, Benc)>) -> Result<DhtView, Seq<char>> {
    match bytes_in(entry(response, "id"@)) {
        None => Err("Missing id"@),
        Some(id) => {
            let token = bytes_in(entry(response, "token"@));
            let nodes = match bytes_in(entry(response, "nodes"@)) {
                Some(bytes) => Some(nodes_of(bytes)),
                None => None,
            };
            match list_in(entry(response, "values"@)) {
                None => Ok(DhtView::Response { id, token, nodes, peers: None }),
                Some(items) => match sockets_of(items) {
                    Err(complaint) => Err(complaint),
                    Ok(peers) => Ok(DhtView::Response { id, token, nodes, peers: Some(peers) }),
                },
            }
        },
    }
}

/// The data of an error: the last item of a list is its message, the one before it its
/// code.
pub open spec fn error_of(items: Seq<Benc>) -> Result<DhtView, Seq<char>> {
    if items.len() == 0 || !(items.last() is Bytes) {
        Err("Invalid KRPC message: missing error message"@)
    } else if items.len() == 1 || !(items[items.len() - 2] is Int) {
        Err("Invalid KRPC message: missing error code"@)
    } else {
        Ok(
            DhtView::Error(
                as_usize(items[items.len() - 2]->Int_0),
                escaped(items.last()->Bytes_0),
            ),
        )
    }
}

/// What is asked, answered or refused by a message.
pub open spec fn dht_of(message: Seq<(Seq<u8>, Benc)>) -> Result<DhtView, Seq<char>> {
    match bytes_in(entry(message, "y"@)) {
        None => Err("Invalid KRPC message: missing message type"@),
        Some(kind) => if kind == encode_utf8("q"@) {
            match dict_in(entry(message, "a"@)) {
                None => Err("Invalid KRPC message: missing query arguments"@),
                Some(arguments) => match bytes_in(entry(message, "q"@)) {
                    None => Err("Invalid KRPC message: missing query type"@),
                    Some(name) => match query_of(arguments, name) {
                        Err(complaint) => Err(complaint),
                        Ok(query) => Ok(DhtView::Query(query)),
                    },
                },
            }
        } else if kind == encode_utf8("r"@) {
            match dict_in(entry(message, "r"@)) {
                None => Err("Invalid KRPC message: missing response data"@),
                Some(response) => response_of(response),
            }
        } else if kind == encode_utf8("e"@) {
            match list_in(entry(message, "e"@)) {
                None => Err("Invalid KRPC message: missing error data"@),
                Some(items) => error_of(items),
            }
        } else {
            Err("Invalid KRPC message: invalid message type"@)
        },
    }
}

/// What a message says.
pub open spec fn krpc_of(value: Benc) -> Result<KrpcView, Seq<char>> {
    match value {
        Benc::Dict(message) => match bytes_in(entry(message, "t"@)) {
            None => Err("Invalid KRPC message: missing transaction id"@),
            Some(transaction_id) => match dht_of(message) {
                Err(complaint) => Err(complaint),
                Ok(dht_message) => Ok(KrpcView { transaction_id, dht_message }),
            },
        },
        _ => Err("Invalid KRPC message"@),
    }
}

/// Whether the nodes in the data of a response, if they are looked at, are whole.
pub open spec fn whole_nodes_in(response: Seq<(Seq<u8>, Benc)>) -> bool {
    bytes_in(entry(response, "id"@)) is Some && bytes_in(entry(response, "nodes"@)) is Some
        ==> bytes_in(entry(response, "nodes"@))->0.len() % 26 == 0
}

/// Whether the nodes of a message, if they are looked at, are whole.
pub open spec fn whole_nodes(value: Benc) -> bool {
    match value {
        Benc::Dict(message) => (bytes_in(entry(message, "t"@)) is Some && bytes_in(
            entry(message, "y"@),
        ) == Some(encode_utf8("r"@)) && dict_in(entry(message, "r"@)) is Some) ==> whole_nodes_in(
            dict_in(entry(message, "r"@))->0,
        ),
        _ => true,
    }
}

fn is_text(bytes: &Bytes, text: &str) -> (same: bool)
    ensures
        same == (bytes@ == encode_utf8(text@)),
{
    same_bytes(bytes.0.as_slice(), text.as_bytes())
}

fn read_hash(dict: &Dict, key: &str) -> (hash: Option<[u8; 20]>)
    ensures
        match hash {
            Some(hash) => hash_in(entry(dict_view(*dict), key@)) == Some(hash@),
            None => hash_in(entry(dict_view(*dict), key@)) is None,
        },
{
    match bytes_entry(dict, key) {
        Some(bytes) => match array_of_20(bytes.0.as_slice()) {
            Ok(hash) => Some(hash),
            Err(_) => None,
        },
        None => None,
    }
}

/// A number as the `u16` with the same low bits.
fn low_u16(n: i64) -> (low: u16)
    ensures
        low == n as int % 0x1_0000,
{
    let wide: i128 = n as i128 + 0x1_0000_0000_0000_0000;
    (wide % 0x1_0000) as u16
}

fn read_query(arguments: &Dict, name: &Bytes) -> (result: Result<Query, BitTorrentError>)
    ensures
        outcome(result) == query_of(dict_view(*arguments), name@),
{
    let id = bytes_entry(arguments, "id");
    let target = bytes_entry(arguments, "target");
    let info_hash = read_hash(arguments, "info_hash");
    let implied_port = match int_entry(arguments, "implied_port") {
        Some(n) => n == 1,
        None => false,
    };
    let port = int_entry(arguments, "port");
    let token = bytes_entry(arguments, "token");
    if is_text(name, "ping") {
        match id {
            None => Err(bterror("Invalid KRPC message: missing id")),
            Some(id) => Ok(Query::Ping { id: id.clone() }),
        }
    } else if is_text(name, "find_node") {
        match (id, target) {
            (None, _) => Err(bterror("Invalid KRPC message: missing id")),
            (_, None) => Err(bterror("Invalid KRPC message: missing target")),
            (Some(id), Some(target)) => Ok(
                Query::FindNode { id: id.clone(), target: target.clone() },
            ),
        }
    } else if is_text(name, "get_peers") {
        match (id, info_hash) {
            (None, _) => Err(bterror("Invalid KRPC message: missing id")),
            (_, None) => Err(bterror("Invalid KRPC message: missing info_hash")),
            (Some(id), Some(info_hash)) => Ok(Query::GetPeers { id: id.clone(), info_hash }),
        }
    } else if is_text(name, "announce_peer") {
        let id = match id {
            None => return Err(bterror("Invalid KRPC message: missing id")),
            Some(id) => id,
        };
        let port: Option<u16> = if implied_port {
            None
        } else {
            match port {
                None => return Err(bterror("Invalid KRPC message: missing port")),
                Some(port) => Some(low_u16(port)),
            }
        };
        let info_hash = match info_hash {
            None => return Err(bterror("Invalid KRPC message: missing info_hash")),
            Some(info_hash) => info_hash,
        };
        let token = match token {
            None => return Err(bterror("Invalid KRPC message: missing token")),
            Some(token) => token,
        };
        Ok(Query::AnnouncePeer { id: id.clone(), port, info_hash, token: token.clone() })
    } else {
        Err(bterror("Invalid KRPC message: invalid query type"))
    }
}

proof fn lemma_sockets_error_stays(items: Seq<Benc>, n: int, m: int)
    requires
        0 <= n <= m <= items.len(),
        sockets_of(items.take(n)) is Err,
    ensures
        sockets_of(items.take(m)) == sockets_of(items.take(n)),
    decreases m,
{
    if n < m {
        lemma_sockets_error_stays(items, n, m - 1);
        assert(items.take(m).drop_last() =~= items.take(m - 1));
    }
}

fn read_sockets(items: &Vec<BencodedValue>) -> (result: Result<Vec<SocketAddr>, BitTorrentError>)
    ensures
        match result {
            Ok(sockets) => sockets_of(list_view(items@)) == Ok::<Seq<SocketAddr>, Seq<char>>(
                sockets@,
            ),
            Err(error) => sockets_of(list_view(items@)) == Err::<Seq<SocketAddr>, Seq<char>>(
                error@,
            ),
        },
{
    let ghost views = list_view(items@);
    let mut out: Vec<SocketAddr> = Vec::new();
    let mut i: usize = 0;
    assert(views.take(0) =~= seq![]);
    while i < items.len()
        invariant
            0 <= i <= items.len(),
            views == list_view(items@),
            sockets_of(views.take(i as int)) == Ok::<Seq<SocketAddr>, Seq<char>>(out@),
        decreases items.len() - i,
    {
        assert(views[i as int] == items@[i as int]@);
        assert(views.take(i + 1).drop_last() =~= views.take(i as int));
        assert(views.take(i + 1).last() == views[i as int]);
        if let Some(bytes) = items[i].as_bytes() {
            match SocketAddr::from_bytes(bytes.0.as_slice()) {
                Ok(socket) => {
                    out.push(socket);
                },
                Err(error) => {
                    proof {
                        lemma_sockets_error_stays(views, i + 1, views.len() as int);
                        assert(views.take(views.len() as int) =~= views);
                    }
                    return Err(error);
                },
            }
        }
        i = i + 1;
    }
    assert(views.take(i as int) =~= views);
    Ok(out)
}

fn read_response(response: &Dict) -> (result: Result<DhtMessage, BitTorrentError>)
    requires
        whole_nodes_in(dict_view(*response)),
    ensures
        outcome(result) == response_of(dict_view(*response)),
{
    let id = match bytes_entry(response, "id") {
        None => return Err(bterror("Missing id")),
        Some(id) => id.clone(),
    };
    let token = match bytes_entry(response, "token") {
        Some(token) => Some(token.clone()),
        None => None,
    };
    let nodes = match bytes_entry(response, "nodes") {
        Some(bytes) => Some(read_nodes(bytes.0.as_slice())),
        None => None,
    };
    let peers = match list_entry(response, "values") {
        Some(items) => match read_sockets(items) {
            Ok(peers) => Some(peers),
            Err(error) => return Err(error),
        },
        None => None,
    };
    Ok(DhtMessage::Response { id, token, nodes, peers })
}

fn read_error(items: &Vec<BencodedValue>) -> (result: Result<DhtMessage, BitTorrentError>)
    ensures
        outcome(result) == error_of(list_view(items@)),
{
    let n: usize = items.len();
    if n == 0 {
        return Err(bterror("Invalid KRPC message: missing error message"));
    }
    assert(list_view(items@).last() == items@[n - 1]@);
    let message = match items[n - 1].as_bytes() {
        Some(bytes) => bytes.to_string(),
        None => return Err(bterror("Invalid KRPC message: missing error message")),
    };
    if n == 1 {
        return Err(bterror("Invalid KRPC message: missing error code"));
    }
    assert(list_view(items@)[n - 2] == items@[n - 2]@);
    match items[n - 2].as_int() {
        Some(code) => Ok(DhtMessage::Error(usize_of(*code), message)),
        None => Err(bterror("Invalid KRPC message: missing error code")),
    }
}

impl KrpcMessage {
    /// Read a message.
    pub fn from_bencoded(value: &BencodedValue) -> (result: Result<Self, BitTorrentError>)
        requires
            whole_nodes(value@),
        ensures
            outcome(result) == krpc_of(value@),
    {
        let message = match value.as_dict() {
            Some(message) => message,
            None => return Err(bterror("Invalid KRPC message")),
        };
        let transaction_id = match bytes_entry(message, "t") {
            Some(transaction_id) => transaction_id.clone(),
            None => return Err(bterror("Invalid KRPC message: missing transaction id")),
        };
        let kind = match bytes_entry(message, "y") {
            Some(kind) => kind,
            None => return Err(bterror("Invalid KRPC message: missing message type")),
        };
        let dht_message = if is_text(kind, "q") {
            match dict_entry(message, "a") {
                None => Err(bterror("Invalid KRPC message: missing query arguments")),
                Some(arguments) => match bytes_entry(message, "q") {
                    None => Err(bterror("Invalid KRPC message: missing query type")),
                    Some(name) => match read_query(arguments, name) {
                        Ok(query) => Ok(DhtMessage::Query(query)),
                        Err(error) => Err(error),
                    },
                },
            }
        } else if is_text(kind, "r") {
            match dict_entry(message, "r") {
                None => Err(bterror("Invalid KRPC message: missing response data")),
                Some(response) => read_response(response),
            }
        } else if is_text(kind, "e") {
            match list_entry(message, "e") {
                None => Err(bterror("Invalid KRPC message: missing error data")),
                Some(items) => read_error(items),
            }
        } else {
            Err(bterror("Invalid KRPC message: invalid message type"))
        };
        match dht_message {
            Ok(dht_message) => Ok(KrpcMessage { transaction_id, dht_message }),
            Err(error) => Err(error),
        }
    }

    /// Whether the nodes of a message, if they are looked at, are whole.
    pub fn has_whole_nodes(value: &BencodedValue) -> (whole: bool)
        ensures
            whole == whole_nodes(value@),
    {
        match value.as_dict() {
            None => true,
            Some(message) => {
                let is_response = match bytes_entry(message, "y") {
                    Some(kind) => is_text(kind, "r"),
                    None => false,
                };
                if bytes_entry(message, "t").is_none() || !is_response {
                    true
                } else {
                    match dict_entry(message, "r") {
                        Some(response) => match bytes_entry(response, "nodes") {
                            Some(nodes) => bytes_entry(response, "id").is_none() || nodes.0.len()
                                % 26 == 0,
                            None => true,
                        },
                        None => true,
                    }
                }
            },
        }
    }
}

} // verus!
