use std::collections::VecDeque;

use bittorrent::bencode::BencodedValue;
use bittorrent::bytes::Bytes;
use bittorrent::handshake;
use bittorrent::info::{FileInfo, Info, MetaInfo};
use bittorrent::magnet::Magnet;
use bittorrent::multimodal_tracker;
use bittorrent::multithread::{Semaphore, SyncDoor};
use bittorrent::net::{Ipv4Addr, Ipv6Addr, SocketAddr, SocketAddrV4, SocketAddrV6};
use bittorrent::peer::message::Codec;
use bittorrent::pool::{PoolMap, PoolResult, PoolStep};
use bittorrent::torrent_source::TorrentSource;
use bittorrent::tracker::dht::exchange::{
    begin_exchange, bootstrap_nodes, check_answer, crawl_step, encode_request, finish_exchange,
    peers_query, read_bootstrap_nodes, try_finish_exchange,
};
use bittorrent::tracker::dht::{
    read_nodes, write_nodes, DhtMessage, KrpcMessage, Node, NodeAddress, Query,
};
use bittorrent::tracker::multimodal::{
    encode_connect, http_query, next_tracker, read_http_answer, try_read_http_answer, PeerQueue,
    TrackerAddress, UdpTrackerConnection,
};
use bittorrent::tracker::TrackerResponse;
use bittorrent::util::{querystring_encode, sha1_hash};

fn socket(n: u32, port: u16) -> SocketAddr {
    SocketAddr::V4(SocketAddrV4 {
        ip: Ipv4Addr { bits: n },
        port,
    })
}

fn magnet() -> TorrentSource {
    TorrentSource::Magnet(Magnet {
        xt: [0xab; 20],
        dn: None,
        tr: vec![],
        xpe: vec![],
    })
}

fn file() -> MetaInfo {
    MetaInfo {
        announce_list: vec![],
        info: Info {
            name: "n".to_string(),
            piece_length: 1,
            pieces: vec![],
            file_info: FileInfo::Length(77),
        },
    }
}

fn parse(bytes: &[u8]) -> BencodedValue {
    let mut rest = bytes;
    BencodedValue::ingest(&mut rest).unwrap()
}

fn address_error(url: &str) -> String {
    TrackerAddress::new(url.to_string()).unwrap_err().details()
}

fn krpc_error(text: &str) -> String {
    KrpcMessage::from_bencoded(&parse(text.as_bytes())).unwrap_err().details()
}

fn krpc_shown_again(message: DhtMessage) {
    let krpc = KrpcMessage {
        transaction_id: Bytes::from_text("tx"),
        dht_message: message,
    };
    let value = krpc.to_bencoded();
    assert!(KrpcMessage::has_whole_nodes(&value));
    let read = KrpcMessage::from_bencoded(&value).unwrap();
    assert_eq!(format!("{:?}", read), format!("{:?}", krpc));
}

fn ip_node(id: u8, n: u32) -> Node {
    Node {
        id: Some([id; 20]),
        address: NodeAddress::Ip(socket(n, 1)),
    }
}

#[test]
fn peers_of_a_tracker_read_back() {
    let peers = vec![socket(0x0102_0304, 80), socket(5, 6)];
    let bytes = peers.encode().unwrap();
    assert_eq!(bytes, vec![1, 2, 3, 4, 0, 80, 0, 0, 0, 5, 0, 6]);
    assert_eq!(<Vec<SocketAddr>>::decode(&bytes).unwrap(), peers);
    let v6 = vec![SocketAddr::V6(SocketAddrV6 {
        ip: Ipv6Addr { bits: 1 },
        port: 2,
        flowinfo: 0,
        scope_id: 0,
    })];
    assert_eq!(v6.encode().unwrap().len(), 18);
}

#[test]
fn responses_of_a_tracker_are_read() {
    let value = parse(b"d8:intervali60e5:peers6:\x01\x02\x03\x04\x00\x50e");
    assert!(TrackerResponse::has_whole_peers(&value));
    match TrackerResponse::from_bencoded(&value).unwrap() {
        TrackerResponse::Success { interval, peers } => {
            assert_eq!(interval, 60);
            assert_eq!(peers, vec![socket(0x0102_0304, 80)]);
        }
        _ => panic!("failure"),
    }
    match TrackerResponse::from_bencoded(&parse(b"d14:failure reason4:nopee")).unwrap() {
        TrackerResponse::Failure { failure_reason } => {
            assert_eq!(failure_reason.to_string(), "nope");
        }
        _ => panic!("success"),
    }
    assert_eq!(
        TrackerResponse::from_bencoded(&parse(b"d5:peers0:e")).unwrap_err().details(),
        "Interval missing"
    );
    assert_eq!(
        TrackerResponse::from_bencoded(&parse(b"de")).unwrap_err().details(),
        "Invalid tracker response"
    );
    assert_eq!(
        TrackerResponse::from_bencoded(&parse(b"i1e")).unwrap_err().details(),
        "Invalid tracker response"
    );
    assert!(!TrackerResponse::has_whole_peers(&parse(b"d8:intervali60e5:peers1:xe")));
}

#[test]
fn answers_over_http_are_read() {
    let answer =
        read_http_answer(b"d8:intervali60e5:peers6:\x01\x02\x03\x04\x00\x50e").unwrap();
    assert_eq!(answer.interval, 60);
    assert_eq!(answer.peers, vec![socket(0x0102_0304, 80)]);
    let answer = try_read_http_answer(b"d8:intervali-1e5:peers0:e").unwrap().unwrap();
    assert_eq!(answer.interval, u64::MAX);
    assert_eq!(
        try_read_http_answer(b"d14:failure reason4:nopee").unwrap().unwrap_err().details(),
        "Tracker query failure: nope"
    );
    assert_eq!(
        try_read_http_answer(b"").unwrap().unwrap_err().details(),
        "No data"
    );
    assert!(try_read_http_answer(b"d8:intervali60e5:peers1:xe").is_none());
}

#[test]
fn trackers_are_told_apart() {
    assert!(matches!(
        TrackerAddress::new("http://x/announce".to_string()),
        Ok(TrackerAddress::Http(url)) if url == "http://x/announce"
    ));
    for url in ["udp://host.example:6969/announce", "udp://host.example:6969"] {
        assert!(matches!(
            TrackerAddress::new(url.to_string()),
            Ok(TrackerAddress::Udp(host)) if host == "host.example:6969"
        ));
    }
    assert_eq!(address_error("udp://host"), "Invalid tracker url: udp://host");
    assert_eq!(
        address_error("wss://host"),
        "Unrecognized tracker protocol: wss://host"
    );
    let mut queue: VecDeque<String> = VecDeque::new();
    queue.push_back("wss://a".to_string());
    queue.push_back("http://b".to_string());
    let (url, result) = next_tracker(&mut queue).unwrap();
    assert_eq!(url, "wss://a");
    assert!(result.is_err());
    let (url, result) = next_tracker(&mut queue).unwrap();
    assert_eq!(url, "http://b");
    assert!(result.is_ok());
    assert!(next_tracker(&mut queue).is_none());
}

#[test]
fn trackers_are_asked_over_http() {
    assert_eq!(
        http_query("http://x", &magnet(), "id", 6881).unwrap(),
        format!(
            "http://x?info_hash={}&peer_id=id&port=6881&uploaded=0&downloaded=0&left=0&compact=1",
            querystring_encode(&[0xab; 20])
        )
    );
    let hash = file().info_hash().unwrap();
    let expected = format!(
        "http://x?info_hash={}&peer_id=id&port=1&uploaded=0&downloaded=0&left=77&compact=1",
        querystring_encode(&hash)
    );
    assert_eq!(
        http_query("http://x", &TorrentSource::File(file()), "id", 1).unwrap(),
        expected
    );
    assert_eq!(
        multimodal_tracker::http_query("http://x", &file(), "id", 1).unwrap(),
        expected
    );
}

#[test]
fn connections_over_udp_are_asked_for() {
    assert_eq!(
        encode_connect(0x0102_0304),
        vec![0, 0, 4, 0x17, 0x27, 0x10, 0x19, 0x80, 0, 0, 0, 0, 1, 2, 3, 4]
    );
    let (id, bytes) = UdpTrackerConnection::begin_connect();
    assert_eq!(bytes, encode_connect(id));
    assert!(UdpTrackerConnection::needs_connect(None));
    assert!(UdpTrackerConnection::needs_connect(Some(61)));
    assert!(!UdpTrackerConnection::needs_connect(Some(60)));
    let mut connection = UdpTrackerConnection::new();
    let response = [0, 0, 0, 0, 0, 0, 0, 9, 0, 0, 0, 0, 0, 0, 1, 2];
    assert!(UdpTrackerConnection::can_finish_connect(9, &response));
    assert!(!UdpTrackerConnection::can_finish_connect(9, &response[..12]));
    assert!(UdpTrackerConnection::can_finish_connect(8, &response[..12]));
    assert_eq!(
        connection.finish_connect(8, &response).unwrap_err().details(),
        "Invalid transaction id in connection response"
    );
    assert_eq!(connection.connection_id, None);
    connection.finish_connect(9, &response).unwrap();
    assert_eq!(connection.connection_id, Some(258));
}

#[test]
fn torrents_are_announced_over_udp() {
    let mut connection = UdpTrackerConnection::new();
    assert_eq!(
        connection.begin_announce(&magnet(), "00112233445566778899", 1).unwrap_err().details(),
        "No connection id to use"
    );
    connection.connection_id = Some(1);
    let (transaction_id, key, bytes) =
        connection.begin_announce(&magnet(), "00112233445566778899", 258).unwrap();
    assert_eq!(bytes.len(), 98);
    assert_eq!(&bytes[..12], &[0, 0, 0, 0, 0, 0, 0, 1, 0, 0, 0, 1]);
    assert_eq!(&bytes[12..16], &transaction_id.to_be_bytes());
    assert_eq!(&bytes[16..36], &[0xab; 20]);
    assert_eq!(&bytes[36..56], b"00112233445566778899");
    assert_eq!(&bytes[56..88], &[0; 32]);
    assert_eq!(&bytes[88..92], &key.to_be_bytes());
    assert_eq!(&bytes[92..98], &[0xff, 0xff, 0xff, 0xff, 1, 2]);
    let mut response = vec![0, 0, 0, 1, 0, 0, 0, 9, 0, 0, 0, 60, 0, 0, 0, 0, 0, 0, 0, 0];
    response.extend_from_slice(&[1, 2, 3, 4, 0, 80]);
    assert!(UdpTrackerConnection::can_finish_announce(9, &response));
    assert!(!UdpTrackerConnection::can_finish_announce(9, &response[..22]));
    let answer = UdpTrackerConnection::finish_announce(9, &response).unwrap();
    assert_eq!(answer.interval, 60);
    assert_eq!(answer.peers, vec![socket(0x0102_0304, 80)]);
    assert_eq!(
        UdpTrackerConnection::finish_announce(8, &response).unwrap_err().details(),
        "Invalid transaction id in announce response"
    );
    assert!(multimodal_tracker::can_finish_announce(9, &response));
    let answer = multimodal_tracker::finish_announce(9, &response).unwrap();
    assert_eq!(answer.interval, 60);
    assert_eq!(answer.peers, "base64:AQIDBABQ");
    assert_eq!(
        multimodal_tracker::finish_announce(8, &response).unwrap_err().details(),
        "Invalid transaction id in announce response"
    );
    assert!(multimodal_tracker::read_http_value(b"d1:ai1ee").is_ok());
}

#[test]
fn named_peers_are_queued() {
    let mut queue = PeerQueue::new();
    assert_eq!(queue.next(), None);
    assert_eq!(queue.refill(&vec![]), None);
    assert_eq!(
        queue.refill(&vec![socket(1, 1), socket(2, 2), socket(3, 3)]),
        Some(socket(1, 1))
    );
    assert_eq!(queue.next(), Some(socket(2, 2)));
    assert_eq!(queue.next(), Some(socket(3, 3)));
    assert_eq!(queue.next(), None);
}

#[test]
fn nodes_read_back_from_their_bytes() {
    let nodes = vec![ip_node(1, 10), ip_node(2, 20)];
    let bytes = write_nodes(&nodes);
    assert_eq!(bytes.0.len(), 52);
    assert_eq!(format!("{:?}", read_nodes(&bytes.0)), format!("{:?}", nodes));
    assert_eq!(NodeAddress::Domain("x".to_string()).to_bytes().0, b"x".to_vec());
    assert!(ip_node(1, 1).is_same(&ip_node(1, 2)));
    assert!(!ip_node(1, 1).is_same(&ip_node(2, 1)));
    let unnamed = Node {
        id: None,
        address: NodeAddress::Ip(socket(1, 1)),
    };
    assert!(unnamed.is_same(&ip_node(1, 1)));
    assert!(!unnamed.clone().is_same(&ip_node(1, 2)));
}

#[test]
fn messages_between_nodes_read_back() {
    let id = Bytes::from_text("id");
    krpc_shown_again(DhtMessage::Query(Query::Ping { id: id.clone() }));
    krpc_shown_again(DhtMessage::Query(Query::FindNode {
        id: id.clone(),
        target: Bytes::from_text("t"),
    }));
    krpc_shown_again(DhtMessage::Query(Query::GetPeers {
        id: id.clone(),
        info_hash: [5; 20],
    }));
    krpc_shown_again(DhtMessage::Query(Query::AnnouncePeer {
        id: id.clone(),
        port: Some(65535),
        info_hash: [5; 20],
        token: Bytes::from_text("tok"),
    }));
    krpc_shown_again(DhtMessage::Query(Query::AnnouncePeer {
        id: id.clone(),
        port: None,
        info_hash: [5; 20],
        token: Bytes::from_text("tok"),
    }));
    krpc_shown_again(DhtMessage::Response {
        id,
        token: Some(Bytes::from_text("tok")),
        nodes: Some(vec![ip_node(3, 4)]),
        peers: None,
    });
    krpc_shown_again(DhtMessage::Error(201, "Generic".to_string()));
}

#[test]
fn broken_messages_between_nodes_are_refused() {
    let prefix = "Invalid KRPC message";
    assert_eq!(krpc_error("i1e"), prefix);
    assert_eq!(krpc_error("de"), format!("{prefix}: missing transaction id"));
    assert_eq!(krpc_error("d1:t1:xe"), format!("{prefix}: missing message type"));
    assert_eq!(krpc_error("d1:t1:x1:y1:ze"), format!("{prefix}: invalid message type"));
    assert_eq!(krpc_error("d1:t1:x1:y1:qe"), format!("{prefix}: missing query arguments"));
    assert_eq!(krpc_error("d1:ade1:t1:x1:y1:qe"), format!("{prefix}: missing query type"));
    assert_eq!(
        krpc_error("d1:ade1:q4:ping1:t1:x1:y1:qe"),
        format!("{prefix}: missing id")
    );
    assert_eq!(
        krpc_error("d1:ade1:q4:pong1:t1:x1:y1:qe"),
        format!("{prefix}: invalid query type")
    );
    assert_eq!(
        krpc_error("d1:ad2:id1:ie1:q9:find_node1:t1:x1:y1:qe"),
        format!("{prefix}: missing target")
    );
    assert_eq!(
        krpc_error("d1:ad2:id1:i9:info_hash1:he1:q9:get_peers1:t1:x1:y1:qe"),
        format!("{prefix}: missing info_hash")
    );
    assert_eq!(
        krpc_error("d1:ad2:id1:ie1:q13:announce_peer1:t1:x1:y1:qe"),
        format!("{prefix}: missing port")
    );
    assert_eq!(
        krpc_error(
            "d1:ad2:id1:i12:implied_porti1e9:info_hash20:aaaaaaaaaaaaaaaaaaaae1:q13:announce_peer1:t1:x1:y1:qe"
        ),
        format!("{prefix}: missing token")
    );
    assert_eq!(krpc_error("d1:t1:x1:y1:re"), format!("{prefix}: missing response data"));
    assert_eq!(krpc_error("d1:rde1:t1:x1:y1:re"), "Missing id");
    assert_eq!(
        krpc_error("d1:rd2:id1:i6:valuesl3:abcee1:t1:x1:y1:re"),
        "Invalid socket address: 3"
    );
    assert_eq!(krpc_error("d1:t1:x1:y1:ee"), format!("{prefix}: missing error data"));
    assert_eq!(
        krpc_error("d1:ele1:t1:x1:y1:ee"),
        format!("{prefix}: missing error message")
    );
    assert_eq!(
        krpc_error("d1:el1:me1:t1:x1:y1:ee"),
        format!("{prefix}: missing error code")
    );
    assert!(!KrpcMessage::has_whole_nodes(&parse(
        b"d1:rd2:id1:i5:nodes3:abce1:t1:x1:y1:re"
    )));
}

#[test]
fn nodes_are_asked() {
    let (transaction_id, bytes) =
        begin_exchange(peers_query(&Bytes::from_text("me"), [1; 20]));
    assert_eq!(transaction_id.0.len(), 2);
    assert_eq!(
        bytes.unwrap(),
        encode_request(&transaction_id, peers_query(&Bytes::from_text("me"), [1; 20])).unwrap()
    );
    let ping = DhtMessage::Query(Query::Ping {
        id: Bytes::from_text("me"),
    });
    assert_eq!(
        encode_request(&Bytes::from_text("tx"), ping).unwrap(),
        b"dadidmeeqpingttxyqe".to_vec()
    );
}

#[test]
fn answers_of_nodes_are_checked() {
    let tx = Bytes::from_text("tx");
    let answer = b"d1:rd2:id1:i6:valuesl6:\x01\x02\x03\x04\x00\x50ee1:t2:tx1:y1:re";
    match finish_exchange(&tx, answer).unwrap() {
        DhtMessage::Response { peers, .. } => {
            assert_eq!(peers, Some(vec![socket(0x0102_0304, 80)]));
        }
        _ => panic!("not a response"),
    }
    let other = Bytes::from_text("ty");
    assert_eq!(
        try_finish_exchange(&other, answer).unwrap().unwrap_err().details(),
        "Response transaction id does not match: recieved tx, expected ty"
    );
    let refused = KrpcMessage {
        transaction_id: tx.clone(),
        dht_message: DhtMessage::Error(203, "no".to_string()),
    };
    assert_eq!(
        check_answer(&tx, refused).unwrap_err().details(),
        "Error response from DHT node: code 203: no"
    );
    assert!(try_finish_exchange(&tx, b"d1:rd2:id1:i5:nodes3:abce1:t2:tx1:y1:re").is_none());
    assert_eq!(
        try_finish_exchange(&tx, b"").unwrap().unwrap_err().details(),
        "No data"
    );
}

#[test]
fn nodes_are_gone_on_to_once() {
    let mut seen = vec![ip_node(9, 9)];
    let step = crawl_step(
        &mut seen,
        &ip_node(1, 1),
        Some(DhtMessage::Response {
            id: Bytes::from_text("i"),
            token: None,
            nodes: Some(vec![ip_node(9, 1), ip_node(2, 2)]),
            peers: None,
        }),
    );
    assert_eq!(step.nodes.len(), 1);
    assert_eq!(step.nodes[0].id, Some([2; 20]));
    assert!(!step.keep);
    assert!(step.peers.is_empty());
    assert_eq!(seen.len(), 2);
    let step = crawl_step(
        &mut seen,
        &ip_node(3, 3),
        Some(DhtMessage::Response {
            id: Bytes::from_text("i"),
            token: None,
            nodes: None,
            peers: Some(vec![socket(4, 4)]),
        }),
    );
    assert!(step.keep);
    assert_eq!(step.peers, vec![socket(4, 4)]);
    assert_eq!(seen.len(), 2);
    let step = crawl_step(&mut seen, &ip_node(5, 5), None);
    assert!(!step.keep && step.nodes.is_empty() && step.peers.is_empty());
    assert_eq!(seen.len(), 3);
}

#[test]
fn nodes_to_start_from_are_listed() {
    let nodes = bootstrap_nodes(&vec!["router.example:6881".to_string()]);
    assert!(matches!(
        &nodes[..],
        [Node {
            id: None,
            address: NodeAddress::Domain(domain),
        }] if domain == "router.example:6881"
    ));
    assert_eq!(read_bootstrap_nodes(b"[\"a:1\", \"b:2\"]").unwrap().len(), 2);
    assert!(read_bootstrap_nodes(b"{}").is_err());
}

#[test]
fn plain_handshakes_read_back() {
    let message = handshake::HandshakeMessage::new(&file(), "00112233445566778899").unwrap();
    let bytes = message.encode();
    assert_eq!(bytes.len(), 68);
    assert_eq!(&bytes[20..28], &[0; 8]);
    let read = handshake::HandshakeMessage::decode(&bytes).unwrap();
    assert_eq!(read.info_hash, file().info_hash().unwrap().to_vec());
    assert_eq!(read.info_hash, sha1_hash(&file().info.to_bencoded().encode().unwrap()).to_vec());
    assert_eq!(read.peer_id, b"00112233445566778899".to_vec());
}

#[test]
fn permits_are_counted() {
    let mut semaphore = Semaphore::new(2);
    assert!(semaphore.take());
    assert!(!semaphore.take_n(2));
    semaphore.put();
    assert!(semaphore.can_put_n(5));
    assert!(!semaphore.can_put_n(usize::MAX));
    semaphore.put_n(1);
    assert!(semaphore.take_n(3));
    assert!(!semaphore.take());
    semaphore.put_n(2);
    assert!(!semaphore.take_n(3));
    semaphore.put();
    assert!(semaphore.take_n(3));
}

#[test]
fn doors_open_and_close() {
    let mut door = SyncDoor::new();
    assert!(door.wait());
    door.close();
    assert!(door.is_closed());
    assert!(!door.wait());
    door.open();
    assert!(!door.is_closed());
}

#[test]
fn pools_take_every_result() {
    for (items, workers) in [(0, 2), (1, 2), (2, 2), (5, 2), (3, 7)] {
        let mut source = 0..items;
        let mut under_way: Vec<i32> = vec![];
        let mut pool = PoolMap::new();
        for _ in 0..workers {
            let item = source.next();
            if !pool.feed(workers, item.is_some()) {
                break;
            }
            under_way.extend(item);
        }
        let mut results: Vec<i32> = vec![];
        while pool.next() == PoolStep::Await {
            assert_eq!(pool.work_left, under_way.len());
            let ready = under_way.pop().unwrap();
            let item = source.next();
            under_way.extend(item);
            results.extend(pool.receive(PoolResult::Continue(ready * 10), item.is_some()));
        }
        results.sort();
        assert_eq!(results, (0..items).map(|item| item * 10).collect::<Vec<_>>());
    }
}

#[test]
fn pools_can_be_broken_off() {
    let mut pool = PoolMap::new();
    assert!(pool.feed(2, true));
    assert_eq!(pool.receive::<i32>(PoolResult::Break, false), None);
    assert_eq!(pool.work_left, 1);
    assert_eq!(pool.next(), PoolStep::Await);
    assert_eq!(pool.receive(PoolResult::Continue(5), false), Some(5));
    assert_eq!(pool.next(), PoolStep::Finished);
}
