use bittorrent::bencode::encode::encode_maybe_b64_string;
use bittorrent::bytes::Bytes;
use bittorrent::collate::collate;
use bittorrent::info::{FileInfo, Info, MetaInfo};
use bittorrent::magnet::Magnet;
use bittorrent::net::{IpAddr, Ipv4Addr, Ipv6Addr};
use bittorrent::peer::message::{
    ExtensionHandshake, ExtensionMessage, ExtensionMetadata, HandshakeMessage, PeerMessage,
    PeerMessageCodec, PieceMessage, RequestMessage,
};
use bittorrent::peer::tcp::piece::{PieceDownload, CHUNK_SIZE, IN_FLIGHT, MAX_REJECTIONS};
use bittorrent::peer::tcp::{
    body_length, codec_extension_config, extension_handshake, handshake_message, Opening,
    Progress,
};
use bittorrent::torrent_source::TorrentSource;
use bittorrent::util::{bytes_to_hex, sha1_hash};

fn loopback() -> IpAddr {
    IpAddr::V4(Ipv4Addr { bits: 0x7f00_0001 })
}

fn meta_info(piece_length: usize, length: usize, pieces: Vec<[u8; 20]>) -> MetaInfo {
    MetaInfo {
        announce_list: vec![],
        info: Info {
            name: "x".to_string(),
            piece_length,
            pieces,
            file_info: FileInfo::Length(length),
        },
    }
}

fn magnet_source() -> TorrentSource {
    TorrentSource::Magnet(Magnet {
        xt: [0; 20],
        dn: None,
        tr: vec![],
        xpe: vec![],
    })
}

fn a_handshake() -> PeerMessage {
    PeerMessage::Handshake(HandshakeMessage {
        info_hash: [0; 20],
        peer_id: vec![0; 20],
    })
}

fn metadata_part(total: usize, data: &[u8]) -> PeerMessage {
    PeerMessage::Extension(ExtensionMessage::Metadata(
        ExtensionMetadata {
            msg_type: 1,
            piece: 0,
            total_size: Some(total),
        },
        Some(data.to_vec()),
    ))
}

fn asked_part(message: &PeerMessage) -> Option<usize> {
    match message {
        PeerMessage::Extension(ExtensionMessage::Metadata(
            ExtensionMetadata {
                msg_type: 0,
                piece,
                total_size: None,
            },
            None,
        )) => Some(*piece),
        _ => None,
    }
}

#[test]
fn messages_announce_their_length() {
    assert_eq!(body_length(&[0, 0, 1, 2]), Some(258));
    assert_eq!(body_length(b"\x13Bit"), None);
    let bytes = HandshakeMessage {
        info_hash: [3; 20],
        peer_id: vec![4; 20],
    }
    .encode();
    match handshake_message(&bytes[..4], &bytes[4..]).unwrap() {
        PeerMessage::Handshake(handshake) => {
            assert_eq!(handshake.info_hash, [3; 20]);
            assert_eq!(handshake.peer_id, vec![4; 20]);
        }
        _ => panic!("not a handshake"),
    }
    assert_eq!(codec_extension_config(), vec![("ut_metadata".to_string(), 2)]);
}

#[test]
fn a_connection_with_metainfo_opens_with_a_bitfield() {
    let source = TorrentSource::File(meta_info(4, 10, vec![[0; 20]; 3]));
    let mut opening = Opening::new(&source, loopback());
    assert!(opening.choked);
    let (sent, progress) = opening.receive(a_handshake());
    assert!(matches!(progress, Progress::Continue));
    match &sent[0] {
        PeerMessage::Extension(ExtensionMessage::Handshake(handshake)) => {
            assert_eq!(
                handshake.version,
                Some("MaurdekyeBitTorrent/1.0.0".to_string())
            );
            assert_eq!(handshake.yourip, Some("\u{7f}\u{0}\u{0}\u{1}".to_string()));
            assert_eq!(handshake.reqq.unwrap().as_u64(), Some(500));
        }
        _ => panic!("not a handshake"),
    }
    let (sent, progress) = opening.receive(PeerMessage::Unchoke);
    assert!(sent.is_empty() && matches!(progress, Progress::Continue));
    assert!(!opening.choked);
    let (sent, progress) = opening.receive(PeerMessage::Bitfield(vec![
        true, false, true, true, true, true, true, true,
    ]));
    assert!(matches!(progress, Progress::Done));
    assert!(matches!(sent[..], [PeerMessage::Interested]));
    let (meta_info, bitfield) = opening.finish().unwrap();
    assert_eq!(meta_info.info.name, "x");
    assert_eq!(bitfield, vec![true, false, true]);
}

#[test]
fn a_connection_without_metainfo_asks_for_it() {
    let mut opening = Opening::new(&magnet_source(), loopback());
    let (sent, progress) = opening.receive(PeerMessage::HaveAll);
    assert!(sent.is_empty() && matches!(progress, Progress::Continue));
    let (sent, progress) = opening.receive(PeerMessage::Extension(ExtensionMessage::Handshake(
        ExtensionHandshake::default(),
    )));
    assert!(matches!(progress, Progress::Continue));
    assert_eq!(sent.iter().map(asked_part).collect::<Vec<_>>(), vec![Some(0)]);
    let info = b"d6:lengthi1e4:name1:y12:piece lengthi1e6:pieces20:aaaaaaaaaaaaaaaaaaaae";
    let (sent, progress) = opening.receive(metadata_part(info.len(), &info[..10]));
    assert!(matches!(progress, Progress::Continue));
    assert_eq!(sent.iter().map(asked_part).collect::<Vec<_>>(), vec![Some(1)]);
    let (sent, progress) = opening.receive(metadata_part(info.len(), &info[10..]));
    assert!(matches!(progress, Progress::Done));
    assert!(matches!(sent[..], [PeerMessage::Interested]));
    let (meta_info, bitfield) = opening.finish().unwrap();
    assert_eq!(meta_info.info.name, "y");
    assert_eq!(bitfield, vec![true]);
}

#[test]
fn a_peer_without_data_is_dropped() {
    let mut opening = Opening::new(&magnet_source(), loopback());
    let (sent, progress) = opening.receive(PeerMessage::HaveNone);
    assert!(matches!(sent[..], [PeerMessage::NotInterested]));
    match progress {
        Progress::Failed(error) => assert_eq!(error.details(), "Peer has no data"),
        _ => panic!("not failed"),
    }
}

#[test]
fn broken_metainfo_fails_the_connection() {
    let mut opening = Opening::new(&magnet_source(), loopback());
    opening.receive(PeerMessage::HaveAll);
    opening.receive(metadata_part(3, b"i1e"));
    assert_eq!(opening.finish().unwrap_err().details(), "Invalid info");
}

#[test]
fn a_piece_is_downloaded_in_chunks() {
    let data: Vec<u8> = (0..40000u32).map(|i| (i % 251) as u8).collect();
    let torrent = meta_info(40000, 40000, vec![sha1_hash(&data)]);
    let mut download = PieceDownload::new(Some(&torrent), 0, true).unwrap();
    assert_eq!(download.total_chunks, 3);
    assert!(download.can_request());
    assert_eq!(download.next_request(), None);
    download.receive(PeerMessage::Unchoke).unwrap();
    let mut requests: Vec<RequestMessage> = vec![];
    while let Some(request) = download.next_request() {
        requests.push(request);
    }
    assert_eq!(
        requests.iter().map(|r| (r.index, r.begin, r.length)).collect::<Vec<_>>(),
        vec![(0, 0, CHUNK_SIZE), (0, CHUNK_SIZE, CHUNK_SIZE), (0, 2 * CHUNK_SIZE, 40000 - 2 * CHUNK_SIZE)]
    );
    for request in requests.iter().rev() {
        assert!(!download.is_complete());
        let begin = request.begin as usize;
        download
            .receive(PeerMessage::Piece(PieceMessage {
                index: 0,
                begin: request.begin,
                block: data[begin..begin + request.length as usize].to_vec(),
            }))
            .unwrap();
    }
    assert!(download.is_complete());
    assert_eq!(download.finish(&torrent).unwrap(), data);
}

#[test]
fn no_more_than_a_few_requests_are_in_flight() {
    let torrent = meta_info(16 * CHUNK_SIZE as usize, 16 * CHUNK_SIZE as usize, vec![[0; 20]]);
    let mut download = PieceDownload::new(Some(&torrent), 0, false).unwrap();
    let mut sent = 0;
    while download.next_request().is_some() {
        sent += 1;
    }
    assert_eq!(sent, IN_FLIGHT);
    download
        .receive(PeerMessage::RejectRequest(RequestMessage {
            index: 0,
            begin: 0,
            length: CHUNK_SIZE,
        }))
        .unwrap();
    assert_eq!(download.chunks.len(), 16 - IN_FLIGHT + 1);
    assert_eq!(download.next_request().unwrap().begin, 4 * CHUNK_SIZE);
}

#[test]
fn too_many_rejections_end_a_download() {
    let torrent = meta_info(10, 10, vec![[0; 20]]);
    let mut download = PieceDownload::new(Some(&torrent), 0, false).unwrap();
    for i in 1..=MAX_REJECTIONS {
        let request = download.next_request().unwrap();
        let result = download.receive(PeerMessage::RejectRequest(request));
        if i < MAX_REJECTIONS {
            assert!(result.is_ok());
        } else {
            assert_eq!(result.unwrap_err().details(), "Too many rejections");
        }
    }
}

#[test]
fn the_last_piece_is_shorter() {
    let torrent = meta_info(100, 250, vec![[0; 20]; 3]);
    assert_eq!(PieceDownload::new(Some(&torrent), 0, false).unwrap().chunk_size, 100);
    assert_eq!(PieceDownload::new(Some(&torrent), 2, false).unwrap().chunk_size, 50);
    assert_eq!(
        PieceDownload::new(None, 0, false).unwrap_err().details(),
        "Can't download a file without meta info!"
    );
}

#[test]
fn a_wrong_hash_is_told() {
    let torrent = meta_info(1, 1, vec![[0; 20]]);
    let mut download = PieceDownload::new(Some(&torrent), 0, false).unwrap();
    download.next_request();
    download
        .receive(PeerMessage::Piece(PieceMessage {
            index: 0,
            begin: 0,
            block: vec![1],
        }))
        .unwrap();
    let expected = format!(
        "Piece hash mismatch: meta info hash: {}, actual hash: {}",
        bytes_to_hex(&[0; 20]),
        bytes_to_hex(&sha1_hash(&[1]))
    );
    assert_eq!(download.finish(&torrent).unwrap_err().details(), expected);
}

#[test]
fn a_foreign_rejection_can_name_no_chunk() {
    let torrent = meta_info(10, 10, vec![[0; 20]]);
    let mut download = PieceDownload::new(Some(&torrent), 0, false).unwrap();
    download.next_request();
    download
        .receive(PeerMessage::RejectRequest(RequestMessage {
            index: 0,
            begin: 11,
            length: 1,
        }))
        .unwrap();
    assert!(!download.can_request());
}

#[test]
fn blocks_are_put_in_order() {
    assert_eq!(
        collate(vec![
            (5, vec![5]),
            (1, vec![1]),
            (3, vec![3]),
            (1, vec![2]),
        ]),
        vec![1, 2, 3, 5]
    );
    assert_eq!(collate(vec![]), Vec::<u8>::new());
}

#[test]
fn every_address_can_be_sent() {
    let marked = u128::from_be_bytes(*b"base64:abcdefghi");
    let addresses = [
        loopback(),
        IpAddr::V4(Ipv4Addr { bits: 0xffff_ffff }),
        IpAddr::V6(Ipv6Addr { bits: 1 }),
        IpAddr::V6(Ipv6Addr { bits: marked }),
    ];
    for ip in addresses {
        let handshake = extension_handshake(ip);
        let yourip = handshake.yourip.clone().unwrap();
        assert_eq!(
            encode_maybe_b64_string(&yourip).unwrap(),
            Bytes::from_ip_addr(ip).into_inner()
        );
        let message = PeerMessage::Extension(ExtensionMessage::Handshake(handshake));
        assert!(PeerMessageCodec::default().encode(&message).is_ok());
    }
}
